//! Time-varying latency: a base offset plus periodic wave shapes, all in
//! whole milliseconds.
use vstd::prelude::*;

verus! {

/// One periodic contribution to the latency: its peak and its period, in
/// milliseconds.
#[derive(Debug, Clone, Copy, PartialEq, Eq)]
pub struct Shape {
    pub amplitude_ms: u64,
    pub period_ms: u64,
}

/// The shapes that make up a latency profile, on top of a base offset.
#[derive(Debug, Clone, Copy, PartialEq, Eq)]
pub struct LatencyConfig {
    pub base_ms: u64,
    pub saw: Option<Shape>,
    pub sine: Option<Shape>,
    pub square: Option<Shape>,
    pub triangle: Option<Shape>,
}

/// A latency profile anchored at the instant it was created.
#[derive(Debug, Clone, Copy, PartialEq, Eq)]
pub struct LatencyGenerator {
    start_ms: u64,
    cfg: LatencyConfig,
}

/// Saw wave: a linear ramp from `0` towards the amplitude over one period,
/// then an instant reset. A zero period contributes nothing.
pub open spec fn saw_spec(s: Shape, t: int) -> int {
    if s.period_ms == 0 {
        0
    } else {
        (s.amplitude_ms * (t % (s.period_ms as int))) / (s.period_ms as int)
    }
}

/// Square wave: the amplitude during the first half of each period, `0` in the
/// second half.
pub open spec fn square_spec(s: Shape, t: int) -> int {
    if s.period_ms == 0 {
        0
    } else if t % (s.period_ms as int) < (s.period_ms / 2) as int {
        s.amplitude_ms as int
    } else {
        0
    }
}

/// Triangle wave: `0` at the start of each period, the amplitude at its
/// middle, and a symmetric descent back to `0`.
pub open spec fn triangle_spec(s: Shape, t: int) -> int {
    let p = s.period_ms as int;
    if p == 0 {
        0
    } else {
        let m = t % p;
        if 2 * m <= p {
            (s.amplitude_ms * (2 * m)) / p
        } else {
            (s.amplitude_ms * (2 * (p - m))) / p
        }
    }
}

pub open spec fn opt_shape(s: Option<Shape>, f: spec_fn(Shape) -> int) -> int {
    match s {
        Some(shape) => f(shape),
        None => 0,
    }
}

/// The latency, in milliseconds, `t` milliseconds after the start, given the
/// sine contribution `sine_ms` (used only when a sine shape is configured).
pub open spec fn latency_spec(cfg: LatencyConfig, t: int, sine_ms: int) -> int {
    cfg.base_ms + opt_shape(cfg.saw, |s: Shape| saw_spec(s, t)) + (if cfg.sine is Some {
        sine_ms
    } else {
        0
    }) + opt_shape(cfg.square, |s: Shape| square_spec(s, t)) + opt_shape(
        cfg.triangle,
        |s: Shape| triangle_spec(s, t),
    )
}

pub open spec fn clamp_u64(x: int) -> u64 {
    if x > u64::MAX {
        u64::MAX
    } else {
        x as u64
    }
}

proof fn lemma_scaled_le(a: int, m: int, p: int)
    requires
        0 <= a,
        0 <= m <= p,
        0 < p,
    ensures
        0 <= (a * m) / p <= a,
{
    assert(0 <= a * m <= a * p) by (nonlinear_arith)
        requires
            0 <= a,
            0 <= m <= p,
    ;
    assert((a * p) / p == a) by (nonlinear_arith)
        requires
            0 < p,
    ;
    assert(0 <= (a * m) / p <= (a * p) / p) by (nonlinear_arith)
        requires
            0 <= a * m <= a * p,
            0 < p,
    ;
}

fn saw_ms(s: Shape, elapsed: u64) -> (r: u64)
    ensures
        r == saw_spec(s, elapsed as int),
        r <= s.amplitude_ms,
{
    if s.period_ms == 0 {
        return 0;
    }
    let m = elapsed % s.period_ms;
    proof {
        lemma_scaled_le(s.amplitude_ms as int, m as int, s.period_ms as int);
        assert((s.amplitude_ms as int) * (m as int) <= (u64::MAX as int) * (u64::MAX as int))
            by (nonlinear_arith)
            requires
                s.amplitude_ms <= u64::MAX,
                m <= u64::MAX,
        ;
    }
    let prod: u128 = (s.amplitude_ms as u128) * (m as u128);
    (prod / (s.period_ms as u128)) as u64
}

fn square_ms(s: Shape, elapsed: u64) -> (r: u64)
    ensures
        r == square_spec(s, elapsed as int),
        r <= s.amplitude_ms,
{
    if s.period_ms == 0 {
        0
    } else if elapsed % s.period_ms < s.period_ms / 2 {
        s.amplitude_ms
    } else {
        0
    }
}

fn triangle_ms(s: Shape, elapsed: u64) -> (r: u64)
    ensures
        r == triangle_spec(s, elapsed as int),
        r <= s.amplitude_ms,
{
    if s.period_ms == 0 {
        return 0;
    }
    let p = s.period_ms;
    let m = elapsed % p;
    // twice the distance to the nearest period boundary, at most `p`
    let x: u64 = if m <= p - m {
        2 * m
    } else {
        2 * (p - m)
    };
    proof {
        lemma_scaled_le(s.amplitude_ms as int, x as int, p as int);
        assert((s.amplitude_ms as int) * (x as int) <= (u64::MAX as int) * (u64::MAX as int))
            by (nonlinear_arith)
            requires
                s.amplitude_ms <= u64::MAX,
                x <= u64::MAX,
        ;
    }
    let prod: u128 = (s.amplitude_ms as u128) * (x as u128);
    (prod / (p as u128)) as u64
}

fn add_clamped(a: u64, b: u64) -> (r: u64)
    ensures
        r == clamp_u64(a + b),
{
    if a > u64::MAX - b {
        u64::MAX
    } else {
        a + b
    }
}

impl LatencyConfig {
    /// The profile used when none is configured: 5 ms, plus a sine wave of
    /// 2 ms amplitude and a 10 s period.
    pub open spec fn default_config_spec() -> LatencyConfig {
        LatencyConfig {
            base_ms: 5,
            saw: None,
            sine: Some(Shape { amplitude_ms: 2, period_ms: 10_000 }),
            square: None,
            triangle: None,
        }
    }

    pub fn default_config() -> (r: LatencyConfig)
        ensures
            r == Self::default_config_spec(),
    {
        LatencyConfig {
            base_ms: 5,
            saw: None,
            sine: Some(Shape { amplitude_ms: 2, period_ms: 10_000 }),
            square: None,
            triangle: None,
        }
    }
}

impl LatencyGenerator {
    /// A generator whose time origin is `start_ms` (milliseconds on the
    /// caller's monotonic clock).
    pub fn new(cfg: LatencyConfig, start_ms: u64) -> (r: LatencyGenerator)
        ensures
            r.config() == cfg,
            r.start_ms() == start_ms,
    {
        LatencyGenerator { start_ms, cfg }
    }

    pub closed spec fn config(&self) -> LatencyConfig {
        self.cfg
    }

    pub closed spec fn start_ms(&self) -> u64 {
        self.start_ms
    }

    pub fn cfg(&self) -> (r: LatencyConfig)
        ensures
            r == self.config(),
    {
        self.cfg
    }

    pub fn start(&self) -> (r: u64)
        ensures
            r == self.start_ms(),
    {
        self.start_ms
    }

    /// Milliseconds elapsed between the start and `now_ms`; `0` for an instant
    /// before the start.
    pub open spec fn elapsed_spec(&self, now_ms: u64) -> int {
        if now_ms >= self.start_ms() {
            now_ms - self.start_ms()
        } else {
            0
        }
    }

    /// The latency to inject at `now_ms`. The sine contribution is computed by
    /// the caller (it needs floating point) and passed as `sine_ms`; it is
    /// ignored unless a sine shape is configured. The sum saturates at
    /// `u64::MAX`.
    pub fn generate(&self, now_ms: u64, sine_ms: u64) -> (r: u64)
        ensures
            r == clamp_u64(latency_spec(self.config(), self.elapsed_spec(now_ms), sine_ms as int)),
    {
        let elapsed: u64 = if now_ms >= self.start_ms {
            now_ms - self.start_ms
        } else {
            0
        };
        let t = Ghost(elapsed as int);
        let mut total: u64 = self.cfg.base_ms;
        let ghost mut exact: int = self.cfg.base_ms as int;
        let s1: u64 = match self.cfg.saw {
            Some(s) => saw_ms(s, elapsed),
            None => 0,
        };
        let s2: u64 = match self.cfg.sine {
            Some(_) => sine_ms,
            None => 0,
        };
        let s3: u64 = match self.cfg.square {
            Some(s) => square_ms(s, elapsed),
            None => 0,
        };
        let s4: u64 = match self.cfg.triangle {
            Some(s) => triangle_ms(s, elapsed),
            None => 0,
        };
        assert(s1 == opt_shape(self.cfg.saw, |s: Shape| saw_spec(s, t@)));
        assert(s3 == opt_shape(self.cfg.square, |s: Shape| square_spec(s, t@)));
        assert(s4 == opt_shape(self.cfg.triangle, |s: Shape| triangle_spec(s, t@)));
        total = add_clamped(total, s1);
        total = add_clamped(total, s2);
        total = add_clamped(total, s3);
        total = add_clamped(total, s4);
        total
    }
}

} // verus!
