use subgraph_mock::latency::{LatencyConfig, LatencyGenerator, Shape};

fn profile(base_ms: u64) -> LatencyConfig {
    LatencyConfig { base_ms, saw: None, sine: None, square: None, triangle: None }
}

#[test]
fn default_latency_and_port() {
    assert_eq!(subgraph_mock::config::default_port(), 8080);
    let cfg = LatencyConfig::default_config();
    assert_eq!(cfg.base_ms, 5);
    assert_eq!(cfg.sine, Some(Shape { amplitude_ms: 2, period_ms: 10_000 }));
    let g = LatencyGenerator::new(cfg, 1_000);
    // sine contributions at 0, P/2, 3P/4 and P as rounded by the caller
    assert_eq!(g.generate(1_000, 1), 6);
    assert_eq!(g.generate(1_000 + 5_000, 1), 6);
    assert_eq!(g.generate(1_000 + 7_500, 0), 5);
    assert_eq!(g.generate(1_000 + 10_000, 1), 6);
}

#[test]
fn test_latency_shapes_saw_wave() {
    let mut cfg = profile(10);
    cfg.saw = Some(Shape { amplitude_ms: 20, period_ms: 10_000 });
    let g = LatencyGenerator::new(cfg, 0);
    assert_eq!(g.generate(0, 0), 10);
    assert_eq!(g.generate(5_000, 0), 20);
    assert_eq!(g.generate(9_999, 0), 29);
    assert_eq!(g.generate(10_000, 0), 10);
}

#[test]
fn test_latency_shapes_square_wave() {
    let mut cfg = profile(10);
    cfg.square = Some(Shape { amplitude_ms: 5, period_ms: 20_000 });
    let g = LatencyGenerator::new(cfg, 0);
    assert_eq!(g.generate(0, 0), 15);
    assert_eq!(g.generate(5_000, 0), 15);
    assert_eq!(g.generate(10_000, 0), 10);
    assert_eq!(g.generate(15_000, 0), 10);
    assert_eq!(g.generate(20_000, 0), 15);
}

#[test]
fn test_latency_shapes_triangle_wave() {
    let mut cfg = profile(0);
    cfg.triangle = Some(Shape { amplitude_ms: 10, period_ms: 10_000 });
    let g = LatencyGenerator::new(cfg, 0);
    assert_eq!(g.generate(0, 0), 0);
    assert_eq!(g.generate(2_500, 0), 5);
    assert_eq!(g.generate(5_000, 0), 10);
    assert_eq!(g.generate(7_500, 0), 5);
    assert_eq!(g.generate(10_000, 0), 0);
}

#[test]
fn latency_before_start_counts_as_start() {
    let mut cfg = profile(3);
    cfg.saw = Some(Shape { amplitude_ms: 100, period_ms: 1_000 });
    let g = LatencyGenerator::new(cfg, 500);
    assert_eq!(g.generate(100, 0), 3);
}

#[test]
fn latency_sine_ignored_without_sine_shape() {
    let g = LatencyGenerator::new(profile(7), 0);
    assert_eq!(g.generate(123, 99), 7);
}

#[test]
fn latency_zero_period_contributes_nothing() {
    let mut cfg = profile(1);
    cfg.square = Some(Shape { amplitude_ms: 50, period_ms: 0 });
    cfg.triangle = Some(Shape { amplitude_ms: 50, period_ms: 0 });
    let g = LatencyGenerator::new(cfg, 0);
    assert_eq!(g.generate(42, 0), 1);
}

#[test]
fn latency_saturates() {
    let mut cfg = profile(u64::MAX - 1);
    cfg.square = Some(Shape { amplitude_ms: 10, period_ms: 4 });
    let g = LatencyGenerator::new(cfg, 0);
    assert_eq!(g.generate(0, 0), u64::MAX);
}
