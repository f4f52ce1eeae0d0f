//! The decisions taken for each request: routing, simulated HTTP failures,
//! which configured headers go out, and the response cache.
use crate::config::{ratio_ok, Config, Ratio, ResponseGenerationConfig, ScalarGenerator};
use crate::entries::{get_copied, lookup};
use crate::model::{Selection, SelectionSet};
use crate::random::{ratio_hit, string_from_chars, usize_in};
use std::collections::hash_map::DefaultHasher;
use std::collections::HashMap;
use std::hash::Hasher;
use vstd::prelude::*;
use vstd::std_specs::hash::{group_hash_axioms, DefaultHasherAdditionalSpecFns};
use vstd::string::{StringExecFns, StringSliceAdditionalSpecFns};

verus! {

broadcast use group_hash_axioms;

/// Where a request goes.
#[derive(Debug, Clone, PartialEq, Eq)]
pub enum Route {
    /// `POST /`: the base subgraph.
    Base,
    /// `POST /<name>...`: the named subgraph; further path segments are
    /// ignored.
    Subgraph(String),
    /// Anything else.
    NotFound,
}

/// The characters of `s` up to its first `/`.
pub open spec fn first_segment(s: Seq<char>) -> Seq<char>
    decreases s.len(),
{
    if s.len() == 0 || s[0] == '/' {
        Seq::empty()
    } else {
        seq![s[0]] + first_segment(s.drop_first())
    }
}

pub open spec fn route_spec(is_post: bool, path: Seq<char>) -> Option<Option<Seq<char>>> {
    if !is_post || path.len() == 0 || path[0] != '/' {
        None
    } else if path.len() == 1 {
        Some(None)
    } else {
        Some(Some(first_segment(path.drop_first())))
    }
}

impl Route {
    /// `None` for not found, `Some(None)` for the base, `Some(Some(name))`
    /// for a subgraph.
    pub open spec fn view_route(&self) -> Option<Option<Seq<char>>> {
        match self {
            Route::Base => Some(None),
            Route::Subgraph(n) => Some(Some(n@)),
            Route::NotFound => None,
        }
    }
}

proof fn lemma_first_segment_split(s: Seq<char>, i: int)
    requires
        0 <= i <= s.len(),
        forall|j: int| 0 <= j < i ==> s[j] != '/',
        i == s.len() || s[i] == '/',
    ensures
        first_segment(s) == s.subrange(0, i),
    decreases i,
{
    if i > 0 {
        lemma_first_segment_split(s.drop_first(), i - 1);
        assert(seq![s[0]] + s.drop_first().subrange(0, i - 1) =~= s.subrange(0, i));
    } else {
        assert(s.subrange(0, 0) =~= Seq::<char>::empty());
    }
}

/// Routes a request by method and path.
pub fn route(is_post: bool, path: &str) -> (r: Route)
    ensures
        r.view_route() == route_spec(is_post, path@),
{
    let len = path.unicode_len();
    if !is_post || len == 0 || path.get_char(0) != '/' {
        return Route::NotFound;
    }
    if len == 1 {
        return Route::Base;
    }
    let ghost rest = path@.drop_first();
    let mut name: Vec<char> = Vec::new();
    let mut i: usize = 1;
    while i < len && path.get_char(i) != '/'
        invariant
            1 <= i <= len,
            len == path@.len(),
            rest == path@.drop_first(),
            name@ == rest.subrange(0, i - 1),
            forall|j: int| 0 <= j < i - 1 ==> rest[j] != '/',
        decreases len - i,
    {
        name.push(path.get_char(i));
        i += 1;
    }
    proof {
        lemma_first_segment_split(rest, i - 1);
    }
    Route::Subgraph(string_from_chars(&name))
}

/// Draws whether to fail with a simulated server error, and its status.
pub fn http_error_status(cfg: &ResponseGenerationConfig) -> (r: Option<u16>)
    requires
        cfg.wf(),
    ensures
        match r {
            Some(s) => cfg.http_error_ratio is Some && 500 <= s <= 504,
            None => true,
        },
        cfg.http_error_ratio is None ==> r is None,
        (cfg.http_error_ratio matches Some(x) && x.0 == 0) ==> r is None,
        (cfg.http_error_ratio is Some && cfg.http_error_ratio.unwrap().0
            == cfg.http_error_ratio.unwrap().1) ==> r is Some,
{
    match cfg.http_error_ratio {
        Some(ratio) => {
            if ratio_hit(ratio) {
                Some(usize_in(500, 504) as u16)
            } else {
                None
            }
        },
        None => None,
    }
}

/// Draws which configured headers go out: one draw per header name on the
/// name's ratio (always included without one), shared by every value of the
/// name.
pub fn draw_header_inclusion(headers: &Vec<(String, String)>, ratios: &Vec<(String, Ratio)>) -> (r: Vec<bool>)
    requires
        forall|i: int| 0 <= i < ratios@.len() ==> ratio_ok(#[trigger] ratios@[i].1),
    ensures
        r@.len() == headers@.len(),
        forall|i: int|
            0 <= i < headers@.len() ==> match lookup(ratios@, (#[trigger] headers@[i]).0@) {
                None => r@[i],
                Some(x) => (x.0 == x.1 ==> r@[i]) && (x.0 == 0 ==> !r@[i]),
            },
        forall|i: int, j: int|
            0 <= i < headers@.len() && 0 <= j < headers@.len() && #[trigger] headers@[i].0@
                == #[trigger] headers@[j].0@ ==> r@[i] == r@[j],
{
    let mut r: Vec<bool> = Vec::new();
    let mut i: usize = 0;
    while i < headers.len()
        invariant
            i <= headers@.len(),
            r@.len() == i,
            forall|a: int| 0 <= a < ratios@.len() ==> ratio_ok(#[trigger] ratios@[a].1),
            forall|a: int|
                0 <= a < i ==> match lookup(ratios@, (#[trigger] headers@[a]).0@) {
                    None => r@[a],
                    Some(x) => (x.0 == x.1 ==> r@[a]) && (x.0 == 0 ==> !r@[a]),
                },
            forall|a: int, b: int|
                0 <= a < i && 0 <= b < i && #[trigger] headers@[a].0@ == #[trigger] headers@[b].0@
                    ==> r@[a] == r@[b],
        decreases headers@.len() - i,
    {
        // a name seen before keeps its first draw
        let mut earlier: Option<usize> = None;
        let mut j: usize = 0;
        while j < i
            invariant
                j <= i,
                i < headers@.len(),
                match earlier {
                    Some(e) => e < i && headers@[e as int].0@ == headers@[i as int].0@,
                    None => forall|b: int| 0 <= b < j ==> headers@[b].0@ != headers@[i as int].0@,
                },
            decreases i - j,
        {
            if earlier.is_none() && headers[j].0 == headers[i].0 {
                earlier = Some(j);
            }
            j += 1;
        }
        let keep = match earlier {
            Some(e) => r[e],
            None => match get_copied(ratios, &headers[i].0) {
                Some(x) => {
                    proof {
                        crate::entries::lemma_lookup_some(ratios@, headers@[i as int].0@);
                    }
                    ratio_hit(x)
                },
                None => true,
            },
        };
        r.push(keep);
        i += 1;
    }
    r
}

/// The headers of a response: the configured ones whose draw is `true`, in
/// order, then `content-type: application/json`.
pub fn included_headers(headers: &Vec<(String, String)>, keep: &Vec<bool>) -> (r: Vec<(String, String)>)
    requires
        keep@.len() == headers@.len(),
    ensures
        r@.len() >= 1,
        r@.last().0@ == "content-type"@,
        r@.last().1@ == "application/json"@,
        r@.drop_last().map_values(|h: (String, String)| (h.0@, h.1@)) == kept_headers(
            headers@.map_values(|h: (String, String)| (h.0@, h.1@)),
            keep@,
        ),
{
    let mut r: Vec<(String, String)> = Vec::new();
    let mut i: usize = 0;
    while i < headers.len()
        invariant
            i <= headers@.len(),
            keep@.len() == headers@.len(),
            r@.map_values(|h: (String, String)| (h.0@, h.1@)) == kept_headers(
                headers@.map_values(|h: (String, String)| (h.0@, h.1@)).subrange(0, i as int),
                keep@.subrange(0, i as int),
            ),
        decreases headers@.len() - i,
    {
        let ghost hv = headers@.map_values(|h: (String, String)| (h.0@, h.1@));
        let ghost r0 = r@;
        if keep[i] {
            r.push((headers[i].0.clone(), headers[i].1.clone()));
        }
        proof {
            assert(hv.subrange(0, i + 1).drop_last() =~= hv.subrange(0, i as int));
            assert(keep@.subrange(0, i + 1).drop_last() =~= keep@.subrange(0, i as int));
            if keep[i as int] {
                assert(r@.map_values(|h: (String, String)| (h.0@, h.1@)) =~= r0.map_values(
                    |h: (String, String)| (h.0@, h.1@),
                ).push(hv[i as int]));
            }
        }
        i += 1;
    }
    proof {
        let hv = headers@.map_values(|h: (String, String)| (h.0@, h.1@));
        assert(hv.subrange(0, hv.len() as int) =~= hv);
        assert(keep@.subrange(0, keep@.len() as int) =~= keep@);
    }
    let ghost r0 = r@;
    r.push((String::from_str("content-type"), String::from_str("application/json")));
    assert(r@.drop_last() =~= r0);
    r
}

/// The headers of `h` whose flag in `keep` is set, in order.
pub open spec fn kept_headers(h: Seq<(Seq<char>, Seq<char>)>, keep: Seq<bool>) -> Seq<
    (Seq<char>, Seq<char>),
>
    decreases h.len(),
{
    if h.len() == 0 || keep.len() == 0 {
        Seq::empty()
    } else {
        let prev = kept_headers(h.drop_last(), keep.drop_last());
        if keep.last() {
            prev.push(h.last())
        } else {
            prev
        }
    }
}

/// Whether an operation only asks for introspection: it selects at least one
/// top-level field, and each top-level selection is a field whose name
/// starts with `__`.
pub open spec fn pure_introspection(op: SelectionSet) -> bool {
    &&& op.selections@.len() > 0
    &&& forall|i: int|
        0 <= i < op.selections@.len() ==> match #[trigger] op.selections@[i] {
            Selection::Field(f) => f.name@.len() >= 2 && f.name@[0] == '_' && f.name@[1] == '_',
            _ => false,
        }
}

pub fn is_pure_introspection(op: &SelectionSet) -> (r: bool)
    ensures
        r == pure_introspection(*op),
{
    if op.selections.len() == 0 {
        return false;
    }
    let mut i: usize = 0;
    while i < op.selections.len()
        invariant
            i <= op.selections@.len(),
            forall|j: int|
                0 <= j < i ==> match #[trigger] op.selections@[j] {
                    Selection::Field(f) => f.name@.len() >= 2 && f.name@[0] == '_' && f.name@[1]
                        == '_',
                    _ => false,
                },
        decreases op.selections@.len() - i,
    {
        match &op.selections[i] {
            Selection::Field(f) => {
                let n = f.name.as_str();
                if n.unicode_len() < 2 || n.get_char(0) != '_' || n.get_char(1) != '_' {
                    return false;
                }
            },
            _ => {
                return false;
            },
        }
        i += 1;
    }
    true
}

/// A response ready to be sent: its status and body.
#[derive(Debug, Clone, PartialEq, Eq)]
pub struct CachedResponse {
    pub status: u16,
    pub body: Vec<u8>,
}

/// Responses computed so far, by fingerprint. An entry, once written, is
/// never replaced.
#[derive(Debug)]
pub struct ResponseCache {
    entries: HashMap<u64, (u16, Vec<u8>)>,
}

/// The cache after offering `v` under `k`: kept as it was when `k` has an
/// entry.
pub open spec fn stored(m: Map<u64, (u16, Seq<u8>)>, k: u64, v: (u16, Seq<u8>)) -> Map<
    u64,
    (u16, Seq<u8>),
> {
    if m.contains_key(k) {
        m
    } else {
        m.insert(k, v)
    }
}

impl ResponseCache {
    pub closed spec fn view(&self) -> Map<u64, (u16, Seq<u8>)> {
        self.entries@.map_values(|e: (u16, Vec<u8>)| (e.0, e.1@))
    }

    pub fn new() -> (r: ResponseCache)
        ensures
            r.view() == Map::<u64, (u16, Seq<u8>)>::empty(),
    {
        let r = ResponseCache { entries: HashMap::new() };
        assert(r.view() =~= Map::<u64, (u16, Seq<u8>)>::empty());
        r
    }

    /// The response stored under `k`, if any.
    pub fn get(&self, k: u64) -> (r: Option<CachedResponse>)
        ensures
            match r {
                Some(c) => self.view().contains_key(k) && self.view()[k] == (c.status, c.body@),
                None => !self.view().contains_key(k),
            },
    {
        match self.entries.get(&k) {
            Some(e) => {
                let body = e.1.clone();
                assert(body@ =~= e.1@);
                Some(CachedResponse { status: e.0, body })
            },
            None => None,
        }
    }

    /// Stores `c` under `k` unless `k` already has an entry, and returns the
    /// entry that `k` has afterwards.
    pub fn insert_if_absent(&mut self, k: u64, c: CachedResponse) -> (r: CachedResponse)
        ensures
            final(self).view() == stored(old(self).view(), k, (c.status, c.body@)),
            final(self).view()[k] == (r.status, r.body@),
    {
        match self.get(k) {
            Some(existing) => existing,
            None => {
                let body = c.body.clone();
                assert(body@ =~= c.body@);
                self.entries.insert(k, (c.status, body));
                proof {
                    assert(self.view() =~= stored(old(self).view(), k, (c.status, c.body@)));
                }
                c
            },
        }
    }
}

/// With caching on, a fingerprint keeps the first response stored under it:
/// offering any later response leaves what a lookup returns unchanged.
pub proof fn law_cached_response_stable(
    m: Map<u64, (u16, Seq<u8>)>,
    k: u64,
    first: (u16, Seq<u8>),
    later: (u16, Seq<u8>),
)
    ensures
        stored(stored(m, k, first), k, later)[k] == stored(m, k, first)[k],
        !m.contains_key(k) ==> stored(m, k, first)[k] == first,
{
}

/// The `n` low bytes of `x`, least significant first.
pub open spec fn le_bytes(x: nat, n: nat) -> Seq<u8>
    decreases n,
{
    if n == 0 {
        Seq::empty()
    } else {
        seq![(x % 256) as u8] + le_bytes(x / 256, (n - 1) as nat)
    }
}

fn u64_le_bytes(x: u64) -> (r: Vec<u8>)
    ensures
        r@ == le_bytes(x as nat, 8),
{
    let mut r: Vec<u8> = Vec::new();
    let mut v: u64 = x;
    let mut i: usize = 0;
    while i < 8
        invariant
            i <= 8,
            r@ + le_bytes(v as nat, (8 - i) as nat) == le_bytes(x as nat, 8),
        decreases 8 - i,
    {
        let ghost r0 = r@;
        r.push((v % 256) as u8);
        proof {
            assert(le_bytes(v as nat, (8 - i) as nat) == seq![(v % 256) as u8] + le_bytes(
                (v / 256) as nat,
                (8 - i - 1) as nat,
            ));
            assert(r@ + le_bytes((v / 256) as nat, (8 - (i + 1)) as nat) =~= r0 + le_bytes(
                v as nat,
                (8 - i) as nat,
            ));
        }
        v = v / 256;
        i += 1;
    }
    assert(le_bytes(v as nat, 0) =~= Seq::<u8>::empty());
    assert(r@ + Seq::<u8>::empty() =~= r@);
    r
}

/// One hasher write of the 8 low-endian bytes of `x`.
pub open spec fn w(x: nat) -> Seq<u8> {
    le_bytes(x, 8)
}

/// A text as hasher writes: its length, then each character's code.
pub open spec fn text_writes(s: Seq<char>) -> Seq<Seq<u8>> {
    seq![w(s.len())] + Seq::new(s.len(), |i: int| w(s[i] as u32 as nat))
}

/// An `i32` shifted to be non-negative.
pub open spec fn shifted(v: i32) -> nat {
    (v as int + 0x8000_0000) as nat
}

pub open spec fn generator_writes(g: ScalarGenerator) -> Seq<Seq<u8>> {
    match g {
        ScalarGenerator::Bool => seq![w(0)],
        ScalarGenerator::Float { min_bits, max_bits } => seq![w(1), w(min_bits as nat), w(max_bits as nat)],
        ScalarGenerator::Int { min, max } => seq![w(2), w(shifted(min)), w(shifted(max))],
        ScalarGenerator::String { min_len, max_len } => seq![w(3), w(min_len as nat), w(max_len as nat)],
    }
}

pub open spec fn ratio_writes(r: Option<Ratio>) -> Seq<Seq<u8>> {
    match r {
        Some(x) => seq![w(1), w(x.0 as nat), w(x.1 as nat)],
        None => seq![w(0)],
    }
}

pub open spec fn scalar_writes(s: Seq<(String, ScalarGenerator)>) -> Seq<Seq<u8>>
    decreases s.len(),
{
    if s.len() == 0 {
        Seq::empty()
    } else {
        scalar_writes(s.drop_last()) + text_writes(s.last().0@) + generator_writes(s.last().1)
    }
}

pub open spec fn header_ratio_writes(s: Seq<(String, Ratio)>) -> Seq<Seq<u8>>
    decreases s.len(),
{
    if s.len() == 0 {
        Seq::empty()
    } else {
        header_ratio_writes(s.drop_last()) + text_writes(s.last().0@) + ratio_writes(Some(s.last().1))
    }
}

/// A response-generation configuration as hasher writes: every field, in
/// order, so that two configurations that differ are written differently.
pub open spec fn config_writes(c: ResponseGenerationConfig) -> Seq<Seq<u8>> {
    seq![w(c.scalars@.len() as nat)] + scalar_writes(c.scalars@) + seq![
        w(c.array.min_length as nat),
        w(c.array.max_length as nat),
    ] + ratio_writes(c.null_ratio) + seq![w(c.header_ratio@.len() as nat)] + header_ratio_writes(
        c.header_ratio@,
    ) + ratio_writes(c.http_error_ratio) + ratio_writes(c.graphql_errors.request_error_ratio)
        + ratio_writes(c.graphql_errors.field_error_ratio)
}

fn write_u64(h: &mut DefaultHasher, x: u64)
    ensures
        final(h)@ == old(h)@.push(w(x as nat)),
{
    let b = u64_le_bytes(x);
    h.write(b.as_slice());
}

fn write_text(h: &mut DefaultHasher, s: &String)
    ensures
        final(h)@ == old(h)@ + text_writes(s@),
{
    let ghost h0 = h@;
    let t = s.as_str();
    let n = t.unicode_len();
    write_u64(h, n as u64);
    let mut i: usize = 0;
    while i < n
        invariant
            i <= n,
            n == s@.len(),
            t@ == s@,
            h@ == h0 + seq![w(s@.len())] + Seq::new(i as nat, |j: int| w(s@[j] as u32 as nat)),
        decreases n - i,
    {
        let c = t.get_char(i);
        let ghost h1 = h@;
        write_u64(h, c as u32 as u64);
        assert(h@ =~= h0 + seq![w(s@.len())] + Seq::new((i + 1) as nat, |j: int| w(s@[j] as u32 as nat)));
        i += 1;
    }
    assert(h0 + seq![w(s@.len())] + Seq::new(n as nat, |j: int| w(s@[j] as u32 as nat)) =~= h0 + text_writes(s@));
}

fn write_ratio(h: &mut DefaultHasher, r: Option<Ratio>)
    ensures
        final(h)@ == old(h)@ + ratio_writes(r),
{
    let ghost h0 = h@;
    match r {
        Some(x) => {
            write_u64(h, 1);
            write_u64(h, x.0 as u64);
            write_u64(h, x.1 as u64);
        },
        None => {
            write_u64(h, 0);
        },
    }
    assert(h@ =~= h0 + ratio_writes(r));
}

fn write_generator(h: &mut DefaultHasher, g: ScalarGenerator)
    ensures
        final(h)@ == old(h)@ + generator_writes(g),
{
    let ghost h0 = h@;
    match g {
        ScalarGenerator::Bool => {
            write_u64(h, 0);
        },
        ScalarGenerator::Float { min_bits, max_bits } => {
            write_u64(h, 1);
            write_u64(h, min_bits);
            write_u64(h, max_bits);
        },
        ScalarGenerator::Int { min, max } => {
            write_u64(h, 2);
            write_u64(h, (min as i64 + 0x8000_0000) as u64);
            write_u64(h, (max as i64 + 0x8000_0000) as u64);
        },
        ScalarGenerator::String { min_len, max_len } => {
            write_u64(h, 3);
            write_u64(h, min_len as u64);
            write_u64(h, max_len as u64);
        },
    }
    assert(h@ =~= h0 + generator_writes(g));
}

fn write_scalars(h: &mut DefaultHasher, sc: &Vec<(String, ScalarGenerator)>)
    ensures
        final(h)@ == old(h)@ + scalar_writes(sc@),
{
    let ghost h1 = h@;
    let mut i: usize = 0;
    assert(sc@.subrange(0, 0) =~= Seq::<(String, ScalarGenerator)>::empty());
    assert(h1 + scalar_writes(sc@.subrange(0, 0)) =~= h1);
    while i < sc.len()
        invariant
            i <= sc@.len(),
            h@ == h1 + scalar_writes(sc@.subrange(0, i as int)),
        decreases sc@.len() - i,
    {
        write_text(h, &sc[i].0);
        write_generator(h, sc[i].1);
        proof {
            let sub = sc@.subrange(0, i + 1);
            assert(sub.drop_last() =~= sc@.subrange(0, i as int));
            assert(h@ =~= h1 + scalar_writes(sub));
        }
        i += 1;
    }
    assert(sc@.subrange(0, sc@.len() as int) =~= sc@);
}

fn write_header_ratios(h: &mut DefaultHasher, hr: &Vec<(String, Ratio)>)
    ensures
        final(h)@ == old(h)@ + header_ratio_writes(hr@),
{
    let ghost h2 = h@;
    let mut k: usize = 0;
    assert(hr@.subrange(0, 0) =~= Seq::<(String, Ratio)>::empty());
    assert(h2 + header_ratio_writes(hr@.subrange(0, 0)) =~= h2);
    while k < hr.len()
        invariant
            k <= hr@.len(),
            h@ == h2 + header_ratio_writes(hr@.subrange(0, k as int)),
        decreases hr@.len() - k,
    {
        write_text(h, &hr[k].0);
        write_ratio(h, Some(hr[k].1));
        proof {
            let sub = hr@.subrange(0, k + 1);
            assert(sub.drop_last() =~= hr@.subrange(0, k as int));
            assert(h@ =~= h2 + header_ratio_writes(sub));
        }
        k += 1;
    }
    assert(hr@.subrange(0, hr@.len() as int) =~= hr@);
}

fn write_config(h: &mut DefaultHasher, c: &ResponseGenerationConfig)
    ensures
        final(h)@ == old(h)@ + config_writes(*c),
{
    let ghost h0 = h@;
    write_u64(h, c.scalars.len() as u64);
    write_scalars(h, &c.scalars);
    write_u64(h, c.array.min_length as u64);
    write_u64(h, c.array.max_length as u64);
    let ghost h3 = h@;
    assert(h3 =~= h0 + seq![w(c.scalars@.len() as nat)] + scalar_writes(c.scalars@) + seq![
        w(c.array.min_length as nat),
        w(c.array.max_length as nat),
    ]);
    write_ratio(h, c.null_ratio);
    write_u64(h, c.header_ratio.len() as u64);
    write_header_ratios(h, &c.header_ratio);
    let ghost h4 = h@;
    assert(h4 =~= h3 + ratio_writes(c.null_ratio) + seq![w(c.header_ratio@.len() as nat)]
        + header_ratio_writes(c.header_ratio@));
    write_ratio(h, c.http_error_ratio);
    write_ratio(h, c.graphql_errors.request_error_ratio);
    write_ratio(h, c.graphql_errors.field_error_ratio);
    assert(h@ =~= h4 + ratio_writes(c.http_error_ratio) + ratio_writes(c.graphql_errors.request_error_ratio)
        + ratio_writes(c.graphql_errors.field_error_ratio));
    assert(h@ =~= h0 + config_writes(*c));
}

/// What the response-cache fingerprint hashes: the query text, the schema
/// identity, the effective response-generation configuration, and the
/// subgraph name when the subgraph has its own response generation.
pub open spec fn fingerprint_input(
    query: Seq<u8>,
    schema_identity: u64,
    cfg: ResponseGenerationConfig,
    subgraph: Option<Seq<u8>>,
) -> Seq<Seq<u8>> {
    let base = seq![query, le_bytes(schema_identity as nat, 8)] + config_writes(cfg);
    match subgraph {
        Some(name) => base.push(name),
        None => base,
    }
}

/// The response-cache key of a request: equal inputs give equal keys; the
/// schema identity changes with each reload, so responses to an older schema
/// are shadowed.
pub fn fingerprint(
    query: &str,
    schema_identity: u64,
    cfg: &ResponseGenerationConfig,
    own_subgraph: Option<&str>,
) -> (r: u64)
    ensures
        r == DefaultHasher::spec_finish(
            fingerprint_input(
                query.spec_bytes(),
                schema_identity,
                *cfg,
                match own_subgraph {
                    Some(n) => Some(n.spec_bytes()),
                    None => None,
                },
            ),
        ),
{
    let mut hasher = DefaultHasher::new();
    hasher.write(query.as_bytes());
    let id = u64_le_bytes(schema_identity);
    hasher.write(id.as_slice());
    write_config(&mut hasher, cfg);
    if let Some(name) = own_subgraph {
        hasher.write(name.as_bytes());
    }
    proof {
        let subgraph = match own_subgraph {
            Some(n) => Some(n.spec_bytes()),
            None => None,
        };
        assert(hasher@ =~= fingerprint_input(query.spec_bytes(), schema_identity, *cfg, subgraph));
    }
    hasher.finish()
}

/// The kind of a GraphQL operation.
#[derive(Debug, Clone, Copy, PartialEq, Eq, Structural)]
pub enum OperationKind {
    Query,
    Mutation,
    Subscription,
}

/// How a request's operation is answered.
#[derive(Debug, Clone, Copy, PartialEq, Eq, Structural)]
pub enum OperationPlan {
    /// The requested operation is not in the document: `{"data": null}`.
    NullData,
    /// Mutations and subscriptions are not mocked: HTTP 500.
    NotImplemented,
    /// Only introspection is asked for: answer from the schema itself.
    Introspect,
    /// Synthesize a response.
    Synthesize,
}

/// Decides how to answer the requested operation, if the document has it.
pub fn plan_operation(op: Option<(OperationKind, &SelectionSet)>) -> (r: OperationPlan)
    ensures
        r == match op {
            None => OperationPlan::NullData,
            Some((kind, sel)) => if kind != OperationKind::Query {
                OperationPlan::NotImplemented
            } else if pure_introspection(*sel) {
                OperationPlan::Introspect
            } else {
                OperationPlan::Synthesize
            },
        },
{
    match op {
        None => OperationPlan::NullData,
        Some((kind, sel)) => {
            if kind != OperationKind::Query {
                OperationPlan::NotImplemented
            } else if is_pure_introspection(sel) {
                OperationPlan::Introspect
            } else {
                OperationPlan::Synthesize
            }
        },
    }
}

/// The first decisions on a routed GraphQL request.
#[derive(Debug, Clone, Copy, PartialEq, Eq)]
pub struct RequestPlan {
    /// A simulated server error to answer with, empty-bodied; when present,
    /// nothing else is done.
    pub http_error: Option<u16>,
    /// The cache key to look up and store under, when caching is on.
    pub cache_key: Option<u64>,
}

impl Config {
    /// Plans a request to `subgraph` (the base when `None`) for `query`
    /// against the schema with identity `schema_identity`: first the HTTP
    /// error draw on the effective response generation, then, unless it hit,
    /// the caching choice and the cache key.
    pub fn plan_request(&self, subgraph: Option<&String>, query: &str, schema_identity: u64) -> (r:
        RequestPlan)
        requires
            self.wf(),
        ensures
            ({
                let (cfg, own) = match subgraph {
                    Some(name) => match lookup(self.subgraph_overrides.response_generation@, name@) {
                        Some(c) => (c, true),
                        None => (self.response_generation, false),
                    },
                    None => (self.response_generation, false),
                };
                &&& (r.http_error matches Some(st) ==> cfg.http_error_ratio is Some && 500 <= st <= 504
                    && r.cache_key is None)
                &&& (cfg.http_error_ratio is None ==> r.http_error is None)
                &&& ((cfg.http_error_ratio matches Some(x) && x.0 == 0) ==> r.http_error is None)
                &&& ((cfg.http_error_ratio matches Some(x) && x.0 == x.1) ==> r.http_error is Some)
                &&& (r.http_error is None ==> r.cache_key == if self.cache_responses_spec(subgraph) {
                    Some(
                        DefaultHasher::spec_finish(
                            fingerprint_input(
                                query.spec_bytes(),
                                schema_identity,
                                cfg,
                                if own {
                                    Some(vstd::utf8::encode_utf8(subgraph.unwrap()@))
                                } else {
                                    None
                                },
                            ),
                        ),
                    )
                } else {
                    None
                })
            }),
    {
        let (cfg, own) = self.response_generation_for(subgraph);
        proof {
            if let Some(name) = subgraph {
                if let Some(c) = lookup(self.subgraph_overrides.response_generation@, name@) {
                    crate::entries::lemma_lookup_some(self.subgraph_overrides.response_generation@, name@);
                }
            }
        }
        if let Some(status) = http_error_status(cfg) {
            return RequestPlan { http_error: Some(status), cache_key: None };
        }
        if !self.cache_responses_for(subgraph) {
            return RequestPlan { http_error: None, cache_key: None };
        }
        let own_name: Option<&str> = if own {
            match subgraph {
                Some(n) => Some(n.as_str()),
                None => None,
            }
        } else {
            None
        };
        RequestPlan { http_error: None, cache_key: Some(fingerprint(query, schema_identity, cfg, own_name)) }
    }

    /// Whether responses to `subgraph` are cached, as `cache_responses_for`
    /// answers.
    pub open spec fn cache_responses_spec(&self, subgraph: Option<&String>) -> bool {
        match subgraph {
            Some(name) => match lookup(self.subgraph_overrides.cache_responses@, name@) {
                Some(b) => b,
                None => self.cache_responses,
            },
            None => self.cache_responses,
        }
    }
}

} // verus!
