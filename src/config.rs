//! The response-generation settings and the server configuration, with the
//! defaults and the validation that loading a configuration applies.
use crate::entries::{
    entries_view, find_index, get_copied, lemma_lookup_push, lemma_lookup_view, lookup, lookup_view,
};
use crate::latency::{LatencyConfig, LatencyGenerator};
use vstd::prelude::*;
use vstd::string::StringExecFns;

verus! {

/// A probability written as `(numerator, denominator)`.
pub type Ratio = (u32, u32);

/// A usable probability: a positive denominator, and at most one.
pub open spec fn ratio_ok(r: Ratio) -> bool {
    0 < r.1 && r.0 <= r.1
}

pub open spec fn opt_ratio_ok(r: Option<Ratio>) -> bool {
    match r {
        Some(x) => ratio_ok(x),
        None => true,
    }
}

/// How the value of a custom or built-in scalar is drawn. Float bounds are
/// held as the IEEE-754 bit patterns of their `f64` values.
#[derive(Debug, Clone, Copy, PartialEq, Eq)]
pub enum ScalarGenerator {
    Bool,
    Float { min_bits: u64, max_bits: u64 },
    Int { min: i32, max: i32 },
    String { min_len: usize, max_len: usize },
}

/// Bit pattern of the `f64` value `-1.0`.
pub const MINUS_ONE_F64_BITS: u64 = 0xBFF0_0000_0000_0000;

/// Bit pattern of the `f64` value `1.0`.
pub const ONE_F64_BITS: u64 = 0x3FF0_0000_0000_0000;

impl ScalarGenerator {
    /// Integer and string generators need a non-empty range.
    pub open spec fn wf(&self) -> bool {
        match *self {
            ScalarGenerator::Int { min, max } => min <= max,
            ScalarGenerator::String { min_len, max_len } => min_len <= max_len,
            _ => true,
        }
    }

    /// The generator for a scalar that has none configured: strings of 1 to 10
    /// characters.
    pub fn fallback() -> (r: ScalarGenerator)
        ensures
            r == (ScalarGenerator::String { min_len: 1, max_len: 10 }),
    {
        ScalarGenerator::String { min_len: 1, max_len: 10 }
    }
}

impl Default for ScalarGenerator {
    fn default() -> (r: ScalarGenerator)
        ensures
            r == (ScalarGenerator::String { min_len: 1, max_len: 10 }),
    {
        ScalarGenerator::fallback()
    }
}

/// The inclusive range of lengths of generated lists.
#[derive(Debug, Clone, Copy, PartialEq, Eq)]
pub struct ArraySize {
    pub min_length: usize,
    pub max_length: usize,
}

impl ArraySize {
    pub fn range(&self) -> (r: core::ops::RangeInclusive<usize>)
        ensures
            r@.start == self.min_length,
            r@.end == self.max_length,
            !r@.exhausted,
    {
        core::ops::RangeInclusive::new(self.min_length, self.max_length)
    }
}

/// Probabilities of simulated GraphQL errors.
#[derive(Debug, Clone, Copy, PartialEq, Eq)]
pub struct GraphQLErrorConfig {
    /// Share of requests answered with a request error and no data.
    pub request_error_ratio: Option<Ratio>,
    /// Share of the remaining requests that lose some top-level fields, each
    /// reported as a field error.
    pub field_error_ratio: Option<Ratio>,
}

impl Default for GraphQLErrorConfig {
    fn default() -> (r: GraphQLErrorConfig)
        ensures
            r.request_error_ratio is None,
            r.field_error_ratio is None,
    {
        GraphQLErrorConfig { request_error_ratio: None, field_error_ratio: None }
    }
}

/// Everything that shapes a synthesized response.
#[derive(Debug, Clone)]
pub struct ResponseGenerationConfig {
    pub scalars: Vec<(String, ScalarGenerator)>,
    pub array: ArraySize,
    pub null_ratio: Option<Ratio>,
    pub header_ratio: Vec<(String, Ratio)>,
    pub http_error_ratio: Option<Ratio>,
    pub graphql_errors: GraphQLErrorConfig,
}

/// The scalar generators that every configuration starts from.
pub open spec fn default_scalars_spec() -> Seq<(Seq<char>, ScalarGenerator)> {
    seq![
        ("Boolean"@, ScalarGenerator::Bool),
        ("Int"@, ScalarGenerator::Int { min: 0, max: 100 }),
        ("ID"@, ScalarGenerator::Int { min: 0, max: 100 }),
        ("Float"@, ScalarGenerator::Float { min_bits: MINUS_ONE_F64_BITS, max_bits: ONE_F64_BITS }),
        ("String"@, ScalarGenerator::String { min_len: 1, max_len: 10 }),
    ]
}

/// The default generator for each built-in scalar.
pub fn default_scalar_config() -> (r: Vec<(String, ScalarGenerator)>)
    ensures
        entries_view(r@) == default_scalars_spec(),
{
    let r = vec![
        (String::from_str("Boolean"), ScalarGenerator::Bool),
        (String::from_str("Int"), ScalarGenerator::Int { min: 0, max: 100 }),
        (String::from_str("ID"), ScalarGenerator::Int { min: 0, max: 100 }),
        (
            String::from_str("Float"),
            ScalarGenerator::Float { min_bits: MINUS_ONE_F64_BITS, max_bits: ONE_F64_BITS },
        ),
        (String::from_str("String"), ScalarGenerator::String { min_len: 1, max_len: 10 }),
    ];
    assert(entries_view(r@) =~= default_scalars_spec());
    r
}

/// Generated lists hold 0 to 10 items unless configured otherwise.
pub fn default_array_size() -> (r: ArraySize)
    ensures
        r == (ArraySize { min_length: 0, max_length: 10 }),
{
    ArraySize { min_length: 0, max_length: 10 }
}

/// Nullable fields are null half of the time unless configured otherwise.
pub fn default_null_ratio() -> (r: Option<Ratio>)
    ensures
        r == Some((1u32, 2u32)),
{
    Some((1, 2))
}

/// The key-wise union of two mappings in which the first one wins.
pub open spec fn overlay<V>(first: Seq<(String, V)>, second: Seq<(Seq<char>, V)>, k: Seq<char>) -> Option<V> {
    match lookup(first, k) {
        Some(v) => Some(v),
        None => lookup_view(second, k),
    }
}

impl ResponseGenerationConfig {
    /// Every probability is usable and every range non-empty.
    pub open spec fn wf(&self) -> bool {
        &&& forall|i: int| 0 <= i < self.scalars@.len() ==> (#[trigger] self.scalars@[i]).1.wf()
        &&& self.array.min_length <= self.array.max_length
        &&& opt_ratio_ok(self.null_ratio)
        &&& forall|i: int| 0 <= i < self.header_ratio@.len() ==> ratio_ok(#[trigger] self.header_ratio@[i].1)
        &&& opt_ratio_ok(self.http_error_ratio)
        &&& opt_ratio_ok(self.graphql_errors.request_error_ratio)
        &&& opt_ratio_ok(self.graphql_errors.field_error_ratio)
    }

    /// The generator used for the scalar named `name`.
    pub open spec fn generator_spec(&self, name: Seq<char>) -> ScalarGenerator {
        match lookup(self.scalars@, name) {
            Some(g) => g,
            None => ScalarGenerator::String { min_len: 1, max_len: 10 },
        }
    }

    pub fn generator_for(&self, name: &String) -> (r: ScalarGenerator)
        ensures
            r == self.generator_spec(name@),
    {
        match get_copied(&self.scalars, name) {
            Some(g) => g,
            None => ScalarGenerator::fallback(),
        }
    }

    /// Puts the default scalar generators under the configured ones: a
    /// configured scalar keeps its generator, a built-in one that is not
    /// configured gets its default.
    pub fn merge_default_scalars(&mut self)
        ensures
            forall|k: Seq<char>| #[trigger] lookup(final(self).scalars@, k) == overlay(
                old(self).scalars@,
                default_scalars_spec(),
                k,
            ),
            final(self).array == old(self).array,
            final(self).null_ratio == old(self).null_ratio,
            final(self).header_ratio@ == old(self).header_ratio@,
            final(self).http_error_ratio == old(self).http_error_ratio,
            final(self).graphql_errors == old(self).graphql_errors,
            old(self).wf() ==> final(self).wf(),
    {
        let defaults = default_scalar_config();
        let ghost provided = self.scalars@;
        let ghost dv = defaults@;
        proof {
            assert(entries_view(dv).len() == 5);
            assert forall|j: int| 0 <= j < dv.len() implies (#[trigger] dv[j]).1.wf() by {
                assert(entries_view(dv)[j].1 == dv[j].1);
                if j == 0 {
                } else if j == 1 {
                } else if j == 2 {
                } else if j == 3 {
                } else {
                }
            }
        }
        let mut i: usize = 0;
        while i < defaults.len()
            invariant
                i <= defaults@.len(),
                defaults@ == dv,
                entries_view(dv) == default_scalars_spec(),
                forall|j: int| 0 <= j < dv.len() ==> (#[trigger] dv[j]).1.wf(),
                self.scalars@.len() >= provided.len(),
                self.scalars@.subrange(0, provided.len() as int) == provided,
                forall|k: Seq<char>| #[trigger] lookup(self.scalars@, k) == overlay(
                    provided,
                    entries_view(dv.subrange(0, i as int)),
                    k,
                ),
                forall|j: int| 0 <= j < self.scalars@.len() ==> (#[trigger] self.scalars@[j]).1.wf()
                    || (j < provided.len() && self.scalars@[j] == provided[j]),
                self.array == old(self).array,
                self.null_ratio == old(self).null_ratio,
                self.header_ratio@ == old(self).header_ratio@,
                self.http_error_ratio == old(self).http_error_ratio,
                self.graphql_errors == old(self).graphql_errors,
                provided == old(self).scalars@,
            decreases defaults@.len() - i,
        {
            let name = defaults[i].0.clone();
            let present = find_index(&self.scalars, &name);
            let ghost before = self.scalars@;
            if present.is_none() {
                self.scalars.push((name, defaults[i].1));
            }
            proof {
                assert(dv.subrange(0, i as int).push(dv[i as int]) =~= dv.subrange(0, i + 1));
                assert forall|k: Seq<char>| #[trigger]
                    lookup(self.scalars@, k) == overlay(provided, entries_view(dv.subrange(0, i + 1)), k) by {
                    lemma_lookup_push(dv.subrange(0, i as int), dv[i as int], k);
                    lemma_lookup_view(dv.subrange(0, i as int), k);
                    lemma_lookup_view(dv.subrange(0, i + 1), k);
                    if present is None {
                        lemma_lookup_push(before, (name, defaults@[i as int].1), k);
                    }
                    if present is Some && k == dv[i as int].0@ {
                        // the key was already present: either configured or
                        // added from an earlier default
                        assert(lookup(before, k) is Some);
                    }
                }
                assert(self.scalars@.subrange(0, provided.len() as int) =~= provided) by {
                    if present is None {
                        assert(before.push((name, defaults@[i as int].1)).subrange(0, provided.len() as int)
                            =~= before.subrange(0, provided.len() as int));
                    }
                }
            }
            i += 1;
        }
        proof {
            assert(dv.subrange(0, dv.len() as int) =~= dv);
            assert(entries_view(dv.subrange(0, 0)) =~= Seq::empty());
            if old(self).wf() {
                assert forall|j: int| 0 <= j < self.scalars@.len() implies (
                #[trigger] self.scalars@[j]).1.wf() by {
                    if j < provided.len() && self.scalars@[j] == provided[j] {
                        assert(old(self).scalars@[j].1.wf());
                    }
                }
            }
        }
    }
}

impl ResponseGenerationConfig {
    /// Tells whether every probability is usable and every range non-empty.
    pub fn check(&self) -> (r: bool)
        ensures
            r == self.wf(),
    {
        let mut i: usize = 0;
        while i < self.scalars.len()
            invariant
                i <= self.scalars@.len(),
                forall|j: int| 0 <= j < i ==> (#[trigger] self.scalars@[j]).1.wf(),
            decreases self.scalars@.len() - i,
        {
            let ok = match self.scalars[i].1 {
                ScalarGenerator::Int { min, max } => min <= max,
                ScalarGenerator::String { min_len, max_len } => min_len <= max_len,
                _ => true,
            };
            if !ok {
                return false;
            }
            i += 1;
        }
        let mut h: usize = 0;
        while h < self.header_ratio.len()
            invariant
                h <= self.header_ratio@.len(),
                forall|j: int| 0 <= j < h ==> ratio_ok(#[trigger] self.header_ratio@[j].1),
            decreases self.header_ratio@.len() - h,
        {
            if !check_ratio(self.header_ratio[h].1) {
                return false;
            }
            h += 1;
        }
        self.array.min_length <= self.array.max_length && check_opt_ratio(self.null_ratio)
            && check_opt_ratio(self.http_error_ratio) && check_opt_ratio(
            self.graphql_errors.request_error_ratio,
        ) && check_opt_ratio(self.graphql_errors.field_error_ratio)
    }

    /// The configuration used when none is given: the default scalars, lists
    /// of 0 to 10 items, nullable fields null half of the time, no headers
    /// filtered and no simulated errors.
    pub fn default_config() -> (r: ResponseGenerationConfig)
        ensures
            entries_view(r.scalars@) == default_scalars_spec(),
            r.array == (ArraySize { min_length: 0, max_length: 10 }),
            r.null_ratio == Some((1u32, 2u32)),
            r.header_ratio@.len() == 0,
            r.http_error_ratio is None,
            r.graphql_errors.request_error_ratio is None,
            r.graphql_errors.field_error_ratio is None,
            r.wf(),
    {
        let r = ResponseGenerationConfig {
            scalars: default_scalar_config(),
            array: default_array_size(),
            null_ratio: default_null_ratio(),
            header_ratio: Vec::new(),
            http_error_ratio: None,
            graphql_errors: GraphQLErrorConfig::default(),
        };
        proof {
            assert(entries_view(r.scalars@).len() == 5);
            assert forall|j: int| 0 <= j < r.scalars@.len() implies (#[trigger] r.scalars@[j]).1.wf() by {
                assert(entries_view(r.scalars@)[j].1 == r.scalars@[j].1);
                if j == 0 {
                } else if j == 1 {
                } else if j == 2 {
                } else if j == 3 {
                } else {
                }
            }
        }
        r
    }
}

pub fn check_ratio(r: Ratio) -> (b: bool)
    ensures
        b == ratio_ok(r),
{
    0 < r.1 && r.0 <= r.1
}

pub fn check_opt_ratio(r: Option<Ratio>) -> (b: bool)
    ensures
        b == opt_ratio_ok(r),
{
    match r {
        Some(x) => check_ratio(x),
        None => true,
    }
}

/// A character that may stand in an HTTP header name (an RFC 9110 token
/// character).
pub open spec fn header_token_char(c: char) -> bool {
    let u = c as u32;
    (97 <= u <= 122) || (65 <= u <= 90) || (48 <= u <= 57) || c == '!' || c == '#' || c == '$'
        || c == '%' || c == '&' || c == '\'' || c == '*' || c == '+' || c == '-' || c == '.' || c
        == '^' || c == '_' || c == '`' || c == '|' || c == '~'
}

/// The lower-case form of an ASCII character.
pub open spec fn lower_char(c: char) -> char {
    if 65 <= c as u32 <= 90 {
        ((c as u32) + 32) as char
    } else {
        c
    }
}

/// What a header name becomes once accepted: its lower-case form, when it
/// has 1 to 65535 characters, each a token character; `None` otherwise.
pub open spec fn header_name_of(s: Seq<char>) -> Option<Seq<char>> {
    if 1 <= s.len() <= 65535 && forall|i: int| 0 <= i < s.len() ==> header_token_char(#[trigger] s[i]) {
        Some(s.map_values(|c: char| lower_char(c)))
    } else {
        None
    }
}

/// Relies on `hyper::header::HeaderName::try_from(&String)` (`from_bytes`):
/// it accepts a name of 1 to 65535 bytes that are all token characters, and
/// stores it in lower case. Token characters are ASCII, so bytes and
/// characters coincide on accepted names.
#[verifier::external_body]
fn parse_header_name(s: &String) -> (r: Option<String>)
    ensures
        match r {
            Some(n) => header_name_of(s@) == Some(n@),
            None => header_name_of(s@) is None,
        },
{
    hyper::header::HeaderName::try_from(s).ok().map(|n| n.as_str().to_string())
}

/// A character that may stand in an HTTP header value: a tab, or anything
/// from the space on but DEL (non-ASCII characters are encoded as bytes of
/// 128 and above, which are allowed).
pub open spec fn header_value_char_ok(c: char) -> bool {
    c == '\t' || (c as u32 >= 32 && c as u32 != 127)
}

pub open spec fn header_value_ok(s: Seq<char>) -> bool {
    forall|i: int| 0 <= i < s.len() ==> header_value_char_ok(#[trigger] s[i])
}

/// Relies on `hyper::header::HeaderValue::try_from(&String)`, which accepts a
/// value exactly when each of its bytes is a tab, or at least 32 and not 127.
#[verifier::external_body]
fn header_value_valid(s: &String) -> (r: bool)
    ensures
        r == header_value_ok(s@),
{
    hyper::header::HeaderValue::try_from(s).is_ok()
}

/// Why a configuration was refused.
#[derive(Debug, Clone, PartialEq, Eq)]
pub enum ConfigError {
    /// The document root, or the overrides section, is not a mapping.
    NotAMapping,
    /// One subgraph's override is not a mapping.
    OverrideNotAMapping,
    InvalidHeaderName(String),
    InvalidHeaderValue(String),
    /// A probability with a zero denominator or above one, or an empty range.
    InvalidResponseGeneration,
    /// The document could not be read into a configuration.
    Malformed(String),
}

impl ConfigError {
    pub fn message(&self) -> String {
        match self {
            ConfigError::NotAMapping => String::from_str("config file must be a mapping"),
            ConfigError::OverrideNotAMapping => String::from_str(
                "subgraph override must be a mapping",
            ),
            ConfigError::InvalidHeaderName(n) => String::from_str("invalid header name: ").concat(
                n.as_str(),
            ),
            ConfigError::InvalidHeaderValue(v) => String::from_str("invalid header value: ").concat(
                v.as_str(),
            ),
            ConfigError::InvalidResponseGeneration => String::from_str(
                "invalid response generation: every ratio needs 0 < denominator and numerator <= denominator, every range min <= max",
            ),
            ConfigError::Malformed(m) => m.clone(),
        }
    }
}

/// Every name is a valid header name and every value a valid header value.
pub open spec fn headers_ok(h: Seq<(String, String)>) -> bool {
    forall|i: int|
        0 <= i < h.len() ==> header_name_of((#[trigger] h[i]).0@) is Some && header_value_ok(
            h[i].1@,
        )
}

/// `out` is `h` with each name in its normal form.
pub open spec fn headers_normalized(h: Seq<(String, String)>, out: Seq<(String, String)>) -> bool {
    &&& out.len() == h.len()
    &&& forall|i: int|
        0 <= i < h.len() ==> header_name_of((#[trigger] h[i]).0@) == Some(out[i].0@) && out[i].1@
            == h[i].1@
}

/// Validates configured headers and puts their names in normal form.
pub fn normalize_headers(h: Vec<(String, String)>) -> (r: Result<Vec<(String, String)>, ConfigError>)
    ensures
        r is Ok <==> headers_ok(h@),
        match r {
            Ok(out) => headers_normalized(h@, out@),
            Err(e) => e is InvalidHeaderName || e is InvalidHeaderValue,
        },
{
    let mut out: Vec<(String, String)> = Vec::new();
    let mut i: usize = 0;
    while i < h.len()
        invariant
            i <= h@.len(),
            headers_ok(h@.subrange(0, i as int)),
            headers_normalized(h@.subrange(0, i as int), out@),
        decreases h@.len() - i,
    {
        let name = match parse_header_name(&h[i].0) {
            Some(n) => n,
            None => {
                return Err(ConfigError::InvalidHeaderName(h[i].0.clone()));
            },
        };
        if !header_value_valid(&h[i].1) {
            return Err(ConfigError::InvalidHeaderValue(h[i].1.clone()));
        }
        out.push((name, h[i].1.clone()));
        proof {
            let p = h@.subrange(0, i + 1);
            assert forall|j: int| 0 <= j < p.len() implies header_name_of((#[trigger] p[j]).0@) is Some
                && header_value_ok(p[j].1@) by {
                if j < i {
                    assert(p[j] == h@.subrange(0, i as int)[j]);
                }
            }
            assert forall|j: int| 0 <= j < p.len() implies header_name_of((#[trigger] p[j]).0@)
                == Some(out@[j].0@) && out@[j].1@ == p[j].1@ by {
                if j < i {
                    assert(p[j] == h@.subrange(0, i as int)[j]);
                }
            }
        }
        i += 1;
    }
    assert(h@.subrange(0, h@.len() as int) =~= h@);
    Ok(out)
}

/// One configuration as written, before validation: the whole document, or the
/// document with one subgraph's override merged in.
#[derive(Debug, Clone)]
pub struct BaseConfig {
    pub port: u16,
    pub headers: Vec<(String, String)>,
    pub latency: LatencyConfig,
    pub response_generation: ResponseGenerationConfig,
    pub cache_responses: bool,
}

/// The port served when none is configured.
pub fn default_port() -> (r: u16)
    ensures
        r == 8080,
{
    8080
}

/// Responses are cached unless configured otherwise.
pub fn default_cache_responses() -> (r: bool)
    ensures
        r,
{
    true
}

/// The parts of one validated configuration.
pub type Parts = (u16, bool, LatencyGenerator, Vec<(String, String)>, ResponseGenerationConfig);

/// `p` is what `b` yields, with the latency profile anchored at `start_ms`.
pub open spec fn parts_of(b: BaseConfig, start_ms: u64, p: Parts) -> bool {
    &&& p.0 == b.port
    &&& p.1 == b.cache_responses
    &&& p.2.config() == b.latency
    &&& p.2.start_ms() == start_ms
    &&& headers_normalized(b.headers@, p.3@)
    &&& forall|k: Seq<char>| #[trigger] lookup(p.4.scalars@, k) == overlay(
        b.response_generation.scalars@,
        default_scalars_spec(),
        k,
    )
    &&& p.4.array == b.response_generation.array
    &&& p.4.null_ratio == b.response_generation.null_ratio
    &&& p.4.header_ratio@ == b.response_generation.header_ratio@
    &&& p.4.http_error_ratio == b.response_generation.http_error_ratio
    &&& p.4.graphql_errors == b.response_generation.graphql_errors
    &&& p.4.wf()
}

impl BaseConfig {
    /// The configuration used when no file is given.
    pub fn default_config() -> (r: BaseConfig)
        ensures
            r.port == 8080,
            r.headers@.len() == 0,
            r.latency == LatencyConfig::default_config_spec(),
            entries_view(r.response_generation.scalars@) == default_scalars_spec(),
            r.response_generation.array == (ArraySize { min_length: 0, max_length: 10 }),
            r.response_generation.null_ratio == Some((1u32, 2u32)),
            r.response_generation.header_ratio@.len() == 0,
            r.response_generation.http_error_ratio is None,
            r.response_generation.graphql_errors.request_error_ratio is None,
            r.response_generation.graphql_errors.field_error_ratio is None,
            r.cache_responses,
    {
        BaseConfig {
            port: default_port(),
            headers: Vec::new(),
            latency: LatencyConfig::default_config(),
            response_generation: ResponseGenerationConfig::default_config(),
            cache_responses: default_cache_responses(),
        }
    }

    /// Validates the configuration and splits it into what the server uses:
    /// port, caching flag, latency generator (anchored at `start_ms`), headers
    /// in normal form, and the response generation with the default scalars
    /// merged under the configured ones.
    pub fn into_parts(self, start_ms: u64) -> (r: Result<Parts, ConfigError>)
        ensures
            r is Ok <==> headers_ok(self.headers@) && self.response_generation.wf(),
            match r {
                Ok(p) => parts_of(self, start_ms, p),
                Err(e) => (e is InvalidHeaderName || e is InvalidHeaderValue) <==> !headers_ok(
                    self.headers@,
                ),
            },
    {
        let latency_generator = LatencyGenerator::new(self.latency, start_ms);
        let headers = normalize_headers(self.headers)?;
        let mut response_generation = self.response_generation;
        if !response_generation.check() {
            return Err(ConfigError::InvalidResponseGeneration);
        }
        response_generation.merge_default_scalars();
        Ok((self.port, self.cache_responses, latency_generator, headers, response_generation))
    }
}

/// Per-subgraph replacements of the base settings, keyed by subgraph name.
#[derive(Debug, Clone)]
pub struct SubgraphOverrides {
    pub headers: Vec<(String, Vec<(String, String)>)>,
    pub latency_generator: Vec<(String, LatencyGenerator)>,
    pub response_generation: Vec<(String, ResponseGenerationConfig)>,
    pub cache_responses: Vec<(String, bool)>,
}

/// The server configuration: the base settings and the per-subgraph ones.
#[derive(Debug, Clone)]
pub struct Config {
    pub headers: Vec<(String, String)>,
    pub latency_generator: LatencyGenerator,
    pub response_generation: ResponseGenerationConfig,
    pub cache_responses: bool,
    pub subgraph_overrides: SubgraphOverrides,
}

/// `o` holds, under each subgraph name in turn, the parts of that subgraph's
/// configuration.
pub open spec fn overrides_of(
    given: Seq<(String, BaseConfig)>,
    start_ms: u64,
    o: SubgraphOverrides,
) -> bool {
    &&& o.headers@.len() == given.len()
    &&& o.latency_generator@.len() == given.len()
    &&& o.response_generation@.len() == given.len()
    &&& o.cache_responses@.len() == given.len()
    &&& forall|i: int|
        0 <= i < given.len() ==> {
            &&& o.headers@[i].0@ == (#[trigger] given[i]).0@
            &&& o.latency_generator@[i].0@ == given[i].0@
            &&& o.response_generation@[i].0@ == given[i].0@
            &&& o.cache_responses@[i].0@ == given[i].0@
            &&& parts_of(
                given[i].1,
                start_ms,
                (
                    given[i].1.port,
                    o.cache_responses@[i].1,
                    o.latency_generator@[i].1,
                    o.headers@[i].1,
                    o.response_generation@[i].1,
                ),
            )
        }
}

pub open spec fn config_ok(b: BaseConfig) -> bool {
    headers_ok(b.headers@) && b.response_generation.wf()
}

impl Config {
    /// Well-formed: every response-generation configuration in it is.
    pub open spec fn wf(&self) -> bool {
        &&& self.response_generation.wf()
        &&& forall|i: int|
            0 <= i < self.subgraph_overrides.response_generation@.len() ==> (
            #[trigger] self.subgraph_overrides.response_generation@[i]).1.wf()
    }

    /// The default configuration, with its latency profile anchored at
    /// `start_ms`.
    pub fn default_at(start_ms: u64) -> (r: Config)
        ensures
            r.wf(),
            r.headers@.len() == 0,
            r.latency_generator.config() == LatencyConfig::default_config_spec(),
            r.latency_generator.start_ms() == start_ms,
            entries_view(r.response_generation.scalars@) == default_scalars_spec(),
            r.response_generation.array == (ArraySize { min_length: 0, max_length: 10 }),
            r.response_generation.null_ratio == Some((1u32, 2u32)),
            r.cache_responses,
            r.subgraph_overrides.headers@.len() == 0,
            r.subgraph_overrides.latency_generator@.len() == 0,
            r.subgraph_overrides.response_generation@.len() == 0,
            r.subgraph_overrides.cache_responses@.len() == 0,
    {
        Config {
            headers: Vec::new(),
            latency_generator: LatencyGenerator::new(LatencyConfig::default_config(), start_ms),
            response_generation: ResponseGenerationConfig::default_config(),
            cache_responses: default_cache_responses(),
            subgraph_overrides: SubgraphOverrides {
                headers: Vec::new(),
                latency_generator: Vec::new(),
                response_generation: Vec::new(),
                cache_responses: Vec::new(),
            },
        }
    }

    /// Builds the server configuration from the base configuration and, for
    /// each subgraph, its configuration with the override merged in. Only the
    /// base yields the port. Fails when any of them is invalid.
    pub fn from_parts(
        base: BaseConfig,
        overrides: Vec<(String, BaseConfig)>,
        start_ms: u64,
    ) -> (r: Result<(u16, Config), ConfigError>)
        ensures
            r is Ok <==> config_ok(base) && forall|i: int|
                0 <= i < overrides@.len() ==> config_ok(#[trigger] overrides@[i].1),
            match r {
                Ok((port, c)) => {
                    &&& port == base.port
                    &&& parts_of(
                        base,
                        start_ms,
                        (port, c.cache_responses, c.latency_generator, c.headers, c.response_generation),
                    )
                    &&& overrides_of(overrides@, start_ms, c.subgraph_overrides)
                    &&& c.wf()
                },
                Err(_) => true,
            },
    {
        let ghost given = overrides@;
        let mut o = SubgraphOverrides {
            headers: Vec::new(),
            latency_generator: Vec::new(),
            response_generation: Vec::new(),
            cache_responses: Vec::new(),
        };
        let count = overrides.len();
        let mut rest = overrides;
        let ghost n = count as nat;
        let mut i: usize = 0;
        assert(rest@ == given.subrange(0, n as int));
        assert(overrides_of(given.subrange(0, 0), start_ms, o));
        while rest.len() > 0
            invariant
                i + rest@.len() == n,
                n == given.len(),
                n == count,
                given == overrides@,
                rest@ == given.subrange(i as int, n as int),
                overrides_of(given.subrange(0, i as int), start_ms, o),
                forall|j: int| 0 <= j < i ==> config_ok(#[trigger] given[j].1),
            decreases rest@.len(),
        {
            let (name, cfg) = rest.remove(0);
            let ghost c0 = cfg;
            assert(c0 == given[i as int].1 && name == given[i as int].0);
            let parts = match cfg.into_parts(start_ms) {
                Ok(p) => p,
                Err(e) => {
                    assert(!config_ok(given[i as int].1));
                    return Err(e);
                },
            };
            let (_port, cache, lat, headers, rg) = parts;
            o.headers.push((name.clone(), headers));
            o.latency_generator.push((name.clone(), lat));
            o.response_generation.push((name.clone(), rg));
            o.cache_responses.push((name, cache));
            proof {
                let g = given.subrange(0, i + 1);
                assert forall|j: int| 0 <= j < g.len() implies {
                    &&& o.headers@[j].0@ == (#[trigger] g[j]).0@
                    &&& o.latency_generator@[j].0@ == g[j].0@
                    &&& o.response_generation@[j].0@ == g[j].0@
                    &&& o.cache_responses@[j].0@ == g[j].0@
                    &&& parts_of(
                        g[j].1,
                        start_ms,
                        (
                            g[j].1.port,
                            o.cache_responses@[j].1,
                            o.latency_generator@[j].1,
                            o.headers@[j].1,
                            o.response_generation@[j].1,
                        ),
                    )
                } by {
                    if j < i {
                        assert(g[j] == given.subrange(0, i as int)[j]);
                    }
                }
            }
            i += 1;
        }
        assert(given.subrange(0, n as int) =~= given);
        let (port, cache, lat, headers, rg) = base.into_parts(start_ms)?;
        let c = Config {
            headers,
            latency_generator: lat,
            response_generation: rg,
            cache_responses: cache,
            subgraph_overrides: o,
        };
        proof {
            assert forall|j: int| 0 <= j < c.subgraph_overrides.response_generation@.len() implies (
            #[trigger] c.subgraph_overrides.response_generation@[j]).1.wf() by {
                assert(parts_of(
                    given[j].1,
                    start_ms,
                    (
                        given[j].1.port,
                        o.cache_responses@[j].1,
                        o.latency_generator@[j].1,
                        o.headers@[j].1,
                        o.response_generation@[j].1,
                    ),
                ));
            }
        }
        Ok((port, c))
    }

    /// The response generation for a request to `subgraph` (the base when
    /// `None`), and whether it is the subgraph's own.
    pub fn response_generation_for(&self, subgraph: Option<&String>) -> (r: (
        &ResponseGenerationConfig,
        bool,
    ))
        ensures
            match subgraph {
                Some(name) => match lookup(self.subgraph_overrides.response_generation@, name@) {
                    Some(c) => *r.0 == c && r.1,
                    None => *r.0 == self.response_generation && !r.1,
                },
                None => *r.0 == self.response_generation && !r.1,
            },
    {
        if let Some(name) = subgraph {
            if let Some(i) = find_index(&self.subgraph_overrides.response_generation, name) {
                return (&self.subgraph_overrides.response_generation[i].1, true);
            }
        }
        (&self.response_generation, false)
    }

    /// Whether responses to `subgraph` (the base when `None`) are cached.
    pub fn cache_responses_for(&self, subgraph: Option<&String>) -> (r: bool)
        ensures
            r == match subgraph {
                Some(name) => match lookup(self.subgraph_overrides.cache_responses@, name@) {
                    Some(b) => b,
                    None => self.cache_responses,
                },
                None => self.cache_responses,
            },
    {
        if let Some(name) = subgraph {
            if let Some(b) = get_copied(&self.subgraph_overrides.cache_responses, name) {
                return b;
            }
        }
        self.cache_responses
    }

    /// The latency generator for `subgraph` (the base when `None`).
    pub fn latency_for(&self, subgraph: Option<&String>) -> (r: LatencyGenerator)
        ensures
            r == match subgraph {
                Some(name) => match lookup(self.subgraph_overrides.latency_generator@, name@) {
                    Some(g) => g,
                    None => self.latency_generator,
                },
                None => self.latency_generator,
            },
    {
        if let Some(name) = subgraph {
            if let Some(g) = get_copied(&self.subgraph_overrides.latency_generator, name) {
                return g;
            }
        }
        self.latency_generator
    }

    /// The headers configured for `subgraph` (the base when `None`).
    pub fn headers_for(&self, subgraph: Option<&String>) -> (r: &Vec<(String, String)>)
        ensures
            *r == match subgraph {
                Some(name) => match lookup(self.subgraph_overrides.headers@, name@) {
                    Some(h) => h,
                    None => self.headers,
                },
                None => self.headers,
            },
    {
        if let Some(name) = subgraph {
            if let Some(i) = find_index(&self.subgraph_overrides.headers, name) {
                return &self.subgraph_overrides.headers[i].1;
            }
        }
        &self.headers
    }
}

/// Where the server reads its configuration and its schema.
#[derive(Debug, Clone)]
pub struct Args {
    /// Path of the configuration file; the defaults apply without one.
    pub config: Option<String>,
    /// Path of the schema file.
    pub schema: String,
}

} // verus!
