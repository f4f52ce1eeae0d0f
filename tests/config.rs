use subgraph_mock::config::{
    default_array_size, default_cache_responses, default_null_ratio, default_port,
    default_scalar_config, ArraySize, BaseConfig, Config, ConfigError, GraphQLErrorConfig,
    ResponseGenerationConfig, ScalarGenerator, MINUS_ONE_F64_BITS, ONE_F64_BITS,
};

fn s(x: &str) -> String {
    x.to_string()
}

#[test]
fn defaults_match_documented_values() {
    assert_eq!(default_port(), 8080);
    assert!(default_cache_responses());
    assert_eq!(default_array_size(), ArraySize { min_length: 0, max_length: 10 });
    assert_eq!(default_null_ratio(), Some((1, 2)));
    assert_eq!(ArraySize { min_length: 2, max_length: 4 }.range(), 2..=4);
    let scalars = default_scalar_config();
    assert_eq!(scalars.len(), 5);
    assert_eq!(scalars[0], (s("Boolean"), ScalarGenerator::Bool));
    assert_eq!(scalars[1], (s("Int"), ScalarGenerator::Int { min: 0, max: 100 }));
    assert_eq!(scalars[2], (s("ID"), ScalarGenerator::Int { min: 0, max: 100 }));
    assert_eq!(
        scalars[3],
        (s("Float"), ScalarGenerator::Float { min_bits: MINUS_ONE_F64_BITS, max_bits: ONE_F64_BITS })
    );
    assert_eq!(f64::from_bits(MINUS_ONE_F64_BITS), -1.0);
    assert_eq!(f64::from_bits(ONE_F64_BITS), 1.0);
    assert_eq!(scalars[4], (s("String"), ScalarGenerator::String { min_len: 1, max_len: 10 }));
    assert_eq!(ScalarGenerator::default(), ScalarGenerator::String { min_len: 1, max_len: 10 });
    let e = GraphQLErrorConfig::default();
    assert_eq!(e.request_error_ratio, None);
    assert_eq!(e.field_error_ratio, None);
}

#[test]
fn merge_default_scalars_keeps_configured_generators() {
    let mut cfg = ResponseGenerationConfig::default_config();
    cfg.scalars = vec![
        (s("Int"), ScalarGenerator::Int { min: 100, max: 200 }),
        (s("Custom"), ScalarGenerator::String { min_len: 10, max_len: 20 }),
    ];
    cfg.merge_default_scalars();
    assert_eq!(cfg.generator_for(&s("Int")), ScalarGenerator::Int { min: 100, max: 200 });
    assert_eq!(cfg.generator_for(&s("Custom")), ScalarGenerator::String { min_len: 10, max_len: 20 });
    assert_eq!(cfg.generator_for(&s("ID")), ScalarGenerator::Int { min: 0, max: 100 });
    assert_eq!(cfg.generator_for(&s("Boolean")), ScalarGenerator::Bool);
    assert_eq!(cfg.generator_for(&s("Unknown")), ScalarGenerator::String { min_len: 1, max_len: 10 });
    assert_eq!(cfg.scalars.len(), 6);
}

#[test]
fn check_rejects_bad_ratios_and_ranges() {
    let mut cfg = ResponseGenerationConfig::default_config();
    assert!(cfg.check());
    cfg.null_ratio = Some((3, 2));
    assert!(!cfg.check());
    cfg.null_ratio = Some((0, 0));
    assert!(!cfg.check());
    cfg.null_ratio = None;
    assert!(cfg.check());
    cfg.array = ArraySize { min_length: 5, max_length: 4 };
    assert!(!cfg.check());
    cfg.array = ArraySize { min_length: 4, max_length: 4 };
    cfg.scalars.push((s("Bad"), ScalarGenerator::Int { min: 3, max: 1 }));
    assert!(!cfg.check());
}

#[test]
fn into_parts_normalizes_header_names() {
    let mut base = BaseConfig::default_config();
    base.headers = vec![(s("Test-Header"), s("some value"))];
    let (port, cache, lat, headers, rg) = base.into_parts(7).unwrap();
    assert_eq!(port, 8080);
    assert!(cache);
    assert_eq!(lat.start(), 7);
    assert_eq!(headers, vec![(s("test-header"), s("some value"))]);
    assert_eq!(rg.generator_for(&s("Float")), ScalarGenerator::Float { min_bits: MINUS_ONE_F64_BITS, max_bits: ONE_F64_BITS });
}

#[test]
fn into_parts_rejects_invalid_header_name() {
    let mut base = BaseConfig::default_config();
    base.headers = vec![(s("bad header"), s("v"))];
    match base.into_parts(0) {
        Err(ConfigError::InvalidHeaderName(n)) => assert_eq!(n, "bad header"),
        other => panic!("unexpected {:?}", other.map(|p| p.0)),
    }
}

#[test]
fn into_parts_rejects_invalid_header_value() {
    let mut base = BaseConfig::default_config();
    base.headers = vec![(s("x-ok"), s("line\nbreak"))];
    match base.into_parts(0) {
        Err(ConfigError::InvalidHeaderValue(v)) => assert_eq!(v, "line\nbreak"),
        other => panic!("unexpected {:?}", other.map(|p| p.0)),
    }
    let mut base = BaseConfig::default_config();
    base.headers = vec![(s("x-ok"), s("tab\tand unicode é"))];
    assert!(base.into_parts(0).is_ok());
}

#[test]
fn into_parts_rejects_invalid_ratio() {
    let mut base = BaseConfig::default_config();
    base.response_generation.http_error_ratio = Some((2, 1));
    assert!(matches!(base.into_parts(0), Err(ConfigError::InvalidResponseGeneration)));
}

#[test]
fn subgraph_overrides() {
    let mut base = BaseConfig::default_config();
    base.port = 9001;
    base.headers = vec![(s("test-header"), s("test-header-normal-value"))];
    let mut special = BaseConfig::default_config();
    special.port = 1;
    special.cache_responses = false;
    special.headers = vec![(s("test-header"), s("test-header-overridden-value"))];
    special.response_generation.array = ArraySize { min_length: 11, max_length: 20 };
    let (port, cfg) = Config::from_parts(base, vec![(s("special_subgraph"), special)], 0).unwrap();
    assert_eq!(port, 9001);
    let name = s("special_subgraph");
    let other = s("other");
    let (rg, own) = cfg.response_generation_for(Some(&name));
    assert!(own);
    assert_eq!(rg.array, ArraySize { min_length: 11, max_length: 20 });
    let (rg, own) = cfg.response_generation_for(Some(&other));
    assert!(!own);
    assert_eq!(rg.array, ArraySize { min_length: 0, max_length: 10 });
    let (_, own) = cfg.response_generation_for(None);
    assert!(!own);
    assert!(!cfg.cache_responses_for(Some(&name)));
    assert!(cfg.cache_responses_for(None));
    assert_eq!(cfg.headers_for(Some(&name))[0].1, "test-header-overridden-value");
    assert_eq!(cfg.headers_for(None)[0].1, "test-header-normal-value");
    assert_eq!(cfg.latency_for(Some(&name)).cfg().base_ms, 5);
}

#[test]
fn from_parts_fails_on_invalid_override() {
    let base = BaseConfig::default_config();
    let mut bad = BaseConfig::default_config();
    bad.headers = vec![(s("no spaces allowed"), s("x"))];
    assert!(Config::from_parts(base, vec![(s("bad"), bad)], 0).is_err());
}

#[test]
fn default_config_has_no_overrides() {
    let cfg = Config::default_at(3);
    assert!(cfg.cache_responses);
    assert!(cfg.headers.is_empty());
    assert_eq!(cfg.latency_generator.start(), 3);
    assert!(cfg.subgraph_overrides.response_generation.is_empty());
}

#[test]
fn config_error_messages() {
    assert_eq!(ConfigError::NotAMapping.message(), "config file must be a mapping");
    assert_eq!(ConfigError::OverrideNotAMapping.message(), "subgraph override must be a mapping");
    assert_eq!(ConfigError::InvalidHeaderName(s("a b")).message(), "invalid header name: a b");
}

#[test]
fn header_names_need_token_characters() {
    let mut base = BaseConfig::default_config();
    base.headers = vec![(s("X-Custom_Name!"), s("v"))];
    let (_, _, _, headers, _) = base.into_parts(0).unwrap();
    assert_eq!(headers[0].0, "x-custom_name!");
    let mut base = BaseConfig::default_config();
    base.headers = vec![(s("café"), s("v"))];
    assert!(matches!(base.into_parts(0), Err(ConfigError::InvalidHeaderName(_))));
    let mut base = BaseConfig::default_config();
    base.headers = vec![(s(""), s("v"))];
    assert!(matches!(base.into_parts(0), Err(ConfigError::InvalidHeaderName(_))));
}
