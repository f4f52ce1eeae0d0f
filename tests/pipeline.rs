use subgraph_mock::config::{BaseConfig, Config, ResponseGenerationConfig};
use subgraph_mock::model::{Field, Selection, SelectionSet, TypeRef};
use subgraph_mock::pipeline::{
    draw_header_inclusion, fingerprint, http_error_status, included_headers, plan_operation, route,
    CachedResponse, OperationKind, OperationPlan, RequestPlan, ResponseCache, Route,
};

fn s(x: &str) -> String {
    x.to_string()
}

#[test]
fn routes_by_method_and_path() {
    assert_eq!(route(true, "/"), Route::Base);
    assert_eq!(route(true, "/special"), Route::Subgraph(s("special")));
    assert_eq!(route(true, "/special/extra/parts"), Route::Subgraph(s("special")));
    assert_eq!(route(true, "//x"), Route::Subgraph(s("")));
    assert_eq!(route(false, "/"), Route::NotFound);
    assert_eq!(route(true, ""), Route::NotFound);
    assert_eq!(route(true, "special"), Route::NotFound);
}

#[test]
fn http_errors_follow_ratio() {
    let mut cfg = ResponseGenerationConfig::default_config();
    assert_eq!(http_error_status(&cfg), None);
    cfg.http_error_ratio = Some((1, 1));
    for _ in 0..50 {
        let status = http_error_status(&cfg).unwrap();
        assert!((500..=504).contains(&status));
    }
    cfg.http_error_ratio = Some((0, 3));
    assert_eq!(http_error_status(&cfg), None);
}

#[test]
fn http_error_rate_is_close_to_ratio() {
    let mut cfg = ResponseGenerationConfig::default_config();
    cfg.http_error_ratio = Some((1, 3));
    let hits = (0..12_000).filter(|_| http_error_status(&cfg).is_some()).count();
    let rate = hits as f64 / 12_000.0;
    assert!((rate - 1.0 / 3.0).abs() < 0.03, "rate {rate}");
}

#[test]
fn headers_are_drawn_per_name() {
    let headers = vec![
        (s("always"), s("1")),
        (s("never"), s("2")),
        (s("sure"), s("3")),
        (s("never"), s("4")),
        (s("sometimes-present"), s("5")),
        (s("sometimes-present"), s("6")),
    ];
    let ratios = vec![(s("never"), (0, 4)), (s("sure"), (2, 2)), (s("sometimes-present"), (1, 2))];
    for _ in 0..20 {
        let keep = draw_header_inclusion(&headers, &ratios);
        assert_eq!(keep.len(), 6);
        assert!(keep[0] && !keep[1] && keep[2] && !keep[3]);
        assert_eq!(keep[4], keep[5]);
        let out = included_headers(&headers, &keep);
        let last = out.last().unwrap();
        assert_eq!(last, &(s("content-type"), s("application/json")));
        assert_eq!(out[0], (s("always"), s("1")));
        assert_eq!(out[1], (s("sure"), s("3")));
        assert_eq!(out.len(), if keep[4] { 5 } else { 3 });
    }
}

#[test]
fn default_headers() {
    let out = included_headers(&vec![], &vec![]);
    assert_eq!(out, vec![(s("content-type"), s("application/json"))]);
}

#[test]
fn default_response_generation_caches() {
    let mut cache = ResponseCache::new();
    assert!(cache.get(4449).is_none());
    let first = CachedResponse { status: 200, body: b"{\"data\":{}}".to_vec() };
    let kept = cache.insert_if_absent(4449, first.clone());
    assert_eq!(kept, first);
    for i in 0..10u8 {
        let later = CachedResponse { status: 200, body: vec![i] };
        assert_eq!(cache.insert_if_absent(4449, later), first);
        assert_eq!(cache.get(4449), Some(first.clone()));
    }
    assert!(cache.get(1).is_none());
}

#[test]
fn fingerprint_depends_on_query_schema_config_and_subgraph() {
    let cfg = ResponseGenerationConfig::default_config();
    let mut other = ResponseGenerationConfig::default_config();
    other.array.max_length = 11;
    let a = fingerprint("{ a }", 1, &cfg, None);
    assert_eq!(a, fingerprint("{ a }", 1, &cfg, None));
    assert_ne!(a, fingerprint("{ b }", 1, &cfg, None));
    assert_ne!(a, fingerprint("{ a }", 2, &cfg, None));
    assert_ne!(a, fingerprint("{ a }", 1, &other, None));
    assert_ne!(a, fingerprint("{ a }", 1, &cfg, Some("special")));
}

#[test]
fn request_plan_orders_error_draw_before_caching() {
    let mut base = BaseConfig::default_config();
    base.response_generation.http_error_ratio = Some((1, 1));
    let mut cached = BaseConfig::default_config();
    cached.response_generation.array.max_length = 3;
    let mut uncached = BaseConfig::default_config();
    uncached.cache_responses = false;
    let (_, cfg) = Config::from_parts(base, vec![(s("cached"), cached), (s("uncached"), uncached)], 0).unwrap();
    let plan = cfg.plan_request(None, "{ a }", 1);
    assert!(matches!(plan.http_error, Some(500..=504)));
    assert_eq!(plan.cache_key, None);
    let name = s("cached");
    let plan = cfg.plan_request(Some(&name), "{ a }", 1);
    assert_eq!(plan.http_error, None);
    let (rg, _) = cfg.response_generation_for(Some(&name));
    assert_eq!(plan.cache_key, Some(fingerprint("{ a }", 1, rg, Some("cached"))));
    let name = s("uncached");
    let plan = cfg.plan_request(Some(&name), "{ a }", 1);
    assert_eq!(plan, RequestPlan { http_error: None, cache_key: None });
}

#[test]
fn operations_are_planned_by_kind() {
    let intro = SelectionSet {
        ty: s("Query"),
        selections: vec![Selection::Field(Field {
            alias: None,
            name: s("__typename"),
            ty: TypeRef::NonNullNamed(s("String")),
            selection_set: SelectionSet { ty: s("String"), selections: vec![] },
        })],
    };
    let plain = SelectionSet { ty: s("Query"), selections: vec![Selection::FragmentSpread(s("F"))] };
    assert_eq!(plan_operation(None), OperationPlan::NullData);
    assert_eq!(plan_operation(Some((OperationKind::Mutation, &plain))), OperationPlan::NotImplemented);
    assert_eq!(plan_operation(Some((OperationKind::Subscription, &intro))), OperationPlan::NotImplemented);
    assert_eq!(plan_operation(Some((OperationKind::Query, &intro))), OperationPlan::Introspect);
    assert_eq!(plan_operation(Some((OperationKind::Query, &plain))), OperationPlan::Synthesize);
}
