use subgraph_mock::config::{ArraySize, BaseConfig, Config, ResponseGenerationConfig, ScalarGenerator};
use subgraph_mock::model::{Document, Field, SchemaTypes, Selection, SelectionSet, TypeDef, TypeRef};
use subgraph_mock::pipeline::{http_error_status, is_pure_introspection};
use subgraph_mock::synth::{
    inject_field_errors, service_object, GraphQLError, Json, ResponseBuilder, SynthError,
};

fn s(x: &str) -> String {
    x.to_string()
}

fn leaf(alias: Option<&str>, name: &str, ty: TypeRef) -> Selection {
    Selection::Field(Field {
        alias: alias.map(s),
        name: s(name),
        ty,
        selection_set: SelectionSet { ty: s("Unused"), selections: vec![] },
    })
}

fn named(n: &str) -> TypeRef {
    TypeRef::Named(s(n))
}

fn non_null(n: &str) -> TypeRef {
    TypeRef::NonNullNamed(s(n))
}

fn schema() -> SchemaTypes {
    SchemaTypes {
        types: vec![
            (s("ID"), TypeDef::Scalar),
            (s("String"), TypeDef::Scalar),
            (s("Boolean"), TypeDef::Scalar),
            (s("Int"), TypeDef::Scalar),
            (s("Role"), TypeDef::Enum(vec![s("ADMIN"), s("USER")])),
            (s("Empty"), TypeDef::Enum(vec![])),
            (s("User"), TypeDef::Composite),
            (s("Query"), TypeDef::Composite),
        ],
    }
}

fn user_query() -> SelectionSet {
    SelectionSet {
        ty: s("Query"),
        selections: vec![Selection::Field(Field {
            alias: None,
            name: s("user"),
            ty: named("User"),
            selection_set: SelectionSet {
                ty: s("User"),
                selections: vec![
                    leaf(None, "id", non_null("ID")),
                    leaf(None, "name", named("String")),
                    leaf(None, "isActive", non_null("Boolean")),
                ],
            },
        })],
    }
}

fn config() -> ResponseGenerationConfig {
    let mut cfg = ResponseGenerationConfig::default_config();
    cfg.merge_default_scalars();
    cfg
}

fn object_keys(o: &[(String, Json)]) -> Vec<String> {
    o.iter().map(|(k, _)| k.clone()).collect()
}

#[test]
fn default_config_deterministic_shape() {
    let doc = Document { fragments: vec![] };
    let types = schema();
    let mut cfg = config();
    cfg.null_ratio = None;
    let sdl = s("type Query { user(id: ID!): User }");
    let b = ResponseBuilder::new(&doc, &types, &cfg, &sdl);
    let op = user_query();
    for _ in 0..20 {
        let resp = b.generate_response(Some(&op)).unwrap();
        assert!(resp.errors.is_none());
        let data = resp.data.unwrap();
        assert_eq!(object_keys(&data), vec![s("user")]);
        match &data[0].1 {
            Json::Object(user) => {
                assert_eq!(object_keys(user), vec![s("id"), s("name"), s("isActive")]);
                match &user[0].1 {
                    Json::Str(id) => assert!((0..=100).contains(&id.parse::<i64>().unwrap())),
                    other => panic!("id is {:?}", other),
                }
                match &user[1].1 {
                    Json::Str(n) => assert!((1..=10).contains(&n.chars().count())),
                    other => panic!("name is {:?}", other),
                }
                assert!(matches!(user[2].1, Json::Bool(_)));
            }
            other => panic!("user is {:?}", other),
        }
    }
}

#[test]
fn nullable_fields_may_be_null_non_null_never() {
    let doc = Document { fragments: vec![] };
    let types = schema();
    let mut cfg = config();
    cfg.null_ratio = Some((1, 1));
    let sdl = s("");
    let b = ResponseBuilder::new(&doc, &types, &cfg, &sdl);
    let op = SelectionSet {
        ty: s("Query"),
        selections: vec![leaf(None, "a", named("String")), leaf(None, "b", non_null("String"))],
    };
    let data = b.generate_response(Some(&op)).unwrap().data.unwrap();
    assert!(matches!(data[0].1, Json::Null));
    assert!(matches!(data[1].1, Json::Str(_)));
}

#[test]
fn validate_with_field_alias() {
    let doc = Document { fragments: vec![] };
    let types = schema();
    let cfg = config();
    let sdl = s("");
    let b = ResponseBuilder::new(&doc, &types, &cfg, &sdl);
    let op = SelectionSet {
        ty: s("Query"),
        selections: vec![
            leaf(Some("userId"), "id", non_null("ID")),
            leaf(Some("fullName"), "name", non_null("String")),
            leaf(None, "__typename", non_null("String")),
        ],
    };
    let data = b.generate_response(Some(&op)).unwrap().data.unwrap();
    assert_eq!(object_keys(&data), vec![s("userId"), s("fullName"), s("__typename")]);
    assert!(matches!(&data[2].1, Json::Str(t) if t == "Query"));
}

#[test]
fn validate_fragment_spread_and_inline_fragment() {
    let doc = Document {
        fragments: vec![(
            s("UserBits"),
            SelectionSet {
                ty: s("User"),
                selections: vec![leaf(None, "email", non_null("String")), leaf(None, "name", non_null("String"))],
            },
        )],
    };
    let types = schema();
    let cfg = config();
    let sdl = s("");
    let b = ResponseBuilder::new(&doc, &types, &cfg, &sdl);
    let op = SelectionSet {
        ty: s("User"),
        selections: vec![
            leaf(None, "name", non_null("String")),
            Selection::FragmentSpread(s("UserBits")),
            Selection::InlineFragment(SelectionSet {
                ty: s("User"),
                selections: vec![leaf(None, "role", non_null("Role"))],
            }),
            Selection::FragmentSpread(s("Missing")),
        ],
    };
    let sets = vec![&op];
    let obj = b.selection_set(&sets, &s("User"), 8).unwrap();
    assert_eq!(object_keys(&obj), vec![s("name"), s("email"), s("role")]);
    assert!(matches!(&obj[2].1, Json::Str(r) if r == "ADMIN" || r == "USER"));
}

#[test]
fn lists_follow_array_range() {
    let doc = Document { fragments: vec![] };
    let types = schema();
    let mut cfg = config();
    cfg.array.min_length = 11;
    cfg.array.max_length = 20;
    let sdl = s("");
    let b = ResponseBuilder::new(&doc, &types, &cfg, &sdl);
    let op = SelectionSet {
        ty: s("Query"),
        selections: vec![
            Selection::Field(Field {
                alias: None,
                name: s("posts"),
                ty: TypeRef::NonNullList(Box::new(non_null("User"))),
                selection_set: SelectionSet { ty: s("User"), selections: vec![leaf(None, "id", non_null("ID"))] },
            }),
            leaf(None, "tags", TypeRef::NonNullList(Box::new(non_null("Role")))),
        ],
    };
    let data = b.generate_response(Some(&op)).unwrap().data.unwrap();
    match &data[0].1 {
        Json::Array(items) => {
            assert!((11..=20).contains(&items.len()));
            for item in items {
                assert!(matches!(item, Json::Object(o) if o.len() == 1 && o[0].0 == "id"));
            }
        }
        other => panic!("posts is {:?}", other),
    }
    assert!(matches!(&data[1].1, Json::Array(items) if (11..=20).contains(&items.len())));
}

#[test]
fn service_field_serves_schema_source() {
    let doc = Document { fragments: vec![] };
    let types = schema();
    let cfg = config();
    let sdl = s("type Query { a: Int }\n");
    let b = ResponseBuilder::new(&doc, &types, &cfg, &sdl);
    let op = SelectionSet {
        ty: s("Query"),
        selections: vec![Selection::Field(Field {
            alias: None,
            name: s("_service"),
            ty: non_null("_Service"),
            selection_set: SelectionSet { ty: s("_Service"), selections: vec![leaf(None, "sdl", non_null("String"))] },
        })],
    };
    let data = b.generate_response(Some(&op)).unwrap().data.unwrap();
    match &data[0].1 {
        Json::Object(o) => {
            assert_eq!(o[0].0, "sdl");
            assert!(matches!(&o[0].1, Json::Str(t) if *t == sdl));
        }
        other => panic!("{:?}", other),
    }
    assert!(matches!(service_object(&sdl), Json::Object(o) if o.len() == 1));
}

#[test]
fn missing_operation_yields_null_data() {
    let doc = Document { fragments: vec![] };
    let types = schema();
    let cfg = config();
    let sdl = s("");
    let b = ResponseBuilder::new(&doc, &types, &cfg, &sdl);
    let resp = b.generate_response(None).unwrap();
    assert!(resp.data.is_none() && resp.errors.is_none());
}

#[test]
fn request_error_simulated() {
    let doc = Document { fragments: vec![] };
    let types = schema();
    let mut cfg = config();
    cfg.graphql_errors.request_error_ratio = Some((1, 1));
    let sdl = s("");
    let b = ResponseBuilder::new(&doc, &types, &cfg, &sdl);
    let resp = b.generate_response(Some(&user_query())).unwrap();
    assert!(resp.data.is_none());
    assert_eq!(
        resp.errors.unwrap(),
        vec![GraphQLError { message: s("Request error simulated"), path: None }]
    );
}

#[test]
fn error_injection_composition() {
    let doc = Document { fragments: vec![] };
    let types = schema();
    let mut cfg = config();
    cfg.graphql_errors.field_error_ratio = Some((1, 1));
    let sdl = s("");
    let b = ResponseBuilder::new(&doc, &types, &cfg, &sdl);
    let op = SelectionSet {
        ty: s("Query"),
        selections: vec![
            leaf(None, "a", non_null("Int")),
            leaf(None, "b", non_null("Int")),
            leaf(None, "c", non_null("Int")),
        ],
    };
    for _ in 0..20 {
        let resp = b.generate_response(Some(&op)).unwrap();
        let data = resp.data.unwrap();
        let errors = resp.errors.unwrap();
        assert!(!errors.is_empty());
        let mut keys = object_keys(&data);
        for e in &errors {
            assert_eq!(e.message, "Field error simulated");
            let p = e.path.clone().unwrap();
            assert!(!keys.contains(&p));
            keys.push(p);
        }
        keys.sort();
        assert_eq!(keys, vec![s("a"), s("b"), s("c")]);
    }
}

#[test]
fn field_errors_need_a_ratio_and_data() {
    let data = vec![(s("a"), Json::Null)];
    let r = inject_field_errors(data, None);
    assert!(r.errors.is_none());
    assert_eq!(r.data.unwrap().len(), 1);
    let r = inject_field_errors(vec![], Some((1, 1)));
    assert!(r.errors.is_none());
    let r = inject_field_errors(vec![(s("a"), Json::Null)], Some((0, 5)));
    assert!(r.errors.is_none());
}

#[test]
fn leaf_errors() {
    let doc = Document { fragments: vec![] };
    let types = schema();
    let cfg = config();
    let sdl = s("");
    let b = ResponseBuilder::new(&doc, &types, &cfg, &sdl);
    assert_eq!(b.leaf_field(&s("Empty")).unwrap_err(), SynthError::EmptyEnum(s("Empty")));
    assert_eq!(b.leaf_field(&s("User")).unwrap_err(), SynthError::NotALeaf(s("User")));
    assert_eq!(b.leaf_field(&s("Nope")).unwrap_err(), SynthError::NotALeaf(s("Nope")));
    assert_eq!(SynthError::EmptyEnum(s("E")).message(), "empty enum: E");
}

#[test]
fn too_deep_selection_is_an_error() {
    let doc = Document { fragments: vec![] };
    let types = schema();
    let mut cfg = config();
    cfg.null_ratio = None;
    let sdl = s("");
    let b = ResponseBuilder::new(&doc, &types, &cfg, &sdl);
    let op = user_query();
    let sets = vec![&op];
    assert!(matches!(b.selection_set(&sets, &s("Query"), 1), Err(SynthError::TooDeep)));
    assert!(b.selection_set(&sets, &s("Query"), 2).is_ok());
}

#[test]
fn scalar_generators_stay_in_range() {
    for _ in 0..50 {
        assert!(matches!(ScalarGenerator::Int { min: -3, max: 3 }.generate(), Json::Int(v) if (-3..=3).contains(&v)));
        assert!(matches!(ScalarGenerator::Int { min: 7, max: 7 }.generate(), Json::Int(7)));
        match (ScalarGenerator::String { min_len: 2, max_len: 4 }).generate() {
            Json::Str(t) => assert!((2..=4).contains(&t.chars().count())),
            other => panic!("{:?}", other),
        }
        assert!(matches!(ScalarGenerator::Bool.generate(), Json::Bool(_)));
    }
    assert!(matches!(
        ScalarGenerator::Float { min_bits: 1, max_bits: 2 }.generate(),
        Json::FloatIn { min_bits: 1, max_bits: 2 }
    ));
}

#[test]
fn introspection_short_circuit() {
    let op = SelectionSet {
        ty: s("Query"),
        selections: vec![Selection::Field(Field {
            alias: None,
            name: s("__schema"),
            ty: non_null("__Schema"),
            selection_set: SelectionSet { ty: s("__Schema"), selections: vec![] },
        })],
    };
    assert!(is_pure_introspection(&op));
    assert!(!is_pure_introspection(&user_query()));
    assert!(!is_pure_introspection(&SelectionSet { ty: s("Query"), selections: vec![] }));
}

#[test]
fn null_fraction_follows_null_ratio() {
    let doc = Document { fragments: vec![] };
    let types = schema();
    let mut cfg = config();
    cfg.null_ratio = Some((1, 4));
    let sdl = s("");
    let b = ResponseBuilder::new(&doc, &types, &cfg, &sdl);
    let n = 8_000;
    let nulls = (0..n).filter(|_| b.should_be_null()).count();
    let rate = nulls as f64 / n as f64;
    assert!((rate - 0.25).abs() < 0.03, "rate {rate}");
    cfg.null_ratio = None;
    let b = ResponseBuilder::new(&doc, &types, &cfg, &sdl);
    assert!((0..100).all(|_| !b.should_be_null()));
}

#[test]
fn error_ratios_compose() {
    let doc = Document { fragments: vec![] };
    let types = schema();
    let mut cfg = config();
    cfg.http_error_ratio = Some((1, 3));
    cfg.graphql_errors.field_error_ratio = Some((1, 4));
    let sdl = s("");
    let b = ResponseBuilder::new(&doc, &types, &cfg, &sdl);
    let op = SelectionSet {
        ty: s("Query"),
        selections: vec![leaf(None, "a", non_null("Int")), leaf(None, "b", non_null("Int"))],
    };
    let (mut failed, mut served, mut with_errors) = (0, 0, 0);
    for _ in 0..12_000 {
        if let Some(status) = http_error_status(&cfg) {
            assert!((500..=504).contains(&status));
            failed += 1;
            continue;
        }
        served += 1;
        let resp = b.generate_response(Some(&op)).unwrap();
        if let Some(errors) = resp.errors {
            with_errors += 1;
            let data = resp.data.unwrap();
            for e in errors {
                let p = e.path.unwrap();
                assert!(!data.iter().any(|(k, _)| *k == p));
            }
        }
    }
    let failed_rate = failed as f64 / 12_000.0;
    let error_rate = with_errors as f64 / served as f64;
    assert!((failed_rate - 1.0 / 3.0).abs() < 0.03, "5xx rate {failed_rate}");
    assert!((error_rate - 0.25).abs() < 0.03, "field error rate {error_rate}");
}

#[test]
fn subgraph_override_changes_list_lengths() {
    let base = BaseConfig::default_config();
    let mut special = BaseConfig::default_config();
    special.response_generation.array = ArraySize { min_length: 11, max_length: 20 };
    special.response_generation.null_ratio = None;
    let (_, cfg) = Config::from_parts(base, vec![(s("special"), special)], 0).unwrap();
    let doc = Document { fragments: vec![] };
    let types = schema();
    let sdl = s("");
    let op = SelectionSet {
        ty: s("Query"),
        selections: vec![leaf(None, "posts", TypeRef::NonNullList(Box::new(non_null("ID"))))],
    };
    let name = s("special");
    for (sub, lo, hi) in [(None, 0, 10), (Some(&name), 11, 20)] {
        let (rg, _) = cfg.response_generation_for(sub);
        let b = ResponseBuilder::new(&doc, &types, rg, &sdl);
        for _ in 0..20 {
            let data = b.generate_response(Some(&op)).unwrap().data.unwrap();
            assert!(matches!(&data[0].1, Json::Array(items) if (lo..=hi).contains(&items.len())));
        }
    }
}

#[test]
fn id_leaves_are_decimal_strings() {
    let doc = Document { fragments: vec![] };
    let types = schema();
    let mut cfg = config();
    cfg.scalars.insert(0, (s("ID"), ScalarGenerator::Int { min: -5, max: -5 }));
    let sdl = s("");
    let b = ResponseBuilder::new(&doc, &types, &cfg, &sdl);
    assert!(matches!(b.leaf_field(&s("ID")).unwrap(), Json::Str(t) if t == "-5"));
    assert!(matches!(b.leaf_field(&s("Int")).unwrap(), Json::Int(_)));
}

#[test]
fn nested_typename_names_the_parent_type() {
    let doc = Document { fragments: vec![] };
    let types = schema();
    let mut cfg = config();
    cfg.null_ratio = None;
    let sdl = s("");
    let b = ResponseBuilder::new(&doc, &types, &cfg, &sdl);
    let op = SelectionSet {
        ty: s("Query"),
        selections: vec![Selection::Field(Field {
            alias: None,
            name: s("user"),
            ty: named("User"),
            selection_set: SelectionSet {
                ty: s("User"),
                selections: vec![leaf(None, "__typename", non_null("String")), leaf(None, "id", non_null("ID"))],
            },
        })],
    };
    let data = b.generate_response(Some(&op)).unwrap().data.unwrap();
    match &data[0].1 {
        Json::Object(user) => {
            assert_eq!(object_keys(user), vec![s("__typename"), s("id")]);
            assert!(matches!(&user[0].1, Json::Str(t) if t == "User"));
        }
        other => panic!("{:?}", other),
    }
}

#[test]
fn field_errors_keep_other_values() {
    for _ in 0..20 {
        let data = vec![(s("a"), Json::Int(1)), (s("b"), Json::Int(2)), (s("c"), Json::Int(3))];
        let r = inject_field_errors(data, Some((1, 1)));
        let kept = r.data.unwrap();
        let errors = r.errors.unwrap();
        assert!(!errors.is_empty() && errors.len() <= 3);
        for (k, v) in &kept {
            let expected = match k.as_str() {
                "a" => 1,
                "b" => 2,
                _ => 3,
            };
            assert!(matches!(v, Json::Int(x) if *x == expected));
        }
        let mut paths: Vec<String> = errors.iter().map(|e| e.path.clone().unwrap()).collect();
        paths.sort();
        paths.dedup();
        assert_eq!(paths.len(), errors.len());
    }
}
