use subgraph_mock::federation::{
    detect_federation_type, entity_members, federation_directive_names, plan_ast_patch,
    plan_schema_patch, DefinitionKind, DefinitionSummary, DirectiveUse, FederationType,
    PatchError, SchemaSummary, TypeSummary,
};

fn s(x: &str) -> String {
    x.to_string()
}

fn def(kind: DefinitionKind, name: Option<&str>, directives: &[&str]) -> DefinitionSummary {
    DefinitionSummary { kind, name: name.map(s), directives: directives.iter().map(|d| s(d)).collect() }
}

fn ty(name: &str, is_object: bool, directives: Vec<(&str, Option<bool>)>) -> TypeSummary {
    TypeSummary {
        name: s(name),
        is_object,
        directives: directives.into_iter().map(|(n, r)| DirectiveUse { name: s(n), resolvable: r }).collect(),
    }
}

#[test]
fn supergraph_flavor_and_unresolved_links() {
    let defs = vec![
        def(DefinitionKind::SchemaDefinition, None, &["link", "link"]),
        def(DefinitionKind::Other, Some("join__Graph"), &[]),
        def(DefinitionKind::SchemaExtension, None, &["link"]),
    ];
    assert_eq!(detect_federation_type(&defs), FederationType::Supergraph);
    let p = plan_ast_patch(&defs);
    assert_eq!(p.flavor, FederationType::Supergraph);
    assert!(!p.add_schema_definition);
    assert!(p.directives.is_empty());
    assert_eq!(p.unresolved_links, 3);
}

#[test]
fn subgraph_gets_schema_definition_and_directives() {
    let defs = vec![
        def(DefinitionKind::SchemaExtension, None, &["link"]),
        def(DefinitionKind::Other, Some("User"), &["key"]),
    ];
    assert_eq!(detect_federation_type(&defs), FederationType::Subgraph);
    let p = plan_ast_patch(&defs);
    assert!(p.add_schema_definition);
    assert_eq!(p.directives, federation_directive_names());
    assert_eq!(p.directives.len(), 16);
    assert_eq!(p.directives[0], "external");
    assert_eq!(p.directives[15], "fromContext");
    assert_eq!(p.unresolved_links, 1);
}

#[test]
fn plain_schema_needs_no_ast_patch() {
    let defs = vec![
        def(DefinitionKind::SchemaDefinition, None, &[]),
        def(DefinitionKind::Other, Some("Query"), &[]),
        def(DefinitionKind::SchemaExtension, None, &["tag"]),
    ];
    assert_eq!(detect_federation_type(&defs), FederationType::Unfederated);
    let p = plan_ast_patch(&defs);
    assert!(!p.add_schema_definition && p.directives.is_empty() && p.unresolved_links == 0);
}

#[test]
fn entities_exclude_unresolvable_and_query_root() {
    let types = vec![
        ty("Query", true, vec![("key", None)]),
        ty("User", true, vec![("key", None)]),
        ty("Post", true, vec![("join__type", Some(true))]),
        ty("Hidden", true, vec![("key", Some(false))]),
        ty("Iface", false, vec![("key", None)]),
        ty("Plain", true, vec![("tag", None)]),
    ];
    assert_eq!(entity_members(&types, &Some(s("Query"))), vec![s("User"), s("Post")]);
}

#[test]
fn subgraph_patch_creates_query_root() {
    let summary = SchemaSummary {
        types: vec![ty("User", true, vec![("key", None)])],
        query_root: None,
        has_defer: false,
        has_stream: false,
    };
    let p = plan_schema_patch(&summary, FederationType::Subgraph).unwrap();
    assert_eq!(p.entity_members, vec![s("User")]);
    assert_eq!(p.query_root, "Query");
    assert!(p.set_query_root && p.create_query_root && p.add_link_purpose);
    assert_eq!(p.scalars.len(), 6);
    assert_eq!(p.scalars[0], "_Any");
    assert!(!p.add_defer && !p.add_stream);
}

#[test]
fn supergraph_patch_adds_defer_and_stream() {
    let summary = SchemaSummary {
        types: vec![ty("Query", true, vec![]), ty("T", true, vec![("join__type", None)])],
        query_root: Some(s("Query")),
        has_defer: true,
        has_stream: false,
    };
    let p = plan_schema_patch(&summary, FederationType::Supergraph).unwrap();
    assert_eq!(p.scalars, vec![s("_Any")]);
    assert!(!p.add_defer && p.add_stream && !p.create_query_root && !p.set_query_root);
    assert_eq!(p.entity_members, vec![s("T")]);
}

#[test]
fn patch_errors() {
    let summary = SchemaSummary { types: vec![], query_root: None, has_defer: false, has_stream: false };
    assert_eq!(plan_schema_patch(&summary, FederationType::Unfederated).unwrap_err(), PatchError::NoQueryType);
    let summary = SchemaSummary {
        types: vec![ty("Query", false, vec![])],
        query_root: Some(s("Query")),
        has_defer: false,
        has_stream: false,
    };
    assert_eq!(
        plan_schema_patch(&summary, FederationType::Subgraph).unwrap_err(),
        PatchError::QueryRootNotAnObject
    );
    assert_eq!(PatchError::NoQueryType.message(), "Schema does not define a query type");
}
