//! Federation support decided on a summary of the schema document: which
//! flavor it is, and what must be added to it before it validates.
use vstd::prelude::*;
use vstd::string::StringExecFns;

verus! {

/// The federation flavor of a schema document.
#[derive(Debug, Clone, Copy, PartialEq, Eq, Structural)]
pub enum FederationType {
    Subgraph,
    Supergraph,
    Unfederated,
}

#[derive(Debug, Clone, Copy, PartialEq, Eq, Structural)]
pub enum DefinitionKind {
    SchemaDefinition,
    SchemaExtension,
    Other,
}

/// What flavor detection reads of one top-level definition: its kind, its
/// name if it has one, and the names of the directives applied to it.
#[derive(Debug, Clone)]
pub struct DefinitionSummary {
    pub kind: DefinitionKind,
    pub name: Option<String>,
    pub directives: Vec<String>,
}

pub open spec fn has_name(d: DefinitionSummary, n: Seq<char>) -> bool {
    d.name is Some && d.name.unwrap()@ == n
}

pub open spec fn has_directive(d: DefinitionSummary, n: Seq<char>) -> bool {
    exists|j: int| 0 <= j < d.directives@.len() && #[trigger] d.directives@[j]@ == n
}

/// Supergraph when a definition is named `join__Graph`; otherwise subgraph
/// when a schema extension carries `@link`; otherwise neither.
pub open spec fn flavor_spec(defs: Seq<DefinitionSummary>) -> FederationType {
    if exists|i: int| 0 <= i < defs.len() && has_name(#[trigger] defs[i], "join__Graph"@) {
        FederationType::Supergraph
    } else if exists|i: int|
        0 <= i < defs.len() && (#[trigger] defs[i]).kind == DefinitionKind::SchemaExtension
            && has_directive(defs[i], "link"@) {
        FederationType::Subgraph
    } else {
        FederationType::Unfederated
    }
}

fn str_is(s: &String, lit: &str) -> (r: bool)
    ensures
        r == (s@ == lit@),
{
    *s == String::from_str(lit)
}

fn directive_present(d: &DefinitionSummary, lit: &str) -> (r: bool)
    ensures
        r == has_directive(*d, lit@),
{
    let mut j: usize = 0;
    while j < d.directives.len()
        invariant
            j <= d.directives@.len(),
            forall|t: int| 0 <= t < j ==> d.directives@[t]@ != lit@,
        decreases d.directives@.len() - j,
    {
        if str_is(&d.directives[j], lit) {
            return true;
        }
        j += 1;
    }
    false
}

/// Classifies a schema document by its definitions.
pub fn detect_federation_type(defs: &Vec<DefinitionSummary>) -> (r: FederationType)
    ensures
        r == flavor_spec(defs@),
{
    let mut i: usize = 0;
    while i < defs.len()
        invariant
            i <= defs@.len(),
            forall|t: int| 0 <= t < i ==> !has_name(#[trigger] defs@[t], "join__Graph"@),
        decreases defs@.len() - i,
    {
        let named = match &defs[i].name {
            Some(n) => str_is(n, "join__Graph"),
            None => false,
        };
        if named {
            return FederationType::Supergraph;
        }
        i += 1;
    }
    let mut k: usize = 0;
    while k < defs.len()
        invariant
            k <= defs@.len(),
            forall|t: int| 0 <= t < defs@.len() ==> !has_name(#[trigger] defs@[t], "join__Graph"@),
            forall|t: int|
                0 <= t < k ==> !((#[trigger] defs@[t]).kind == DefinitionKind::SchemaExtension
                    && has_directive(defs@[t], "link"@)),
        decreases defs@.len() - k,
    {
        if defs[k].kind == DefinitionKind::SchemaExtension && directive_present(&defs[k], "link") {
            return FederationType::Subgraph;
        }
        k += 1;
    }
    FederationType::Unfederated
}

/// The directives that a subgraph schema has without declaring them.
pub open spec fn federation_directive_names_spec() -> Seq<Seq<char>> {
    seq![
        "external"@,
        "requires"@,
        "provides"@,
        "key"@,
        "link"@,
        "shareable"@,
        "inaccessible"@,
        "tag"@,
        "override"@,
        "composeDirective"@,
        "interfaceObject"@,
        "authenticated"@,
        "requiresScopes"@,
        "policy"@,
        "context"@,
        "fromContext"@,
    ]
}

pub open spec fn names_view(v: Seq<String>) -> Seq<Seq<char>> {
    v.map_values(|s: String| s@)
}

/// The names of the directives that a subgraph schema has without declaring
/// them, in the order they are added.
pub fn federation_directive_names() -> (r: Vec<String>)
    ensures
        names_view(r@) == federation_directive_names_spec(),
{
    let r = vec![
        String::from_str("external"),
        String::from_str("requires"),
        String::from_str("provides"),
        String::from_str("key"),
        String::from_str("link"),
        String::from_str("shareable"),
        String::from_str("inaccessible"),
        String::from_str("tag"),
        String::from_str("override"),
        String::from_str("composeDirective"),
        String::from_str("interfaceObject"),
        String::from_str("authenticated"),
        String::from_str("requiresScopes"),
        String::from_str("policy"),
        String::from_str("context"),
        String::from_str("fromContext"),
    ];
    assert(names_view(r@) =~= federation_directive_names_spec());
    r
}

/// What the document needs before it can become a schema.
#[derive(Debug, Clone)]
pub struct AstPatch {
    pub flavor: FederationType,
    /// Add `schema { query: Query }`.
    pub add_schema_definition: bool,
    /// Directive definitions to append, by name.
    pub directives: Vec<String>,
    /// How many `@link` directives stand on schema definitions and
    /// extensions: imports are acknowledged but not resolved.
    pub unresolved_links: usize,
}

pub open spec fn link_count(defs: Seq<DefinitionSummary>) -> nat
    decreases defs.len(),
{
    if defs.len() == 0 {
        0
    } else {
        let d = defs.last();
        link_count(defs.drop_last()) + if d.kind != DefinitionKind::Other {
            d.directives@.filter(|n: String| n@ == "link"@).len()
        } else {
            0
        }
    }
}

fn count_links(d: &DefinitionSummary) -> (r: usize)
    ensures
        r == d.directives@.filter(|n: String| n@ == "link"@).len(),
{
    let mut c: usize = 0;
    let mut j: usize = 0;
    while j < d.directives.len()
        invariant
            j <= d.directives@.len(),
            c == d.directives@.subrange(0, j as int).filter(|n: String| n@ == "link"@).len(),
            c <= j,
        decreases d.directives@.len() - j,
    {
        proof {
            let s = d.directives@.subrange(0, j + 1);
            assert(s.drop_last() =~= d.directives@.subrange(0, j as int));
            reveal_with_fuel(Seq::filter, 1);
        }
        if str_is(&d.directives[j], "link") {
            c += 1;
        }
        j += 1;
    }
    assert(d.directives@.subrange(0, d.directives@.len() as int) =~= d.directives@);
    c
}

/// Decides what a schema document needs: a subgraph gets the implicit
/// federation directives, and `schema { query: Query }` when it declares no
/// schema definition; the `@link` imports of a subgraph or supergraph are
/// counted, not followed.
pub fn plan_ast_patch(defs: &Vec<DefinitionSummary>) -> (r: AstPatch)
    ensures
        r.flavor == flavor_spec(defs@),
        r.add_schema_definition == (r.flavor == FederationType::Subgraph && !exists|i: int|
            0 <= i < defs@.len() && (#[trigger] defs@[i]).kind == DefinitionKind::SchemaDefinition),
        r.flavor == FederationType::Subgraph ==> names_view(r.directives@)
            == federation_directive_names_spec(),
        r.flavor != FederationType::Subgraph ==> r.directives@.len() == 0,
        r.flavor == FederationType::Unfederated ==> r.unresolved_links == 0,
        r.flavor != FederationType::Unfederated ==> r.unresolved_links == link_count(defs@) || link_count(
            defs@,
        ) > usize::MAX,
{
    let flavor = detect_federation_type(defs);
    let mut has_schema_def = false;
    let mut i: usize = 0;
    while i < defs.len()
        invariant
            i <= defs@.len(),
            !has_schema_def ==> forall|t: int|
                0 <= t < i ==> (#[trigger] defs@[t]).kind != DefinitionKind::SchemaDefinition,
            has_schema_def ==> exists|t: int|
                0 <= t < defs@.len() && (#[trigger] defs@[t]).kind == DefinitionKind::SchemaDefinition,
        decreases defs@.len() - i,
    {
        if defs[i].kind == DefinitionKind::SchemaDefinition {
            has_schema_def = true;
        }
        i += 1;
    }
    let is_subgraph = flavor == FederationType::Subgraph;
    let directives = if is_subgraph {
        federation_directive_names()
    } else {
        Vec::new()
    };
    let mut links: usize = 0;
    if flavor != FederationType::Unfederated {
        let mut k: usize = 0;
        let mut overflow = false;
        while k < defs.len()
            invariant
                k <= defs@.len(),
                !overflow ==> links == link_count(defs@.subrange(0, k as int)),
                overflow ==> link_count(defs@) > usize::MAX,
            decreases defs@.len() - k,
        {
            proof {
                assert(defs@.subrange(0, k + 1).drop_last() =~= defs@.subrange(0, k as int));
                lemma_link_count_mono(defs@, k + 1);
            }
            if !overflow && defs[k].kind != DefinitionKind::Other {
                let c = count_links(&defs[k]);
                if links > usize::MAX - c {
                    overflow = true;
                } else {
                    links = links + c;
                }
            }
            k += 1;
        }
        assert(defs@.subrange(0, defs@.len() as int) =~= defs@);
    }
    AstPatch {
        flavor,
        add_schema_definition: is_subgraph && !has_schema_def,
        directives,
        unresolved_links: links,
    }
}

proof fn lemma_link_count_mono(defs: Seq<DefinitionSummary>, n: int)
    requires
        0 <= n <= defs.len(),
    ensures
        link_count(defs.subrange(0, n)) <= link_count(defs),
    decreases defs.len() - n,
{
    if n < defs.len() {
        lemma_link_count_mono(defs, n + 1);
        assert(defs.subrange(0, n + 1).drop_last() =~= defs.subrange(0, n));
    } else {
        assert(defs.subrange(0, n) =~= defs);
    }
}

/// A directive applied to a type, with its `resolvable` argument when given.
#[derive(Debug, Clone)]
pub struct DirectiveUse {
    pub name: String,
    pub resolvable: Option<bool>,
}

/// What the schema patch reads of one type definition.
#[derive(Debug, Clone)]
pub struct TypeSummary {
    pub name: String,
    pub is_object: bool,
    pub directives: Vec<DirectiveUse>,
}

/// What the schema patch reads of a schema.
#[derive(Debug, Clone)]
pub struct SchemaSummary {
    pub types: Vec<TypeSummary>,
    pub query_root: Option<String>,
    pub has_defer: bool,
    pub has_stream: bool,
}

/// Why a schema cannot be patched.
#[derive(Debug, Clone, Copy, PartialEq, Eq, Structural)]
pub enum PatchError {
    NoQueryType,
    QueryRootNotAnObject,
}

impl PatchError {
    pub fn message(&self) -> String {
        match self {
            PatchError::NoQueryType => String::from_str("Schema does not define a query type"),
            PatchError::QueryRootNotAnObject => String::from_str("query root is not an object"),
        }
    }
}

/// What must be added to a schema for federation.
#[derive(Debug, Clone)]
pub struct SchemaPatch {
    /// Members of the `_Entity` union; when empty, neither the union nor the
    /// `_entities` field is added.
    pub entity_members: Vec<String>,
    /// The query root type, which gets `_service` (and `_entities`).
    pub query_root: String,
    /// Declare `query_root` as the schema's query type.
    pub set_query_root: bool,
    /// Add an empty object type named `query_root`.
    pub create_query_root: bool,
    /// Scalar types to add.
    pub scalars: Vec<String>,
    /// Add the `link__Purpose` enum (`SECURITY`, `EXECUTION`).
    pub add_link_purpose: bool,
    pub add_defer: bool,
    pub add_stream: bool,
}

/// A type that the `_Entity` union takes: an object type marked `@key` or
/// `@join__type` without `resolvable: false`, other than the query root.
pub open spec fn is_entity(t: TypeSummary, root: Option<String>) -> bool {
    &&& t.is_object
    &&& exists|j: int|
        0 <= j < t.directives@.len() && ((#[trigger] t.directives@[j]).name@ == "key"@
            || t.directives@[j].name@ == "join__type"@) && t.directives@[j].resolvable != Some(false)
    &&& match root {
        Some(r) => t.name@ != r@,
        None => true,
    }
}

pub open spec fn entity_members_spec(types: Seq<TypeSummary>, root: Option<String>) -> Seq<Seq<char>>
    decreases types.len(),
{
    if types.len() == 0 {
        Seq::empty()
    } else {
        let prev = entity_members_spec(types.drop_last(), root);
        if is_entity(types.last(), root) {
            prev.push(types.last().name@)
        } else {
            prev
        }
    }
}

pub open spec fn subgraph_scalars_spec() -> Seq<Seq<char>> {
    seq![
        "_Any"@,
        "FieldSet"@,
        "link__Import"@,
        "federation__ContextFieldValue"@,
        "federation__Scope"@,
        "federation__Policy"@,
    ]
}

fn is_entity_type(t: &TypeSummary, root: &Option<String>) -> (r: bool)
    ensures
        r == is_entity(*t, *root),
{
    if !t.is_object {
        return false;
    }
    match root {
        Some(q) => {
            if t.name == *q {
                return false;
            }
        },
        None => {},
    }
    let mut j: usize = 0;
    while j < t.directives.len()
        invariant
            j <= t.directives@.len(),
            t.is_object,
            match *root {
                Some(r) => t.name@ != r@,
                None => true,
            },
            forall|u: int|
                0 <= u < j ==> !(((#[trigger] t.directives@[u]).name@ == "key"@
                    || t.directives@[u].name@ == "join__type"@) && t.directives@[u].resolvable
                    != Some(false)),
        decreases t.directives@.len() - j,
    {
        let d = &t.directives[j];
        let federated = str_is(&d.name, "key") || str_is(&d.name, "join__type");
        let resolvable = match d.resolvable {
            Some(b) => b,
            None => true,
        };
        if federated && resolvable {
            assert(((t.directives@[j as int]).name@ == "key"@ || t.directives@[j as int].name@
                == "join__type"@) && t.directives@[j as int].resolvable != Some(false));
            return true;
        }
        j += 1;
    }
    false
}

/// The members of the `_Entity` union, in schema order.
pub fn entity_members(types: &Vec<TypeSummary>, root: &Option<String>) -> (r: Vec<String>)
    ensures
        names_view(r@) == entity_members_spec(types@, *root),
{
    let mut r: Vec<String> = Vec::new();
    let mut i: usize = 0;
    while i < types.len()
        invariant
            i <= types@.len(),
            names_view(r@) == entity_members_spec(types@.subrange(0, i as int), *root),
        decreases types@.len() - i,
    {
        proof {
            assert(types@.subrange(0, i + 1).drop_last() =~= types@.subrange(0, i as int));
        }
        let ghost r0 = r@;
        if is_entity_type(&types[i], root) {
            r.push(types[i].name.clone());
            assert(names_view(r@) =~= names_view(r0).push(types@[i as int].name@));
        }
        i += 1;
    }
    assert(types@.subrange(0, types@.len() as int) =~= types@);
    r
}

/// Whether the first type named `name` is an object, or `None` without such
/// a type.
pub open spec fn type_kind(types: Seq<TypeSummary>, name: Seq<char>) -> Option<bool>
    decreases types.len(),
{
    if types.len() == 0 {
        None
    } else {
        let prev = type_kind(types.drop_last(), name);
        if prev is Some {
            prev
        } else if types.last().name@ == name {
            Some(types.last().is_object)
        } else {
            None
        }
    }
}

proof fn lemma_type_kind_prefix(types: Seq<TypeSummary>, n: int, name: Seq<char>)
    requires
        0 <= n <= types.len(),
        type_kind(types.subrange(0, n), name) is Some,
    ensures
        type_kind(types, name) == type_kind(types.subrange(0, n), name),
    decreases types.len() - n,
{
    if n < types.len() {
        assert(types.subrange(0, n + 1).drop_last() =~= types.subrange(0, n));
        lemma_type_kind_prefix(types, n + 1, name);
    } else {
        assert(types.subrange(0, n) =~= types);
    }
}

fn find_type(types: &Vec<TypeSummary>, name: &String) -> (r: Option<usize>)
    ensures
        match r {
            Some(i) => i < types@.len() && type_kind(types@, name@) == Some(types@[i as int].is_object),
            None => type_kind(types@, name@) is None,
        },
{
    let mut i: usize = 0;
    while i < types.len()
        invariant
            i <= types@.len(),
            type_kind(types@.subrange(0, i as int), name@) is None,
        decreases types@.len() - i,
    {
        assert(types@.subrange(0, i + 1).drop_last() =~= types@.subrange(0, i as int));
        if types[i].name == *name {
            proof {
                lemma_type_kind_prefix(types@, i + 1, name@);
            }
            return Some(i);
        }
        i += 1;
    }
    assert(types@.subrange(0, types@.len() as int) =~= types@);
    None
}

/// Decides what a schema of the given flavor must gain: the `_Entity` union
/// of its entities, a query root (created for a subgraph that lacks one,
/// required otherwise, and an object either way), the federation scalars,
/// and `@defer` / `@stream` for a supergraph that does not define them.
#[verifier::rlimit(40)]
pub fn plan_schema_patch(s: &SchemaSummary, flavor: FederationType) -> (r: Result<SchemaPatch, PatchError>)
    ensures
        match r {
            Ok(p) => {
                &&& names_view(p.entity_members@) == entity_members_spec(s.types@, s.query_root)
                &&& p.query_root@ == match s.query_root {
                    Some(q) => q@,
                    None => "Query"@,
                }
                &&& p.set_query_root == (flavor == FederationType::Subgraph && s.query_root is None)
                &&& p.create_query_root == (flavor == FederationType::Subgraph && type_kind(s.types@, p.query_root@) is None)
                &&& (flavor != FederationType::Subgraph || !p.create_query_root) ==> type_kind(s.types@, p.query_root@) == Some(true)
                &&& names_view(p.scalars@) == match flavor {
                    FederationType::Subgraph => subgraph_scalars_spec(),
                    FederationType::Supergraph => seq!["_Any"@],
                    FederationType::Unfederated => Seq::empty(),
                }
                &&& p.add_link_purpose == (flavor == FederationType::Subgraph)
                &&& p.add_defer == (flavor == FederationType::Supergraph && !s.has_defer)
                &&& p.add_stream == (flavor == FederationType::Supergraph && !s.has_stream)
            },
            Err(e) => e == PatchError::NoQueryType <==> (flavor != FederationType::Subgraph
                && s.query_root is None),
        },
        r is Err <==> (flavor != FederationType::Subgraph && s.query_root is None) || ({
            let q: Seq<char> = match s.query_root {
                Some(q) => q@,
                None => "Query"@,
            };
            &&& s.query_root is Some || flavor == FederationType::Subgraph
            &&& type_kind(s.types@, q) != Some(true)
            &&& (flavor == FederationType::Subgraph ==> type_kind(s.types@, q) is Some)
        }),
{
    let members = entity_members(&s.types, &s.query_root);
    let is_subgraph = flavor == FederationType::Subgraph;
    let root = match &s.query_root {
        Some(q) => q.clone(),
        None => {
            if !is_subgraph {
                return Err(PatchError::NoQueryType);
            }
            String::from_str("Query")
        },
    };
    let found = find_type(&s.types, &root);
    let create = match found {
        Some(i) => {
            if !s.types[i].is_object {
                return Err(PatchError::QueryRootNotAnObject);
            }
            false
        },
        None => {
            if !is_subgraph {
                return Err(PatchError::QueryRootNotAnObject);
            }
            true
        },
    };
    let scalars = match flavor {
        FederationType::Subgraph => {
            let v = vec![
                String::from_str("_Any"),
                String::from_str("FieldSet"),
                String::from_str("link__Import"),
                String::from_str("federation__ContextFieldValue"),
                String::from_str("federation__Scope"),
                String::from_str("federation__Policy"),
            ];
            assert(names_view(v@) =~= subgraph_scalars_spec());
            v
        },
        FederationType::Supergraph => {
            let v = vec![String::from_str("_Any")];
            assert(names_view(v@) =~= seq!["_Any"@]);
            v
        },
        FederationType::Unfederated => {
            let v: Vec<String> = Vec::new();
            assert(names_view(v@) =~= Seq::<Seq<char>>::empty());
            v
        },
    };
    let is_supergraph = flavor == FederationType::Supergraph;
    Ok(
        SchemaPatch {
            entity_members: members,
            query_root: root,
            set_query_root: is_subgraph && s.query_root.is_none(),
            create_query_root: create,
            scalars,
            add_link_purpose: is_subgraph,
            add_defer: is_supergraph && !s.has_defer,
            add_stream: is_supergraph && !s.has_stream,
        },
    )
}

} // verus!
