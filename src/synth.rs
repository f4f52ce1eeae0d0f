//! Response synthesis: a random JSON value shaped exactly like the selections
//! of an operation, with values drawn as the response-generation
//! configuration says.
use crate::config::{ratio_ok, ResponseGenerationConfig, ScalarGenerator};
use crate::entries::{find_index, lookup};
use crate::model::{Document, Field, Selection, SelectionSet, SchemaTypes, TypeDef};
use crate::random::{any_char, i32_in, ratio_hit, string_from_chars, usize_in};
use vstd::prelude::*;
use vstd::string::StringExecFns;

verus! {

/// A JSON value as synthesized. A float is not drawn here: `FloatIn` stands
/// for a float to be drawn uniformly between the two bounds (given as `f64`
/// bit patterns) when the value is written out.
#[derive(Debug)]
pub enum Json {
    Null,
    Bool(bool),
    Int(i64),
    Str(String),
    FloatIn { min_bits: u64, max_bits: u64 },
    Array(Vec<Json>),
    Object(Vec<(String, Json)>),
}

/// Why no response could be synthesized.
#[derive(Debug, Clone, PartialEq, Eq)]
pub enum SynthError {
    /// An enum type without values.
    EmptyEnum(String),
    /// A field without sub-selections whose type is neither a scalar nor an
    /// enum, or is unknown.
    NotALeaf(String),
    /// Selections nested deeper than the synthesizer follows.
    TooDeep,
}

impl SynthError {
    pub fn message(&self) -> String {
        match self {
            SynthError::EmptyEnum(n) => String::from_str("empty enum: ").concat(n.as_str()),
            SynthError::NotALeaf(n) => String::from_str(
                "a field with an empty selection set must be a scalar or enum type: ",
            ).concat(n.as_str()),
            SynthError::TooDeep => String::from_str("selections are nested too deeply"),
        }
    }
}

/// The nesting budget of a response. It only serves the termination
/// argument: a selection deep enough to exhaust it cannot be held in memory,
/// so in practice no depth is refused.
pub const MAX_DEPTH: usize = usize::MAX;

/// The keys of a list of entries, as a set.
pub open spec fn key_set<V>(s: Seq<(String, V)>) -> Set<Seq<char>> {
    Set::new(|k: Seq<char>| exists|i: int| 0 <= i < s.len() && #[trigger] s[i].0@ == k)
}

/// No key occurs twice.
pub open spec fn keys_unique<V>(s: Seq<(String, V)>) -> bool {
    forall|i: int, j: int| 0 <= i < j < s.len() ==> #[trigger] s[i].0@ != #[trigger] s[j].0@
}

/// The fields that the selections `sels` select, in order, with inline
/// fragments expanded in place and fragment spreads followed at most `depth`
/// deep.
pub open spec fn flat_in(doc: Document, sels: Seq<Selection>, depth: nat) -> Seq<Field>
    decreases depth, sels, 1nat,
{
    if sels.len() == 0 {
        Seq::empty()
    } else {
        flat_in(doc, sels.drop_last(), depth) + flat_of_selection(doc, sels.last(), depth)
    }
}

/// The fields that one selection contributes.
pub open spec fn flat_of_selection(doc: Document, sel: Selection, depth: nat) -> Seq<Field>
    decreases depth, sel, 0nat,
{
    match sel {
        Selection::Field(f) => seq![f],
        Selection::InlineFragment(ss) => flat_in(doc, ss.selections@, depth),
        Selection::FragmentSpread(name) => if depth == 0 {
            Seq::empty()
        } else {
            match lookup(doc.fragments@, name@) {
                Some(ss) => flat_in(doc, ss.selections@, (depth - 1) as nat),
                None => Seq::empty(),
            }
        },
    }
}

/// The fields that the selection sets `sets` select together, in order.
pub open spec fn flat_of_sets(doc: Document, sets: Seq<SelectionSet>, depth: nat) -> Seq<Field>
    decreases sets.len(),
{
    if sets.len() == 0 {
        Seq::empty()
    } else {
        flat_of_sets(doc, sets.drop_last(), depth) + flat_in(doc, sets.last().selections@, depth)
    }
}

/// The response keys of `fs` in order of first occurrence.
pub open spec fn first_keys(fs: Seq<Field>) -> Seq<Seq<char>>
    decreases fs.len(),
{
    if fs.len() == 0 {
        Seq::empty()
    } else {
        let p = first_keys(fs.drop_last());
        if p.contains(fs.last().response_key()) {
            p
        } else {
            p.push(fs.last().response_key())
        }
    }
}

/// The fields of `fs` whose response key is `k`, in order.
pub open spec fn with_key(fs: Seq<Field>, k: Seq<char>) -> Seq<Field>
    decreases fs.len(),
{
    if fs.len() == 0 {
        Seq::empty()
    } else {
        let p = with_key(fs.drop_last(), k);
        if fs.last().response_key() == k {
            p.push(fs.last())
        } else {
            p
        }
    }
}

pub open spec fn deref_fields(s: Seq<&Field>) -> Seq<Field> {
    s.map_values(|f: &Field| *f)
}

pub open spec fn deref_sets(s: Seq<&SelectionSet>) -> Seq<SelectionSet> {
    s.map_values(|x: &SelectionSet| *x)
}

/// `g` groups the fields `fs` by response key: one group per key, in order
/// of first occurrence, each holding that key's fields in order.
pub open spec fn grouped(g: Seq<(String, Vec<&Field>)>, fs: Seq<Field>) -> bool {
    &&& g.len() == first_keys(fs).len()
    &&& forall|i: int|
        0 <= i < g.len() ==> (#[trigger] g[i]).0@ == first_keys(fs)[i] && deref_fields(g[i].1@)
            == with_key(fs, g[i].0@)
}

proof fn lemma_first_keys(fs: Seq<Field>)
    ensures
        first_keys(fs).no_duplicates(),
        forall|k: Seq<char>| first_keys(fs).contains(k) <==> with_key(fs, k).len() > 0,
        forall|k: Seq<char>| #[trigger] with_key(fs, k).len() > 0 ==> with_key(fs, k)[0].response_key() == k,
    decreases fs.len(),
{
    if fs.len() > 0 {
        let p = fs.drop_last();
        let l = fs.last();
        let lk = l.response_key();
        lemma_first_keys(p);
        let pk = first_keys(p);
        assert forall|k: Seq<char>| first_keys(fs).contains(k) <==> with_key(fs, k).len() > 0 by {
            if pk.contains(lk) {
            } else {
                assert(pk.push(lk)[pk.len() as int] == lk);
                if pk.push(lk).contains(k) && k != lk {
                    let i = pk.push(lk).index_of(k);
                    assert(pk[i] == k);
                }
                if pk.contains(k) {
                    let i = pk.index_of(k);
                    assert(pk.push(lk)[i] == k);
                }
            }
        }
        assert forall|k: Seq<char>| #[trigger] with_key(fs, k).len() > 0 implies with_key(fs, k)[0].response_key() == k by {
            if with_key(p, k).len() > 0 {
                assert(with_key(p, k).len() > 0 ==> with_key(p, k)[0].response_key() == k);
            }
        }
    }
}

proof fn lemma_grouped_keys(g: Seq<(String, Vec<&Field>)>, fs: Seq<Field>)
    requires
        grouped(g, fs),
    ensures
        keys_unique(g),
        forall|i: int| 0 <= i < g.len() ==> (#[trigger] g[i]).1@.len() > 0,
        forall|i: int| 0 <= i < g.len() ==> deref_fields((#[trigger] g[i]).1@)[0].response_key() == g[i].0@,
{
    lemma_first_keys(fs);
    assert forall|i: int| 0 <= i < g.len() implies (#[trigger] g[i]).1@.len() > 0 by {
        assert(first_keys(fs).contains(first_keys(fs)[i]));
        assert(deref_fields(g[i].1@).len() == g[i].1@.len());
    }
    assert forall|i: int, j: int| 0 <= i < j < g.len() implies #[trigger] g[i].0@ != #[trigger] g[j].0@ by {
        assert(first_keys(fs)[i] != first_keys(fs)[j]);
    }
    assert forall|i: int| 0 <= i < g.len() implies deref_fields((#[trigger] g[i]).1@)[0].response_key() == g[i].0@ by {
        assert(first_keys(fs).contains(first_keys(fs)[i]));
    }
}

proof fn lemma_flat_in_step(doc: Document, sels: Seq<Selection>, i: int, depth: nat)
    requires
        0 <= i < sels.len(),
    ensures
        flat_in(doc, sels.subrange(0, i + 1), depth) == flat_in(doc, sels.subrange(0, i), depth)
            + flat_of_selection(doc, sels[i], depth),
{
    assert(sels.subrange(0, i + 1).drop_last() =~= sels.subrange(0, i));
    assert(sels.subrange(0, i + 1).last() == sels[i]);
}

/// Adds `f` to the group of its response key, opening a group for a new key.
fn add_field<'a>(groups: &mut Vec<(String, Vec<&'a Field>)>, f: &'a Field, Ghost(fs): Ghost<Seq<Field>>)
    requires
        grouped(old(groups)@, fs),
    ensures
        grouped(final(groups)@, fs.push(*f)),
{
    let key = f.key().clone();
    let ghost g0 = groups@;
    let ghost fs2 = fs.push(*f);
    proof {
        assert(fs2.drop_last() =~= fs);
        lemma_first_keys(fs);
        assert forall|k: Seq<char>| #[trigger] with_key(fs2, k) == (if f.response_key() == k {
            with_key(fs, k).push(*f)
        } else {
            with_key(fs, k)
        }) by {}
    }
    match find_index(groups, &key) {
        Some(j) => {
            let (k, mut v) = groups.remove(j);
            v.push(f);
            groups.insert(j, (k, v));
            proof {
                assert(groups@ =~= g0.update(j as int, (k, v)));
                assert(first_keys(fs).contains(key@)) by {
                    assert(g0[j as int].0@ == first_keys(fs)[j as int]);
                }
                assert(first_keys(fs2) == first_keys(fs));
                assert forall|i: int| 0 <= i < groups@.len() implies (#[trigger] groups@[i]).0@
                    == first_keys(fs2)[i] && deref_fields(groups@[i].1@) == with_key(fs2, groups@[i].0@) by {
                    if i == j as int {
                        assert(deref_fields(v@) =~= deref_fields(g0[i].1@).push(*f));
                    } else {
                        lemma_first_keys(fs);
                        assert(g0[i].0@ != key@) by {
                            assert(first_keys(fs)[i] != first_keys(fs)[j as int]);
                        }
                    }
                }
            }
        },
        None => {
            let v = vec![f];
            groups.push((key, v));
            proof {
                assert(!first_keys(fs).contains(key@)) by {
                    if first_keys(fs).contains(key@) {
                        let i = first_keys(fs).index_of(key@);
                        assert(g0[i].0@ == key@);
                        crate::entries::lemma_lookup_some(g0, key@);
                    }
                }
                assert(first_keys(fs2) == first_keys(fs).push(key@));
                assert forall|i: int| 0 <= i < groups@.len() implies (#[trigger] groups@[i]).0@
                    == first_keys(fs2)[i] && deref_fields(groups@[i].1@) == with_key(fs2, groups@[i].0@) by {
                    if i == g0.len() {
                        assert(with_key(fs, key@).len() == 0);
                        assert(deref_fields(v@) =~= seq![*f]);
                        assert(with_key(fs, key@) =~= Seq::<Field>::empty());
                    } else {
                        assert(groups@[i] == g0[i]);
                        assert(g0[i].0@ != key@) by {
                            assert(first_keys(fs).contains(first_keys(fs)[i]));
                        }
                    }
                }
            }
        },
    }
}

/// Groups, after those already in `groups` (which group `fs`), the fields
/// that `sels` selects.
fn collect_into<'a>(
    doc: &'a Document,
    groups: &mut Vec<(String, Vec<&'a Field>)>,
    sels: &'a Vec<Selection>,
    depth: usize,
    Ghost(fs): Ghost<Seq<Field>>,
)
    requires
        grouped(old(groups)@, fs),
    ensures
        grouped(final(groups)@, fs + flat_in(*doc, sels@, depth as nat)),
    decreases depth, sels@,
{
    let mut i: usize = 0;
    assert(sels@.subrange(0, 0) =~= Seq::<Selection>::empty());
    assert(fs + Seq::<Field>::empty() =~= fs);
    while i < sels.len()
        invariant
            i <= sels@.len(),
            grouped(groups@, fs + flat_in(*doc, sels@.subrange(0, i as int), depth as nat)),
        decreases sels@.len() - i,
    {
        let ghost pre = fs + flat_in(*doc, sels@.subrange(0, i as int), depth as nat);
        proof {
            lemma_flat_in_step(*doc, sels@, i as int, depth as nat);
            assert(fs + flat_in(*doc, sels@.subrange(0, i + 1), depth as nat) =~= pre
                + flat_of_selection(*doc, sels@[i as int], depth as nat));
        }
        match &sels[i] {
            Selection::Field(f) => {
                add_field(groups, f, Ghost(pre));
                assert(pre.push(*f) =~= pre + seq![*f]);
            },
            Selection::InlineFragment(ss) => {
                assert(decreases_to!(sels@ => ss.selections@)) by {
                    assert(decreases_to!(sels@ => sels@[i as int]));
                    assert(decreases_to!(ss => ss.selections));
                };
                collect_into(doc, groups, &ss.selections, depth, Ghost(pre));
            },
            Selection::FragmentSpread(name) => {
                let mut found = false;
                if depth > 0 {
                    match find_index(&doc.fragments, name) {
                        Some(j) => {
                            collect_into(doc, groups, &doc.fragments[j].1.selections, depth - 1, Ghost(pre));
                            found = true;
                        },
                        None => {},
                    }
                }
                if !found {
                    assert(pre + Seq::<Field>::empty() =~= pre);
                }
            },
        }
        i += 1;
    }
    assert(sels@.subrange(0, sels@.len() as int) =~= sels@);
}

/// `j` is a value that generator `g` may produce.
pub open spec fn scalar_value_ok(g: ScalarGenerator, j: Json) -> bool {
    match g {
        ScalarGenerator::Bool => j is Bool,
        ScalarGenerator::Int { min, max } => match j {
            Json::Int(v) => min <= v <= max,
            _ => false,
        },
        ScalarGenerator::Float { min_bits, max_bits } => j == (Json::FloatIn { min_bits, max_bits }),
        ScalarGenerator::String { min_len, max_len } => match j {
            Json::Str(s) => min_len <= s@.len() <= max_len,
            _ => false,
        },
    }
}

impl ScalarGenerator {
    /// Draws a value: a uniform boolean, an integer in `[min, max]`, a string
    /// of `min_len` to `max_len` arbitrary characters, or a float to be drawn
    /// in `[min, max]`.
    pub fn generate(&self) -> (r: Json)
        requires
            self.wf(),
        ensures
            scalar_value_ok(*self, r),
    {
        match *self {
            ScalarGenerator::Bool => Json::Bool(ratio_hit((1, 2))),
            ScalarGenerator::Int { min, max } => Json::Int(i32_in(min, max) as i64),
            ScalarGenerator::Float { min_bits, max_bits } => Json::FloatIn { min_bits, max_bits },
            ScalarGenerator::String { min_len, max_len } => {
                let len = usize_in(min_len, max_len);
                let mut chars: Vec<char> = Vec::new();
                let mut i: usize = 0;
                while i < len
                    invariant
                        i <= len,
                        chars@.len() == i,
                    decreases len - i,
                {
                    chars.push(any_char());
                    i += 1;
                }
                Json::Str(string_from_chars(&chars))
            },
        }
    }
}

/// The decimal digit `d`.
pub open spec fn digit(d: int) -> char {
    seq!['0', '1', '2', '3', '4', '5', '6', '7', '8', '9'][d]
}

/// The decimal digits of `n`, most significant first.
pub open spec fn digits(n: nat) -> Seq<char>
    decreases n,
{
    if n < 10 {
        seq![digit(n as int)]
    } else {
        digits(n / 10).push(digit((n % 10) as int))
    }
}

/// The decimal form of `v`, with a leading `-` when negative.
pub open spec fn decimal(v: int) -> Seq<char> {
    if v < 0 {
        seq!['-'] + digits((-v) as nat)
    } else {
        digits(v as nat)
    }
}

/// Relies on `ToString` for `i32` (through its `Display`): the decimal
/// digits, with a leading `-` for a negative number.
#[verifier::external_body]
fn int_text(v: i32) -> (r: String)
    ensures
        r@ == decimal(v as int),
{
    v.to_string()
}

/// `j` is a value that a leaf of the named type may take. `ID` values drawn
/// from an integer generator are written as strings of their decimal form.
pub open spec fn leaf_value_ok(
    schema: SchemaTypes,
    cfg: ResponseGenerationConfig,
    name: Seq<char>,
    j: Json,
) -> bool {
    match lookup(schema.types@, name) {
        Some(TypeDef::Scalar) => match cfg.generator_spec(name) {
            ScalarGenerator::Int { min, max } if name == "ID"@ => match j {
                Json::Str(s) => exists|v: int| min <= v <= max && s@ == decimal(v),
                _ => false,
            },
            g => scalar_value_ok(g, j),
        },
        Some(TypeDef::Enum(values)) => match j {
            Json::Str(s) => exists|i: int| 0 <= i < values@.len() && #[trigger] values@[i]@ == s@,
            _ => false,
        },
        _ => false,
    }
}

/// Whether a leaf of the named type can be synthesized: a scalar, or an enum
/// with at least one value.
pub open spec fn leaf_possible(schema: SchemaTypes, name: Seq<char>) -> bool {
    match lookup(schema.types@, name) {
        Some(TypeDef::Scalar) => true,
        Some(TypeDef::Enum(values)) => values@.len() > 0,
        _ => false,
    }
}

/// The value of the `_service` field: `{ sdl: <the schema source> }`.
pub open spec fn is_service_value(j: Json, sdl: Seq<char>) -> bool {
    j matches Json::Object(entries) && entries@.len() == 1 && entries@[0].0@ == "sdl"@ && (
    entries@[0].1 matches Json::Str(s) && s@ == sdl)
}

/// The value of the `_service` field: `{ sdl: <the schema source> }`.
pub fn service_object(sdl: &String) -> (r: Json)
    ensures
        is_service_value(r, sdl@),
{
    let mut entries: Vec<(String, Json)> = Vec::new();
    let name = String::from_str("sdl");
    proof {
        reveal_strlit("sdl");
    }
    entries.push((name, Json::Str(sdl.clone())));
    Json::Object(entries)
}

/// Synthesizes responses for the operations of one document against one
/// schema.
pub struct ResponseBuilder<'a> {
    pub doc: &'a Document,
    pub schema: &'a SchemaTypes,
    pub cfg: &'a ResponseGenerationConfig,
    /// The schema's source text, served by `_service { sdl }`.
    pub sdl: &'a String,
}

/// The selection sets of a group of fields, which together make the nested
/// object's selections.
pub open spec fn sub_sets(fields: Seq<Field>) -> Seq<SelectionSet> {
    fields.map_values(|f: Field| f.selection_set)
}

impl<'a> ResponseBuilder<'a> {
    pub fn new(
        doc: &'a Document,
        schema: &'a SchemaTypes,
        cfg: &'a ResponseGenerationConfig,
        sdl: &'a String,
    ) -> (r: ResponseBuilder<'a>)
        ensures
            r.doc == doc,
            r.schema == schema,
            r.cfg == cfg,
            r.sdl == sdl,
    {
        ResponseBuilder { doc, schema, cfg, sdl }
    }

    /// The fields that the selection sets `sets` select together.
    pub open spec fn fields_of(&self, sets: Seq<SelectionSet>) -> Seq<Field> {
        flat_of_sets(*self.doc, sets, self.doc.fragments@.len())
    }

    /// The keys of the object built from `sets`, in order.
    pub open spec fn object_keys(&self, sets: Seq<SelectionSet>) -> Seq<Seq<char>> {
        first_keys(self.fields_of(sets))
    }

    /// `o` is an object for `sets` on the type named `ty`: one entry per
    /// response key, in order of first occurrence, each valued as
    /// `value_ok` says for the fields under that key.
    pub open spec fn obj_ok(&self, sets: Seq<SelectionSet>, ty: Seq<char>, fuel: nat, o: Seq<(String, Json)>) -> bool
        decreases fuel, 1nat,
    {
        let fs = self.fields_of(sets);
        let ks = first_keys(fs);
        &&& fuel > 0
        &&& o.len() == ks.len()
        &&& forall|i: int|
            0 <= i < o.len() ==> (#[trigger] o[i]).0@ == ks[i] && self.value_ok(with_key(fs, ks[i]), ty, fuel, o[i].1)
    }

    /// `v` is a value for the fields `fields` (of one response key, the first
    /// supplying the declared type) in an object of the type named `ty`.
    pub open spec fn value_ok(&self, fields: Seq<Field>, ty: Seq<char>, fuel: nat, v: Json) -> bool
        decreases fuel, 0nat,
    {
        let f = fields[0];
        if fuel == 0 {
            false
        } else if f.name@ == "__typename"@ {
            v matches Json::Str(s) && s@ == ty
        } else if f.name@ == "_service"@ {
            is_service_value(v, self.sdl@)
        } else if v is Null {
            !f.ty.non_null() && self.cfg.null_ratio is Some
        } else if f.selection_set.selections@.len() > 0 {
            let subs = sub_sets(fields);
            let sty = f.selection_set.ty@;
            if f.ty.list() {
                v matches Json::Array(items) && self.cfg.array.min_length <= items@.len()
                    <= self.cfg.array.max_length && forall|i: int|
                    0 <= i < items@.len() ==> (#[trigger] items@[i] matches Json::Object(o)
                        && self.obj_ok(subs, sty, (fuel - 1) as nat, o@))
            } else {
                v matches Json::Object(o) && self.obj_ok(subs, sty, (fuel - 1) as nat, o@)
            }
        } else if f.ty.list() {
            v matches Json::Array(items) && self.cfg.array.min_length <= items@.len()
                <= self.cfg.array.max_length && forall|i: int|
                0 <= i < items@.len() ==> leaf_value_ok(
                    *self.schema,
                    *self.cfg,
                    f.ty.inner_name(),
                    #[trigger] items@[i],
                )
        } else {
            leaf_value_ok(*self.schema, *self.cfg, f.ty.inner_name(), v)
        }
    }

    /// Whether an object for `sets` can be synthesized within `fuel` levels:
    /// every leaf reached is a scalar or an enum with values.
    pub open spec fn obj_possible(&self, sets: Seq<SelectionSet>, fuel: nat) -> bool
        decreases fuel, 1nat,
    {
        let fs = self.fields_of(sets);
        let ks = first_keys(fs);
        fuel > 0 && forall|i: int| 0 <= i < ks.len() ==> self.field_possible(#[trigger] with_key(fs, ks[i]), fuel)
    }

    pub open spec fn field_possible(&self, fields: Seq<Field>, fuel: nat) -> bool
        decreases fuel, 0nat,
    {
        let f = fields[0];
        if fuel == 0 {
            false
        } else if f.name@ == "__typename"@ || f.name@ == "_service"@ {
            true
        } else if f.selection_set.selections@.len() > 0 {
            self.obj_possible(sub_sets(fields), (fuel - 1) as nat)
        } else {
            leaf_possible(*self.schema, f.ty.inner_name())
        }
    }

    /// A null draw for a nullable field: never without a null ratio.
    pub fn should_be_null(&self) -> (r: bool)
        requires
            self.cfg.wf(),
        ensures
            self.cfg.null_ratio is None ==> !r,
            (self.cfg.null_ratio matches Some(x) && x.0 == 0) ==> !r,
            (self.cfg.null_ratio matches Some(x) && x.0 == x.1) ==> r,
    {
        match self.cfg.null_ratio {
            Some(ratio) => ratio_hit(ratio),
            None => false,
        }
    }

    /// A value for a leaf of a type where one is possible.
    fn leaf_value(&self, tname: &String) -> (r: Json)
        requires
            self.cfg.wf(),
            leaf_possible(*self.schema, tname@),
        ensures
            leaf_value_ok(*self.schema, *self.cfg, tname@, r),
    {
        match find_index(&self.schema.types, tname) {
            Some(i) => match &self.schema.types[i].1 {
                TypeDef::Enum(values) => {
                    let k = usize_in(0, values.len() - 1);
                    let v = values[k].clone();
                    assert(values@[k as int]@ == v@);
                    Json::Str(v)
                },
                TypeDef::Scalar => {
                    let g = self.cfg.generator_for(tname);
                    proof {
                        if let Some(x) = lookup(self.cfg.scalars@, tname@) {
                            crate::entries::lemma_lookup_some(self.cfg.scalars@, tname@);
                        }
                    }
                    let id = String::from_str("ID");
                    match g {
                        ScalarGenerator::Int { min, max } => {
                            if *tname == id {
                                let v = i32_in(min, max);
                                return Json::Str(int_text(v));
                            }
                        },
                        _ => {},
                    }
                    g.generate()
                },
                TypeDef::Composite => Json::Null,
            },
            None => Json::Null,
        }
    }

    /// A value for a field of the named scalar or enum type.
    pub fn leaf_field(&self, tname: &String) -> (r: Result<Json, SynthError>)
        requires
            self.cfg.wf(),
        ensures
            r is Ok <==> leaf_possible(*self.schema, tname@),
            match r {
                Ok(j) => leaf_value_ok(*self.schema, *self.cfg, tname@, j),
                Err(e) => e == SynthError::EmptyEnum(*tname) || e == SynthError::NotALeaf(*tname),
            },
    {
        match self.leaf_check(tname) {
            Ok(()) => Ok(self.leaf_value(tname)),
            Err(e) => Err(e),
        }
    }

    fn leaf_check(&self, tname: &String) -> (r: Result<(), SynthError>)
        ensures
            r is Ok <==> leaf_possible(*self.schema, tname@),
            match r {
                Ok(_) => true,
                Err(e) => e == SynthError::EmptyEnum(*tname) || e == SynthError::NotALeaf(*tname),
            },
    {
        match find_index(&self.schema.types, tname) {
            Some(i) => match &self.schema.types[i].1 {
                TypeDef::Enum(values) => {
                    if values.len() == 0 {
                        Err(SynthError::EmptyEnum(tname.clone()))
                    } else {
                        Ok(())
                    }
                },
                TypeDef::Scalar => Ok(()),
                TypeDef::Composite => Err(SynthError::NotALeaf(tname.clone())),
            },
            None => Err(SynthError::NotALeaf(tname.clone())),
        }
    }

    fn leaf_array(&self, tname: &String) -> (r: Json)
        requires
            self.cfg.wf(),
            leaf_possible(*self.schema, tname@),
        ensures
            r matches Json::Array(items) && self.cfg.array.min_length <= items@.len()
                <= self.cfg.array.max_length && forall|i: int|
                0 <= i < items@.len() ==> leaf_value_ok(*self.schema, *self.cfg, tname@, #[trigger] items@[i]),
    {
        let n = self.arbitrary_array_len();
        let mut items: Vec<Json> = Vec::new();
        let mut i: usize = 0;
        while i < n
            invariant
                i <= n,
                items@.len() == i,
                self.cfg.wf(),
                leaf_possible(*self.schema, tname@),
                forall|t: int| 0 <= t < i ==> leaf_value_ok(*self.schema, *self.cfg, tname@, #[trigger] items@[t]),
            decreases n - i,
        {
            items.push(self.leaf_value(tname));
            i += 1;
        }
        Json::Array(items)
    }

    /// A list of values for a field of a list of the named leaf type, its
    /// length drawn from the configured range.
    pub fn array_leaf_field(&self, tname: &String) -> (r: Result<Json, SynthError>)
        requires
            self.cfg.wf(),
        ensures
            r is Ok <==> leaf_possible(*self.schema, tname@),
            match r {
                Ok(Json::Array(items)) => self.cfg.array.min_length <= items@.len()
                    <= self.cfg.array.max_length && forall|i: int|
                    0 <= i < items@.len() ==> leaf_value_ok(
                        *self.schema,
                        *self.cfg,
                        tname@,
                        #[trigger] items@[i],
                    ),
                Ok(_) => false,
                Err(_) => true,
            },
    {
        match self.leaf_check(tname) {
            Ok(()) => Ok(self.leaf_array(tname)),
            Err(e) => Err(e),
        }
    }

    /// A list length drawn from the configured range.
    pub fn arbitrary_array_len(&self) -> (r: usize)
        requires
            self.cfg.wf(),
        ensures
            self.cfg.array.min_length <= r <= self.cfg.array.max_length,
    {
        usize_in(self.cfg.array.min_length, self.cfg.array.max_length)
    }
}

proof fn lemma_obj_keys_unique(b: ResponseBuilder, sets: Seq<SelectionSet>, ty: Seq<char>, fuel: nat, o: Seq<(String, Json)>)
    requires
        b.obj_ok(sets, ty, fuel, o),
    ensures
        keys_unique(o),
{
    lemma_first_keys(b.fields_of(sets));
    let ks = first_keys(b.fields_of(sets));
    assert forall|i: int, j: int| 0 <= i < j < o.len() implies #[trigger] o[i].0@ != #[trigger] o[j].0@ by {
        assert(o[i].0@ == ks[i]);
        assert(o[j].0@ == ks[j]);
    }
}

proof fn lemma_leaf_not_null(schema: SchemaTypes, cfg: ResponseGenerationConfig, name: Seq<char>, j: Json)
    requires
        leaf_value_ok(schema, cfg, name, j),
    ensures
        !(j is Null),
{
}

proof fn lemma_flat_of_sets_step(doc: Document, sets: Seq<SelectionSet>, i: int, depth: nat)
    requires
        0 <= i < sets.len(),
    ensures
        flat_of_sets(doc, sets.subrange(0, i + 1), depth) == flat_of_sets(doc, sets.subrange(0, i), depth)
            + flat_in(doc, sets[i].selections@, depth),
{
    assert(sets.subrange(0, i + 1).drop_last() =~= sets.subrange(0, i));
}

impl<'a> ResponseBuilder<'a> {
    /// Groups by response key the fields that the selection sets `sets`
    /// select together, in order of first occurrence.
    pub fn collect_fields(&self, sets: &Vec<&'a SelectionSet>) -> (r: Vec<(String, Vec<&'a Field>)>)
        ensures
            grouped(r@, self.fields_of(deref_sets(sets@))),
    {
        let mut groups: Vec<(String, Vec<&'a Field>)> = Vec::new();
        let depth = self.doc.fragments.len();
        let ghost ds = deref_sets(sets@);
        let mut i: usize = 0;
        assert(ds.subrange(0, 0) =~= Seq::<SelectionSet>::empty());
        while i < sets.len()
            invariant
                i <= sets@.len(),
                ds == deref_sets(sets@),
                depth == self.doc.fragments@.len(),
                grouped(groups@, flat_of_sets(*self.doc, ds.subrange(0, i as int), depth as nat)),
            decreases sets@.len() - i,
        {
            proof {
                lemma_flat_of_sets_step(*self.doc, ds, i as int, depth as nat);
            }
            collect_into(
                self.doc,
                &mut groups,
                &sets[i].selections,
                depth,
                Ghost(flat_of_sets(*self.doc, ds.subrange(0, i as int), depth as nat)),
            );
            i += 1;
        }
        assert(ds.subrange(0, ds.len() as int) =~= ds);
        groups
    }

    /// The selection sets of a group of fields.
    fn subs_of(fields: &Vec<&'a Field>) -> (r: Vec<&'a SelectionSet>)
        ensures
            deref_sets(r@) == sub_sets(deref_fields(fields@)),
    {
        let mut subs: Vec<&'a SelectionSet> = Vec::new();
        let mut t: usize = 0;
        while t < fields.len()
            invariant
                t <= fields@.len(),
                subs@.len() == t,
                forall|u: int| 0 <= u < t ==> *subs@[u] == (#[trigger] fields@[u]).selection_set,
            decreases fields@.len() - t,
        {
            subs.push(&fields[t].selection_set);
            t += 1;
        }
        assert(deref_sets(subs@) =~= sub_sets(deref_fields(fields@)));
        subs
    }

    /// Tells whether an object for `sets` can be synthesized within `fuel`
    /// levels, and if not, why.
    pub fn check(&self, sets: &Vec<&'a SelectionSet>, fuel: usize) -> (r: Result<(), SynthError>)
        ensures
            r is Ok <==> self.obj_possible(deref_sets(sets@), fuel as nat),
        decreases fuel,
    {
        if fuel == 0 {
            return Err(SynthError::TooDeep);
        }
        let groups = self.collect_fields(sets);
        let ghost fs = self.fields_of(deref_sets(sets@));
        let ghost ks = first_keys(fs);
        let typename = String::from_str("__typename");
        let service = String::from_str("_service");
        proof {
            lemma_grouped_keys(groups@, fs);
        }
        let mut i: usize = 0;
        while i < groups.len()
            invariant
                i <= groups@.len(),
                fuel > 0,
                fs == self.fields_of(deref_sets(sets@)),
                ks == first_keys(fs),
                grouped(groups@, fs),
                typename@ == "__typename"@,
                service@ == "_service"@,
                forall|g: int| 0 <= g < groups@.len() ==> (#[trigger] groups@[g]).1@.len() > 0,
                forall|t: int| 0 <= t < i ==> self.field_possible(#[trigger] with_key(fs, ks[t]), fuel as nat),
            decreases groups@.len() - i,
        {
            let fields = &groups[i].1;
            let meta: &Field = fields[0];
            let ghost wk = with_key(fs, ks[i as int]);
            assert(deref_fields(fields@) == wk);
            assert(wk[0] == *meta);
            if meta.name == typename || meta.name == service {
            } else if meta.selection_set.selections.len() > 0 {
                let subs = Self::subs_of(fields);
                if let Err(e) = self.check(&subs, fuel - 1) {
                    return Err(e);
                }
            } else {
                if let Err(e) = self.leaf_check(meta.ty.inner_named_type()) {
                    return Err(e);
                }
            }
            i += 1;
        }
        Ok(())
    }

    /// Builds the object for `sets`, which `check` accepted.
    fn build(&self, sets: &Vec<&'a SelectionSet>, ty: &String, fuel: usize) -> (r: Vec<(String, Json)>)
        requires
            self.cfg.wf(),
            self.obj_possible(deref_sets(sets@), fuel as nat),
        ensures
            self.obj_ok(deref_sets(sets@), ty@, fuel as nat, r@),
        decreases fuel,
    {
        let groups = self.collect_fields(sets);
        let ghost fs = self.fields_of(deref_sets(sets@));
        let ghost ks = first_keys(fs);
        let typename = String::from_str("__typename");
        let service = String::from_str("_service");
        proof {
            lemma_grouped_keys(groups@, fs);
        }
        let mut result: Vec<(String, Json)> = Vec::new();
        let mut i: usize = 0;
        while i < groups.len()
            invariant
                i <= groups@.len(),
                fuel > 0,
                self.cfg.wf(),
                fs == self.fields_of(deref_sets(sets@)),
                ks == first_keys(fs),
                grouped(groups@, fs),
                self.obj_possible(deref_sets(sets@), fuel as nat),
                typename@ == "__typename"@,
                service@ == "_service"@,
                forall|g: int| 0 <= g < groups@.len() ==> (#[trigger] groups@[g]).1@.len() > 0,
                result@.len() == i,
                forall|t: int|
                    0 <= t < i ==> (#[trigger] result@[t]).0@ == ks[t] && self.value_ok(
                        with_key(fs, ks[t]),
                        ty@,
                        fuel as nat,
                        result@[t].1,
                    ),
            decreases groups@.len() - i,
        {
            let fields = &groups[i].1;
            let meta: &Field = fields[0];
            let ghost wk = with_key(fs, ks[i as int]);
            assert(deref_fields(fields@) == wk);
            assert(wk[0] == *meta);
            assert(self.field_possible(wk, fuel as nat));
            let val = if meta.name == typename {
                Json::Str(ty.clone())
            } else if meta.name == service {
                service_object(self.sdl)
            } else if !meta.ty.is_non_null() && self.should_be_null() {
                Json::Null
            } else if meta.selection_set.selections.len() > 0 {
                let subs = Self::subs_of(fields);
                let sub_ty = &meta.selection_set.ty;
                if meta.ty.is_list() {
                    let n = self.arbitrary_array_len();
                    let mut items: Vec<Json> = Vec::new();
                    let mut c: usize = 0;
                    while c < n
                        invariant
                            c <= n,
                            n <= self.cfg.array.max_length,
                            self.cfg.wf(),
                            fuel > 1,
                            items@.len() == c,
                            self.obj_possible(deref_sets(subs@), (fuel - 1) as nat),
                            forall|u: int|
                                0 <= u < c ==> (#[trigger] items@[u] matches Json::Object(o)
                                    && self.obj_ok(deref_sets(subs@), sub_ty@, (fuel - 1) as nat, o@)),
                        decreases n - c,
                    {
                        let o = self.build(&subs, sub_ty, fuel - 1);
                        items.push(Json::Object(o));
                        c += 1;
                    }
                    Json::Array(items)
                } else {
                    Json::Object(self.build(&subs, sub_ty, fuel - 1))
                }
            } else if meta.ty.is_list() {
                self.leaf_array(meta.ty.inner_named_type())
            } else {
                let v = self.leaf_value(meta.ty.inner_named_type());
                proof {
                    lemma_leaf_not_null(*self.schema, *self.cfg, meta.ty.inner_name(), v);
                }
                v
            };
            assert(self.value_ok(wk, ty@, fuel as nat, val));
            result.push((groups[i].0.clone(), val));
            i += 1;
        }
        result
    }

    /// The object for the selection sets `sets` on the type named `ty`: one
    /// entry per response key, in order of first occurrence, each valued as
    /// `value_ok` says. It fails exactly when some leaf reached is neither a
    /// scalar nor an enum with values, or objects nest deeper than `fuel`.
    pub fn selection_set(&self, sets: &Vec<&'a SelectionSet>, ty: &String, fuel: usize) -> (r: Result<
        Vec<(String, Json)>,
        SynthError,
    >)
        requires
            self.cfg.wf(),
        ensures
            r is Ok <==> self.obj_possible(deref_sets(sets@), fuel as nat),
            match r {
                Ok(obj) => self.obj_ok(deref_sets(sets@), ty@, fuel as nat, obj@),
                Err(_) => true,
            },
    {
        match self.check(sets, fuel) {
            Ok(()) => Ok(self.build(sets, ty, fuel)),
            Err(e) => Err(e),
        }
    }
}

/// A GraphQL error entry: a message, and for a field error the top-level
/// response key it stands for.
#[derive(Debug, Clone, PartialEq, Eq)]
pub struct GraphQLError {
    pub message: String,
    pub path: Option<String>,
}

/// The body of a GraphQL response: `data`, and `errors` when there are any.
#[derive(Debug)]
pub struct GraphQLResponse {
    pub data: Option<Vec<(String, Json)>>,
    pub errors: Option<Vec<GraphQLError>>,
}

/// The top-level keys that the errors report as dropped.
pub open spec fn error_paths(es: Seq<GraphQLError>) -> Set<Seq<char>> {
    Set::new(
        |k: Seq<char>|
            exists|i: int| 0 <= i < es.len() && (#[trigger] es[i]).path is Some && es[i].path.unwrap()@ == k,
    )
}

pub open spec fn field_errors_shape(es: Seq<GraphQLError>) -> bool {
    forall|i: int|
        0 <= i < es.len() ==> (#[trigger] es[i]).path is Some && es[i].message@
            == "Field error simulated"@
}

/// Some entry of the first `n` of `d` is `e`.
pub open spec fn taken_from(d: Seq<(String, Json)>, n: int, e: (String, Json)) -> bool {
    exists|t: int| 0 <= t < n && d[t] == e
}

/// No two errors report the same key.
pub open spec fn paths_distinct(es: Seq<GraphQLError>) -> bool {
    forall|a: int, b: int|
        0 <= a < b < es.len() ==> (#[trigger] es[a]).path.unwrap()@ != (#[trigger] es[b]).path.unwrap()@
}

/// `kept` and the field errors `es` are what dropping some top-level keys of
/// `full` leaves: kept entries keep their values, each dropped key is
/// reported once, and the two together cover the keys of `full` exactly.
pub open spec fn dropped(full: Seq<(String, Json)>, kept: Seq<(String, Json)>, es: Seq<GraphQLError>) -> bool {
    &&& 1 <= es.len() <= full.len()
    &&& field_errors_shape(es)
    &&& paths_distinct(es)
    &&& keys_unique(kept)
    &&& forall|i: int| 0 <= i < kept.len() ==> #[trigger] taken_from(full, full.len() as int, kept[i])
    &&& key_set(kept).union(error_paths(es)) == key_set(full)
    &&& key_set(kept).disjoint(error_paths(es))
}

/// Drops `data` entries as `drop` marks them, and reports each dropped key as
/// a field error, in the order of `data`.
fn drop_marked(data: Vec<(String, Json)>, drop: &Vec<bool>) -> (r: (Vec<(String, Json)>, Vec<GraphQLError>))
    requires
        drop@.len() == data@.len(),
        keys_unique(data@),
    ensures
        key_set(r.0@) =~= Set::new(|k: Seq<char>| exists|t: int| 0 <= t < data@.len() && !drop@[t] && #[trigger] data@[t].0@ == k),
        error_paths(r.1@) =~= Set::new(|k: Seq<char>| exists|t: int| 0 <= t < data@.len() && drop@[t] && #[trigger] data@[t].0@ == k),
        keys_unique(r.0@),
        field_errors_shape(r.1@),
        r.1@.len() == 0 <==> forall|t: int| 0 <= t < data@.len() ==> !drop@[t],
        r.1@.len() <= data@.len(),
        paths_distinct(r.1@),
        forall|a: int| 0 <= a < r.0@.len() ==> #[trigger] taken_from(data@, data@.len() as int, r.0@[a]),
{
    let ghost d0 = data@;
    let n = data.len();
    let mut rest = data;
    let mut kept: Vec<(String, Json)> = Vec::new();
    let mut errors: Vec<GraphQLError> = Vec::new();
    let mut i: usize = 0;
    while i < n
        invariant
            n == d0.len(),
            drop@.len() == n,
            i <= n,
            rest@ == d0.subrange(i as int, n as int),
            keys_unique(d0),
            key_set(kept@) =~= Set::new(|k: Seq<char>| exists|t: int| 0 <= t < i && !drop@[t] && #[trigger] d0[t].0@ == k),
            error_paths(errors@) =~= Set::new(|k: Seq<char>| exists|t: int| 0 <= t < i && drop@[t] && #[trigger] d0[t].0@ == k),
            forall|a: int, b: int| 0 <= a < b < kept@.len() ==> #[trigger] kept@[a].0@ != #[trigger] kept@[b].0@,
            field_errors_shape(errors@),
            errors@.len() == 0 <==> forall|t: int| 0 <= t < i ==> !drop@[t],
            errors@.len() <= i,
            paths_distinct(errors@),
            forall|a: int| 0 <= a < kept@.len() ==> #[trigger] taken_from(d0, i as int, kept@[a]),
        decreases n - i,
    {
        let (k, v) = rest.remove(0);
        assert((k, v) == d0[i as int]);
        proof {
            assert forall|a: int| 0 <= a < kept@.len() implies #[trigger] taken_from(d0, i + 1, kept@[a]) by {
                assert(taken_from(d0, i as int, kept@[a]));
                let t = choose|t: int| 0 <= t < i && d0[t] == kept@[a];
                assert(0 <= t < i + 1 && d0[t] == kept@[a]);
            }
            assert(!error_paths(errors@).contains(d0[i as int].0@)) by {
                if error_paths(errors@).contains(d0[i as int].0@) {
                    let t = choose|t: int| 0 <= t < i && drop@[t] && #[trigger] d0[t].0@ == d0[i as int].0@;
                    assert(t != i as int);
                }
            }
        }
        if drop[i] {
            let ghost e0 = errors@;
            errors.push(GraphQLError { message: String::from_str("Field error simulated"), path: Some(k) });
            proof {
                assert forall|a: int, b: int| 0 <= a < b < errors@.len() implies (#[trigger] errors@[a]).path.unwrap()@
                    != (#[trigger] errors@[b]).path.unwrap()@ by {
                    if b == e0.len() {
                        assert(errors@[a] == e0[a]);
                        assert(error_paths(e0).contains(e0[a].path.unwrap()@));
                    } else {
                        assert(errors@[a] == e0[a]);
                        assert(errors@[b] == e0[b]);
                    }
                }
                assert forall|x: Seq<char>| error_paths(errors@).contains(x) <==> (exists|t: int| 0 <= t < i + 1 && drop@[t] && #[trigger] d0[t].0@ == x) by {
                    if error_paths(errors@).contains(x) {
                        let a = choose|a: int| 0 <= a < errors@.len() && (#[trigger] errors@[a]).path is Some && errors@[a].path.unwrap()@ == x;
                        if a < e0.len() {
                            assert(e0[a] == errors@[a]);
                            assert(error_paths(e0).contains(x));
                        }
                    }
                    if exists|t: int| 0 <= t < i + 1 && drop@[t] && #[trigger] d0[t].0@ == x {
                        let t = choose|t: int| 0 <= t < i + 1 && drop@[t] && #[trigger] d0[t].0@ == x;
                        if t < i {
                            assert(error_paths(e0).contains(x));
                            let a = choose|a: int| 0 <= a < e0.len() && (#[trigger] e0[a]).path is Some && e0[a].path.unwrap()@ == x;
                            assert(errors@[a] == e0[a]);
                        } else {
                            assert(errors@[e0.len() as int].path.unwrap()@ == x);
                        }
                    }
                }
                assert forall|x: Seq<char>| key_set(kept@).contains(x) <==> (exists|t: int| 0 <= t < i + 1 && !drop@[t] && #[trigger] d0[t].0@ == x) by {
                    if exists|t: int| 0 <= t < i + 1 && !drop@[t] && #[trigger] d0[t].0@ == x {
                        let t = choose|t: int| 0 <= t < i + 1 && !drop@[t] && #[trigger] d0[t].0@ == x;
                        assert(t < i);
                    }
                }
            }
        } else {
            let ghost k0 = kept@;
            kept.push((k, v));
            proof {
                assert forall|a: int| 0 <= a < kept@.len() implies #[trigger] taken_from(d0, i + 1, kept@[a]) by {
                    if a < k0.len() {
                        assert(kept@[a] == k0[a]);
                        assert(taken_from(d0, i + 1, k0[a]));
                    } else {
                        assert(d0[i as int] == kept@[a]);
                    }
                }
                assert forall|a: int| 0 <= a < k0.len() implies #[trigger] k0[a].0@ != d0[i as int].0@ by {
                    assert(key_set(k0).contains(k0[a].0@));
                    let t = choose|t: int| 0 <= t < i && !drop@[t] && #[trigger] d0[t].0@ == k0[a].0@;
                    assert(t != i as int);
                }
                assert forall|a: int, b: int| 0 <= a < b < kept@.len() implies #[trigger] kept@[a].0@ != #[trigger] kept@[b].0@ by {
                    if b == k0.len() {
                        assert(kept@[a] == k0[a]);
                    } else {
                        assert(kept@[a] == k0[a]);
                        assert(kept@[b] == k0[b]);
                    }
                }
                assert forall|x: Seq<char>| key_set(kept@).contains(x) <==> (exists|t: int| 0 <= t < i + 1 && !drop@[t] && #[trigger] d0[t].0@ == x) by {
                    if key_set(kept@).contains(x) {
                        let a = choose|a: int| 0 <= a < kept@.len() && #[trigger] kept@[a].0@ == x;
                        if a < k0.len() {
                            assert(kept@[a] == k0[a]);
                            assert(key_set(k0).contains(x));
                        } else {
                            assert(d0[i as int].0@ == x);
                        }
                    }
                    if exists|t: int| 0 <= t < i + 1 && !drop@[t] && #[trigger] d0[t].0@ == x {
                        let t = choose|t: int| 0 <= t < i + 1 && !drop@[t] && #[trigger] d0[t].0@ == x;
                        if t < i {
                            assert(key_set(k0).contains(x));
                            let a = choose|a: int| 0 <= a < k0.len() && #[trigger] k0[a].0@ == x;
                            assert(kept@[a] == k0[a]);
                        } else {
                            assert(kept@[k0.len() as int].0@ == x);
                        }
                    }
                }
                assert forall|x: Seq<char>| error_paths(errors@).contains(x) <==> (exists|t: int| 0 <= t < i + 1 && drop@[t] && #[trigger] d0[t].0@ == x) by {
                    if exists|t: int| 0 <= t < i + 1 && drop@[t] && #[trigger] d0[t].0@ == x {
                        let t = choose|t: int| 0 <= t < i + 1 && drop@[t] && #[trigger] d0[t].0@ == x;
                        assert(t < i);
                    }
                }
            }
        }
        i += 1;
    }
    (kept, errors)
}

/// Simulates field errors: when the draw on `ratio` hits and `data` is not
/// empty, drops a random non-empty set of its top-level keys and reports each
/// dropped key as a field error. Otherwise `data` comes back unchanged.
pub fn inject_field_errors(data: Vec<(String, Json)>, ratio: Option<(u32, u32)>) -> (r: GraphQLResponse)
    requires
        keys_unique(data@),
        match ratio {
            Some(x) => ratio_ok(x),
            None => true,
        },
    ensures
        r.data is Some,
        keys_unique(r.data.unwrap()@),
        match r.errors {
            None => r.data.unwrap()@ == data@,
            Some(es) => ratio is Some && ratio.unwrap().0 != 0 && dropped(data@, r.data.unwrap()@, es@),
        },
        (ratio is None || data@.len() == 0) ==> r.errors is None,
        (ratio is Some && ratio.unwrap().0 == 0) ==> r.errors is None,
        (ratio is Some && ratio.unwrap().0 == ratio.unwrap().1 && data@.len() > 0) ==> r.errors is Some,
{
    let hit = match ratio {
        Some(x) => data.len() > 0 && ratio_hit(x),
        None => false,
    };
    if !hit {
        return GraphQLResponse { data: Some(data), errors: None };
    }
    let n = data.len();
    let count = usize_in(1, n);
    let picked = crate::random::sample_indices(n, count);
    let mut drop: Vec<bool> = Vec::new();
    let mut i: usize = 0;
    while i < n
        invariant
            i <= n,
            drop@.len() == i,
            forall|t: int| 0 <= t < i ==> !#[trigger] drop@[t],
        decreases n - i,
    {
        drop.push(false);
        i += 1;
    }
    let mut p: usize = 0;
    while p < picked.len()
        invariant
            drop@.len() == n,
            p <= picked@.len(),
            picked@.len() >= 1,
            forall|q: int| 0 <= q < picked@.len() ==> picked@[q] < n,
            p > 0 ==> drop@[picked@[0] as int],
        decreases picked@.len() - p,
    {
        drop.set(picked[p], true);
        p += 1;
    }
    let ghost d0 = data@;
    let (kept, errors) = drop_marked(data, &drop);
    proof {
        assert(drop@[picked@[0] as int]);
        assert(key_set(kept@).union(error_paths(errors@)) =~= key_set(d0)) by {
            assert forall|x: Seq<char>| key_set(d0).contains(x) implies key_set(kept@).union(error_paths(errors@)).contains(x) by {
                let t = choose|t: int| 0 <= t < d0.len() && #[trigger] d0[t].0@ == x;
                if drop@[t] {
                    assert(error_paths(errors@).contains(x));
                } else {
                    assert(key_set(kept@).contains(x));
                }
            }
        }
        assert(key_set(kept@).disjoint(error_paths(errors@))) by {
            assert forall|x: Seq<char>| key_set(kept@).contains(x) implies !error_paths(errors@).contains(x) by {
                let t = choose|t: int| 0 <= t < d0.len() && !drop@[t] && #[trigger] d0[t].0@ == x;
                if error_paths(errors@).contains(x) {
                    let u = choose|u: int| 0 <= u < d0.len() && drop@[u] && #[trigger] d0[u].0@ == x;
                    assert(t != u);
                }
            }
        }
    }
    GraphQLResponse { data: Some(kept), errors: Some(errors) }
}

/// `d` and `errors` are what field-error injection makes of `full`: `full`
/// itself without errors, or the result of a drop.
pub open spec fn full_then(
    full: Seq<(String, Json)>,
    d: Seq<(String, Json)>,
    errors: Option<Vec<GraphQLError>>,
    ratio: Option<(u32, u32)>,
) -> bool {
    match errors {
        None => d == full,
        Some(es) => ratio is Some && ratio.unwrap().0 != 0 && dropped(full, d, es@),
    }
}

/// `es` is the single error of a simulated request failure.
pub open spec fn is_request_error(es: Seq<GraphQLError>) -> bool {
    &&& es.len() == 1
    &&& es[0].message@ == "Request error simulated"@
    &&& es[0].path is None
}

impl<'a> ResponseBuilder<'a> {
    /// The response to the operation whose selection set is `op` (`None`
    /// when the requested operation is not in the document): `data` is null
    /// without an operation or after a simulated request error; otherwise it
    /// holds one entry per selected top-level key, less those dropped by a
    /// simulated field error, each of which an error reports.
    pub fn generate_response(&self, op: Option<&'a SelectionSet>) -> (r: Result<
        GraphQLResponse,
        SynthError,
    >)
        requires
            self.cfg.wf(),
        ensures
            op is None ==> r is Ok && r.unwrap().data is None && r.unwrap().errors is None,
            (op is Some && (self.cfg.graphql_errors.request_error_ratio matches Some(x) && x.0
                == x.1)) ==> r is Ok && r.unwrap().data is None,
            (op is Some && self.obj_possible(seq![*op.unwrap()], MAX_DEPTH as nat)) ==> r is Ok,
            r is Err ==> op is Some && !self.obj_possible(seq![*op.unwrap()], MAX_DEPTH as nat),
            match r {
                Ok(resp) => op is Some ==> match resp.data {
                    None => self.cfg.graphql_errors.request_error_ratio is Some && resp.errors is Some
                        && is_request_error(resp.errors.unwrap()@),
                    Some(d) => exists|full: Seq<(String, Json)>|
                        self.obj_ok(seq![*op.unwrap()], op.unwrap().ty@, MAX_DEPTH as nat, full)
                            && #[trigger] full_then(full, d@, resp.errors, self.cfg.graphql_errors.field_error_ratio),
                },
                Err(_) => true,
            },
    {
        let op = match op {
            Some(o) => o,
            None => {
                return Ok(GraphQLResponse { data: None, errors: None });
            },
        };
        if let Some(ratio) = self.cfg.graphql_errors.request_error_ratio {
            if ratio_hit(ratio) {
                let mut errors: Vec<GraphQLError> = Vec::new();
                errors.push(
                    GraphQLError { message: String::from_str("Request error simulated"), path: None },
                );
                return Ok(GraphQLResponse { data: None, errors: Some(errors) });
            }
        }
        let mut sets: Vec<&'a SelectionSet> = Vec::new();
        sets.push(op);
        assert(deref_sets(sets@) =~= seq![*op]);
        let data = match self.selection_set(&sets, &op.ty, MAX_DEPTH) {
            Ok(d) => d,
            Err(e) => {
                return Err(e);
            },
        };
        let ghost full = data@;
        proof {
            lemma_obj_keys_unique(*self, seq![*op], op.ty@, MAX_DEPTH as nat, full);
        }
        let resp = inject_field_errors(data, self.cfg.graphql_errors.field_error_ratio);
        assert(full_then(full, resp.data.unwrap()@, resp.errors, self.cfg.graphql_errors.field_error_ratio));
        Ok(resp)
    }
}

} // verus!
