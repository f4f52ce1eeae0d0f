//! The library's own view of a validated operation and of the schema types
//! that response synthesis reads.
use vstd::prelude::*;

verus! {

/// A GraphQL type reference as declared on a field.
#[derive(Debug)]
pub enum TypeRef {
    Named(String),
    NonNullNamed(String),
    List(Box<TypeRef>),
    NonNullList(Box<TypeRef>),
}

impl TypeRef {
    pub open spec fn non_null(&self) -> bool {
        self is NonNullNamed || self is NonNullList
    }

    pub open spec fn list(&self) -> bool {
        self is List || self is NonNullList
    }

    /// The named type at the bottom of the reference.
    pub open spec fn inner_name(&self) -> Seq<char>
        decreases self,
    {
        match self {
            TypeRef::Named(n) => n@,
            TypeRef::NonNullNamed(n) => n@,
            TypeRef::List(t) => t.inner_name(),
            TypeRef::NonNullList(t) => t.inner_name(),
        }
    }

    pub fn is_non_null(&self) -> (r: bool)
        ensures
            r == self.non_null(),
    {
        match self {
            TypeRef::NonNullNamed(_) | TypeRef::NonNullList(_) => true,
            _ => false,
        }
    }

    pub fn is_list(&self) -> (r: bool)
        ensures
            r == self.list(),
    {
        match self {
            TypeRef::List(_) | TypeRef::NonNullList(_) => true,
            _ => false,
        }
    }

    pub fn inner_named_type(&self) -> (r: &String)
        ensures
            r@ == self.inner_name(),
        decreases self,
    {
        match self {
            TypeRef::Named(n) => n,
            TypeRef::NonNullNamed(n) => n,
            TypeRef::List(t) => t.inner_named_type(),
            TypeRef::NonNullList(t) => t.inner_named_type(),
        }
    }
}

/// A field selected in an operation, with the type its definition declares.
#[derive(Debug)]
pub struct Field {
    pub alias: Option<String>,
    pub name: String,
    pub ty: TypeRef,
    pub selection_set: SelectionSet,
}

/// The selections made on one type.
#[derive(Debug)]
pub struct SelectionSet {
    /// The name of the type the selections apply to.
    pub ty: String,
    pub selections: Vec<Selection>,
}

#[derive(Debug)]
pub enum Selection {
    Field(Field),
    FragmentSpread(String),
    InlineFragment(SelectionSet),
}

/// The named fragments of an operation's document.
#[derive(Debug)]
pub struct Document {
    pub fragments: Vec<(String, SelectionSet)>,
}

/// What response synthesis needs to know of a schema type.
#[derive(Debug, Clone)]
pub enum TypeDef {
    Scalar,
    /// An enum type with its values, in order.
    Enum(Vec<String>),
    /// Objects, interfaces, unions and input objects.
    Composite,
}

/// The schema's types by name.
#[derive(Debug, Clone)]
pub struct SchemaTypes {
    pub types: Vec<(String, TypeDef)>,
}

impl Field {
    /// The key of the field in the response: its alias, else its name.
    pub open spec fn response_key(&self) -> Seq<char> {
        match self.alias {
            Some(a) => a@,
            None => self.name@,
        }
    }

    pub fn key(&self) -> (r: &String)
        ensures
            r@ == self.response_key(),
    {
        match &self.alias {
            Some(a) => a,
            None => &self.name,
        }
    }
}

} // verus!
