//! A validated schema together with the source text it was read from.
use vstd::prelude::*;

verus! {

#[verifier::external_type_specification]
#[verifier::external_body]
pub struct ExSchema(apollo_compiler::Schema);

#[verifier::external_type_specification]
#[verifier::external_body]
#[verifier::reject_recursive_types(T)]
pub struct ExValid<T>(apollo_compiler::validation::Valid<T>);

/// A schema that passed validation after federation patching, and the text
/// it came from, which `_service { sdl }` serves unchanged.
#[derive(Debug)]
pub struct FederatedSchema {
    valid: apollo_compiler::validation::Valid<apollo_compiler::Schema>,
    source: String,
}

impl FederatedSchema {
    pub closed spec fn source_text(&self) -> Seq<char> {
        self.source@
    }

    pub fn new(valid: apollo_compiler::validation::Valid<apollo_compiler::Schema>, source: String) -> (r: FederatedSchema)
        ensures
            r.source_text() == source@,
    {
        FederatedSchema { valid, source }
    }

    /// The source text, as read.
    pub fn sdl(&self) -> (r: &String)
        ensures
            r@ == self.source_text(),
    {
        &self.source
    }

    pub fn valid(&self) -> &apollo_compiler::validation::Valid<apollo_compiler::Schema> {
        &self.valid
    }
}

} // verus!
