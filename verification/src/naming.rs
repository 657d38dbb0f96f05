//! Name derivation: the type-name casing used for every identifier that the
//! backends emit as a type name.
//!
//! Function names are derived separately: the endpoint id is used verbatim,
//! optionally under a fixed prefix (see `codegen_rust::server::http_endpoint_fn`).

use vstd::prelude::*;

verus! {

/// The Pascal-case rendering of a character sequence. The exact casing rules
/// (word-boundary detection, capitalisation) are those of the outside
/// conversion routine below; the engine relies only on it being a pure
/// function of the characters, so every derived type name is stable.
pub uninterp spec fn pascal_of(s: Seq<char>) -> Seq<char>;

/// Derives the type-name casing of an id.
///
/// Relies on convert_case's `Casing::to_case` with `Case::Pascal`: it splits
/// the input on its default word boundaries and capitalises each word, a
/// computation from the input characters alone.
#[verifier::external_body]
pub(crate) fn pascal_case(id: &str) -> (r: String)
    ensures
        r@ == pascal_of(id@),
{
    convert_case::Casing::to_case(&id, convert_case::Case::Pascal)
}

} // verus!
