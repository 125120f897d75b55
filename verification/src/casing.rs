use vstd::prelude::*;

verus! {

/// The Title Case form of a name, as the `convert_case` crate computes it.
/// The result depends on the input characters alone.
pub uninterp spec fn title_of(s: Seq<char>) -> Seq<char>;

/// The snake_case form of a name, as the `convert_case` crate computes it.
/// The result depends on the input characters alone.
pub uninterp spec fn snake_of(s: Seq<char>) -> Seq<char>;

/// Relies on convert_case's `Casing::to_case` with `Case::Title`: a pure
/// function of the input string, named `title_of` here.
#[verifier::external_body]
pub(crate) fn title_case(s: &str) -> (r: String)
    ensures
        r@ == title_of(s@),
{
    convert_case::Casing::to_case(&s, convert_case::Case::Title)
}

/// Relies on convert_case's `Casing::to_case` with `Case::Snake`: a pure
/// function of the input string, named `snake_of` here.
#[verifier::external_body]
pub(crate) fn snake_case(s: &str) -> (r: String)
    ensures
        r@ == snake_of(s@),
{
    convert_case::Casing::to_case(&s, convert_case::Case::Snake)
}

} // verus!
