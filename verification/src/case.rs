//! Letter-case conversions of identifiers, done by the `convert_case` crate.

use vstd::prelude::*;

use convert_case::Casing;

verus! {

/// The letter cases the generator converts between.
#[derive(Clone, Copy, Debug, PartialEq, Eq, Structural)]
pub enum Case {
    /// `PascalCase`
    Pascal,
    /// `camelCase`
    Camel,
    /// `snake_case`
    Snake,
}

/// What `s.from_case(from).to_case(to)` of `convert_case` returns: `s` split
/// into words at the boundaries of the case `from`, joined in the case `to`.
pub uninterp spec fn recased(s: Seq<char>, from: Case, to: Case) -> Seq<char>;

/// What `s.to_case(to)` of `convert_case` returns: `s` split into words at
/// every boundary that crate knows, joined in the case `to`.
pub uninterp spec fn cased(s: Seq<char>, to: Case) -> Seq<char>;

/// Calls `convert_case`'s `from_case(from).to_case(to)` on `s`. The result
/// depends on `s`, `from` and `to` alone; the contract names it and says no
/// more of it.
#[verifier::external_body]
pub(crate) fn convert_case(s: &str, from: Case, to: Case) -> (res: String)
    ensures
        res@ == recased(s@, from, to),
{
    let from = match from {
        Case::Pascal => convert_case::Case::Pascal,
        Case::Camel => convert_case::Case::Camel,
        Case::Snake => convert_case::Case::Snake,
    };
    let to = match to {
        Case::Pascal => convert_case::Case::Pascal,
        Case::Camel => convert_case::Case::Camel,
        Case::Snake => convert_case::Case::Snake,
    };
    s.from_case(from).to_case(to)
}

/// Calls `convert_case`'s `is_case(case)` on `s`, which that crate defines
/// as `s.to_case(case) == s`; the contract states exactly that.
#[verifier::external_body]
pub(crate) fn is_case(s: &str, case: Case) -> (res: bool)
    ensures
        res == (cased(s@, case) == s@),
{
    let outside = match case {
        Case::Pascal => convert_case::Case::Pascal,
        Case::Camel => convert_case::Case::Camel,
        Case::Snake => convert_case::Case::Snake,
    };
    s.is_case(outside)
}

} // verus!
