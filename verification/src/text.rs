//! Substring predicates and the trusted declarations for the std string
//! operations the engine leans on (`to_lowercase`, `contains`, `replace`,
//! `trim`), none of which vstd specifies.

use vstd::prelude::*;

verus! {

/// True when `needle` occurs as a contiguous run inside `hay`.
pub open spec fn contains_seq(hay: Seq<char>, needle: Seq<char>) -> bool {
    exists|i: int|
        0 <= i && i + needle.len() <= hay.len() && #[trigger] hay.subrange(
            i,
            i + needle.len(),
        ) == needle
}

/// The string that `str::to_lowercase` produces for `s`; it depends on the
/// characters of `s` alone.
pub uninterp spec fn lower_of(s: Seq<char>) -> Seq<char>;

/// The string that `str::replace` produces for `s` with pattern `from` and
/// replacement `to`; it depends on the three arguments alone.
pub uninterp spec fn replaced(s: Seq<char>, from: Seq<char>, to: Seq<char>) -> Seq<char>;

/// The string that `str::trim` produces for `s`: `s` without its leading and
/// trailing whitespace.
pub uninterp spec fn trimmed(s: Seq<char>) -> Seq<char>;

/// Relies on str::to_lowercase: the result is a function of the input
/// characters alone.
#[verifier::external_body]
pub(crate) fn to_lowercase(s: &str) -> (r: String)
    ensures
        r@ == lower_of(s@),
{
    s.to_lowercase()
}

/// Relies on str::contains with a string pattern: true exactly when the
/// pattern occurs as a substring.
#[verifier::external_body]
pub(crate) fn str_contains(hay: &str, needle: &str) -> (r: bool)
    ensures
        r == contains_seq(hay@, needle@),
{
    hay.contains(needle)
}

/// Relies on str::replace: replaces occurrences of the pattern left to right;
/// a string without an occurrence comes back unchanged.
#[verifier::external_body]
pub(crate) fn str_replace(s: &str, from: &str, to: &str) -> (r: String)
    ensures
        r@ == replaced(s@, from@, to@),
        !contains_seq(s@, from@) ==> r@ == s@,
{
    s.replace(from, to)
}

/// Relies on str::trim: removes leading and trailing whitespace, so an empty
/// input stays empty and only an all-whitespace input trims to empty.
#[verifier::external_body]
pub(crate) fn str_trim(s: &str) -> (r: &str)
    ensures
        r@ == trimmed(s@),
        s@.len() == 0 ==> r@.len() == 0,
{
    s.trim()
}

} // verus!
