//! Regular expressions: the searches that the document grammar hands to the
//! `regex` crate, and the names under which contracts speak of what they find.

use vstd::prelude::*;

verus! {

/// The error with which the `regex` crate refuses a pattern.
#[verifier::external_type_specification]
#[verifier::external_body]
pub struct ExRegexError(regex::Error);

/// Whether `regex::Regex::new` accepts `pattern`.
pub uninterp spec fn pattern_accepted(pattern: Seq<char>) -> bool;

/// The groups of the first match that `regex::Regex::captures` finds for
/// `pattern` in `haystack`, group 0 being the whole match; `None` where it
/// finds no match. A group that took no part in the match is `None`.
pub uninterp spec fn first_match(pattern: Seq<char>, haystack: Seq<char>) -> Option<
    Seq<Option<Seq<char>>>,
>;

/// The groups of each match that `regex::Regex::captures_iter` yields for
/// `pattern` in `haystack`, in the order in which it yields them.
pub uninterp spec fn all_matches(pattern: Seq<char>, haystack: Seq<char>) -> Seq<
    Seq<Option<Seq<char>>>,
>;

/// Compiles `pattern` with `regex::Regex::new` and searches `haystack` with
/// `regex::Regex::captures`. The contract claims that the pattern alone
/// decides whether it compiles, and that pattern and haystack decide what is
/// found; it says nothing of what that is.
#[verifier::external_body]
pub(crate) fn captures(pattern: &str, haystack: &str) -> (r: Result<
    Option<Vec<Option<String>>>,
    regex::Error,
>)
    ensures
        r is Ok == pattern_accepted(pattern@),
        r is Ok ==> r->Ok_0.deep_view() == first_match(pattern@, haystack@),
{
    let re = regex::Regex::new(pattern)?;
    let found = re.captures(haystack);
    Ok(found.map(|c| c.iter().map(|m| m.map(|m| m.as_str().to_string())).collect()))
}

/// Compiles `pattern` with `regex::Regex::new` and collects what
/// `regex::Regex::captures_iter` yields on `haystack`. The contract claims
/// that the pattern alone decides whether it compiles, and that pattern and
/// haystack decide what is found; it says nothing of what that is.
#[verifier::external_body]
pub(crate) fn captures_iter(pattern: &str, haystack: &str) -> (r: Result<
    Vec<Vec<Option<String>>>,
    regex::Error,
>)
    ensures
        r is Ok == pattern_accepted(pattern@),
        r is Ok ==> r->Ok_0.deep_view() == all_matches(pattern@, haystack@),
{
    let re = regex::Regex::new(pattern)?;
    let found = re.captures_iter(haystack);
    Ok(found.map(|c| c.iter().map(|m| m.map(|m| m.as_str().to_string())).collect()).collect())
}

} // verus!
