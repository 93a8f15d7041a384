//! Searching text with the `regex` crate.

use vstd::prelude::*;

verus! {

/// The error of the `regex` crate: why a pattern was not accepted.
#[verifier::external_type_specification]
#[verifier::external_body]
pub struct ExRegexError(regex::Error);

/// Whether `pattern` is accepted as a regular expression: it is well formed
/// in the `regex` crate's syntax, and what it compiles to stays within the
/// size limit of the crate's default builder.
pub uninterp spec fn regex_accepts(pattern: Seq<char>) -> bool;

/// What the regular expression `pattern` captures in `haystack`: nothing
/// where no part of `haystack` matches, else the captured text of each group
/// of the first match, in the order in which the groups open. Group 0 is the
/// whole match; a group that took no part in the match holds nothing.
///
/// The meaning of a pattern is that of the `regex` crate's syntax. It is not
/// restated here, so nothing is known of this function beyond that it is one.
pub uninterp spec fn regex_captures(pattern: Seq<char>, haystack: Seq<char>) -> Option<
    Seq<Option<Seq<char>>>,
>;

/// Compiles `pattern` with `regex::Regex::new` and searches `haystack` with
/// `Regex::captures`. The groups of the match are read with
/// `Captures::iter`, each as an owned copy of `Match::as_str`.
///
/// An error is the one that `Regex::new` gave. The contract claims that it
/// comes for no pattern that is accepted, and that what was found depends on
/// the two texts only; it names the two `regex_accepts` and `regex_captures`.
#[verifier::external_body]
pub(crate) fn captures(pattern: &str, haystack: &str) -> (found: Result<
    Option<Vec<Option<String>>>,
    regex::Error,
>)
    ensures
        found is Err ==> !regex_accepts(pattern@),
        found matches Ok(groups) ==> groups.deep_view() == regex_captures(pattern@, haystack@),
{
    let compiled = regex::Regex::new(pattern)?;
    let Some(found) = compiled.captures(haystack) else {
        return Ok(None);
    };
    let groups = found.iter().map(|group| group.map(|m| m.as_str().to_owned()));
    Ok(Some(groups.collect()))
}

} // verus!
