//! Searching text with regular expressions.
//!
//! The searches are made by the `regex` crate. What it answers is not proved
//! here: each search is given a name, and the contracts of this library speak
//! of that name.

use vstd::prelude::*;

use crate::text::text_of;

verus! {

/// Why `regex::Regex::new` refused a pattern. Nothing is said of what the
/// error holds: it is only handed on.
#[verifier::external_type_specification]
#[verifier::external_body]
pub struct ExPatternError(regex::Error);

/// Whether `regex::Regex::new` accepts `pattern`.
pub uninterp spec fn compiles(pattern: Seq<char>) -> bool;

/// What `regex::Regex::find` answers for the expression `pattern` on
/// `haystack`: the text of the first match, if there is a match.
pub uninterp spec fn first_match(pattern: Seq<char>, haystack: Seq<char>) -> Option<Seq<char>>;

/// What `regex::Regex::captures` answers for the expression `pattern` on
/// `haystack`: for the first match, the text of each capture group in the
/// order of their opening brackets, the whole match being group 0, and `None`
/// for a group that took no part in the match.
pub uninterp spec fn first_captures(pattern: Seq<char>, haystack: Seq<char>) -> Option<
    Seq<Option<Seq<char>>>,
>;

/// The values of the capture groups of a match.
pub open spec fn groups_of(groups: Seq<Option<String>>) -> Seq<Option<Seq<char>>> {
    groups.map_values(|g: Option<String>| text_of(g))
}

/// The values of the capture groups of a search that may have found nothing.
pub open spec fn captures_of(groups: Option<Vec<Option<String>>>) -> Option<
    Seq<Option<Seq<char>>>,
> {
    match groups {
        Some(g) => Some(groups_of(g@)),
        None => None,
    }
}

/// Compiles `pattern` with `regex::Regex::new` and searches `haystack` with
/// `regex::Regex::find`.
///
/// Believed, not proved: the search fails exactly when the crate refuses the
/// pattern, and otherwise hands back the text of the match that `find`
/// reports, which is a part of `haystack`.
#[verifier::external_body]
pub(crate) fn find_first(pattern: &str, haystack: &str) -> (found: Result<
    Option<String>,
    regex::Error,
>)
    ensures
        found is Ok <==> compiles(pattern@),
        found matches Ok(text) ==> text_of(text) == first_match(pattern@, haystack@),
        found matches Ok(Some(text)) ==> exists|from: int, to: int|
            0 <= from <= to <= haystack@.len() && text@ == #[trigger] haystack@.subrange(from, to),
{
    Ok(regex::Regex::new(pattern)?.find(haystack).map(|m| m.as_str().to_owned()))
}

/// Compiles `pattern` with `regex::Regex::new` and searches `haystack` with
/// `regex::Regex::captures`.
///
/// Believed, not proved: the search fails exactly when the crate refuses the
/// pattern, and otherwise hands back the groups that `captures` reports.
#[verifier::external_body]
pub(crate) fn capture_first(pattern: &str, haystack: &str) -> (found: Result<
    Option<Vec<Option<String>>>,
    regex::Error,
>)
    ensures
        found is Ok <==> compiles(pattern@),
        found matches Ok(groups) ==> captures_of(groups) == first_captures(pattern@, haystack@),
{
    Ok(
        regex::Regex::new(pattern)?.captures(haystack).map(
            |c| c.iter().map(|g| g.map(|m| m.as_str().to_owned())).collect(),
        ),
    )
}

} // verus!
