//! Regular expressions, as the `regex` crate matches them.
//!
//! What a pattern matches is not defined here: it is named, by
//! `regex_captures`, and the contracts of the library speak of that name.
//! Nothing in this module is proved; it states what is taken on trust.

use vstd::prelude::*;
use crate::target::text_of;

verus! {

/// A compiled regular expression of the `regex` crate.
#[verifier::external_type_specification]
#[verifier::external_body]
pub struct ExRegex(regex::Regex);

/// The error with which the `regex` crate refuses a pattern.
#[verifier::external_type_specification]
#[verifier::external_body]
pub struct ExRegexError(regex::Error);

/// Whether the `regex` crate accepts `pattern`: whether `regex::Regex::new`
/// compiles it.
pub uninterp spec fn regex_accepts(pattern: Seq<char>) -> bool;

/// The pattern that `re` was compiled from: what `regex::Regex::as_str`
/// gives.
pub uninterp spec fn pattern_of(re: regex::Regex) -> Seq<char>;

/// What `regex::Regex::captures_iter` yields for `pattern` in `text`: the
/// successive non-overlapping matches, from left to right; each match is
/// given by the text of its capture groups, the whole match first, with
/// `None` for a group that took no part.
pub uninterp spec fn regex_captures(pattern: Seq<char>, text: Seq<char>) -> Seq<
    Seq<Option<Seq<char>>>,
>;

/// The text of capture group `i` of the match `m`, where that group exists
/// and took part in the match.
pub open spec fn group(m: Seq<Option<Seq<char>>>, i: int) -> Option<Seq<char>> {
    if 0 <= i < m.len() {
        m[i]
    } else {
        None
    }
}

/// The groups of one match, as texts.
pub open spec fn groups_view(m: Seq<Option<String>>) -> Seq<Option<Seq<char>>> {
    Seq::new(m.len(), |i: int| text_of(m[i]))
}

/// The matches found in one text, each as the texts of its groups.
pub open spec fn matches_view(ms: Seq<Vec<Option<String>>>) -> Seq<Seq<Option<Seq<char>>>> {
    Seq::new(ms.len(), |i: int| groups_view(ms[i]@))
}

/// Calls `regex::Regex::new`, which compiles `pattern` with the default
/// options. Taken on trust: whether it succeeds depends on the pattern
/// alone, and the result remembers its pattern.
#[verifier::external_body]
pub(crate) fn compile(pattern: &str) -> (r: Result<regex::Regex, regex::Error>)
    ensures
        r is Ok <==> regex_accepts(pattern@),
        r matches Ok(re) ==> pattern_of(re) == pattern@,
{
    regex::Regex::new(pattern)
}

/// Calls `regex::Regex::captures_iter` and copies, for each match it
/// yields, the text of every capture group. Taken on trust: what it yields
/// depends on the pattern and the text alone. Every `Regex` that the
/// library holds comes from `compile`.
#[verifier::external_body]
pub(crate) fn captures_iter(re: &regex::Regex, text: &str) -> (r: Vec<Vec<Option<String>>>)
    ensures
        matches_view(r@) == regex_captures(pattern_of(*re), text@),
{
    re.captures_iter(text).map(
        |c| c.iter().map(|g| g.map(|m| m.as_str().to_string())).collect(),
    ).collect()
}

} // verus!
