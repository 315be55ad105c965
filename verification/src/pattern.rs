//! Regular expressions, matched by the `regex` crate.

use vstd::prelude::*;
use regex::Regex;

verus! {

/// Whether `regex::Regex::new` accepts `pattern` as a regular expression.
pub uninterp spec fn regex_accepts(pattern: Seq<char>) -> bool;

/// What `regex::Regex::captures` finds in `haystack` with the expression
/// compiled from `pattern`: `None` when nothing matches; otherwise the text
/// of each capture group of the leftmost-first match, group 0 (the whole
/// match) first, `None` for a group that took no part in the match.
pub uninterp spec fn regex_captures(pattern: Seq<char>, haystack: Seq<char>) -> Option<
    Seq<Option<Seq<char>>>,
>;

/// Compiles `pattern` with `regex::Regex::new` and, when that accepts it,
/// matches it against `haystack` with `regex::Regex::captures`, handing back
/// the text of every capture group. Trusted to give `Some` exactly when the
/// pattern is accepted, and then what the name `regex_captures` stands for.
/// Which patterns are accepted, and which text matches, is left unsaid.
#[verifier::external_body]
pub(crate) fn captures_in(pattern: &str, haystack: &str) -> (r: Option<
    Option<Vec<Option<String>>>,
>)
    ensures
        r is Some == regex_accepts(pattern@),
        r matches Some(c) ==> c.deep_view() == regex_captures(pattern@, haystack@),
{
    let re = Regex::new(pattern).ok()?;
    let caps = match re.captures(haystack) {
        None => return Some(None),
        Some(caps) => caps,
    };
    let mut groups = Vec::new();
    for m in caps.iter() {
        groups.push(m.map(|m| m.as_str().to_string()));
    }
    Some(Some(groups))
}

} // verus!
