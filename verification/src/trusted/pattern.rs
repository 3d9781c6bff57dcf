//! Regular expressions, matched by the `regex` crate.

use vstd::prelude::*;

verus! {

/// The place of one group of a match in the text: the byte at which it
/// starts and the byte before which it ends. A group that took no part in
/// the match has no place.
pub type Span = Option<(usize, usize)>;

/// What `pattern` finds in `text`: its matches from left to right, none
/// overlapping another, and for each match the places of its groups, the
/// whole match first. `None` where `pattern` is no regular expression.
pub uninterp spec fn regex_captures(pattern: Seq<char>, text: Seq<char>) -> Option<
    Seq<Seq<Span>>,
>;

/// The places that `found` holds.
pub open spec fn spans_of(found: Seq<Vec<Span>>) -> Seq<Seq<Span>> {
    found.map_values(|groups: Vec<Span>| groups@)
}

/// `Regex::new` and, on the expression that it makes, `Regex::captures_iter`:
/// every match of `pattern` in `text` with the places of its groups, as
/// `Match::start` and `Match::end` give them.
#[verifier::external_body]
pub(crate) fn captures_all(pattern: &str, text: &str) -> (found: Option<Vec<Vec<Span>>>)
    ensures
        match found {
            Some(matches) => regex_captures(pattern@, text@) == Some(spans_of(matches@)),
            None => regex_captures(pattern@, text@) is None,
        },
{
    let compiled = regex::Regex::new(pattern).ok()?;
    Some(
        compiled.captures_iter(text).map(
            |caps| caps.iter().map(|group| group.map(|m| (m.start(), m.end()))).collect(),
        ).collect(),
    )
}

} // verus!
