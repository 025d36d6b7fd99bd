//! Regular expressions.

use vstd::prelude::*;

verus! {

/// What the leftmost match of the regular expression `pattern` captures in
/// `text`: the text of every group, the whole match first, with `None`
/// for a group that took no part. `None` where nothing matches, or where
/// the pattern is not one.
pub uninterp spec fn regex_captured(pattern: Seq<char>, text: Seq<char>) -> Option<
    Seq<Option<Seq<char>>>,
>;

/// The texts of captured groups.
pub open spec fn group_texts(groups: Seq<Option<String>>) -> Seq<Option<Seq<char>>> {
    Seq::new(
        groups.len(),
        |i: int|
            match groups[i] {
                Some(text) => Some(text@),
                None => None,
            },
    )
}

/// Compiles `pattern` with `regex::Regex::new` and calls `captures` on
/// `text`.
///
/// Trusted: the outcome depends on the pattern and the text alone.
#[verifier::external_body]
pub(crate) fn regex_captures(pattern: &str, text: &str) -> (res: Option<Vec<Option<String>>>)
    ensures
        match res {
            Some(groups) => regex_captured(pattern@, text@) == Some(group_texts(groups@)),
            None => regex_captured(pattern@, text@) is None,
        },
{
    let expression = regex::Regex::new(pattern).ok()?;
    let found = expression.captures(text)?;
    Some(found.iter().map(|group| group.map(|m| m.as_str().to_string())).collect())
}

} // verus!
