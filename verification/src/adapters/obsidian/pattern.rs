//! Regular-expression matching, done by the `regex` crate.
use vstd::prelude::*;

verus! {

/// The matches of `pattern` in `text` as the `regex` crate finds them:
/// successive non-overlapping matches from left to right, each with the text
/// of its capture groups. Group 0 is the whole match; a group that took no
/// part in the match is `None`. There is no match where the crate rejects
/// the pattern.
pub uninterp spec fn captures_of(pattern: Seq<char>, text: Seq<char>) -> Seq<
    Seq<Option<Seq<char>>>,
>;

/// `text` with every match of `pattern`, as the `regex` crate finds them,
/// replaced by the expansion of `replacement`; `text` itself where the crate
/// rejects the pattern.
pub uninterp spec fn replaced_of(
    pattern: Seq<char>,
    text: Seq<char>,
    replacement: Seq<char>,
) -> Seq<char>;

/// Capture group `index` of a match, if the match has that group and the
/// group took part.
pub open spec fn group(found: Seq<Option<Seq<char>>>, index: int) -> Option<Seq<char>> {
    if 0 <= index < found.len() {
        found[index]
    } else {
        None
    }
}

/// `Regex::new` followed by `Regex::captures_iter`: the text of every group
/// of every match of `pattern` in `text`.
#[verifier::external_body]
pub(crate) fn find_captures(pattern: &str, text: &str) -> (found: Vec<Vec<Option<String>>>)
    ensures
        found.deep_view() == captures_of(pattern@, text@),
{
    match regex::Regex::new(pattern) {
        Ok(re) => re.captures_iter(text).map(
            |caps| caps.iter().map(|m| m.map(|x| x.as_str().to_string())).collect(),
        ).collect(),
        Err(_) => Vec::new(),
    }
}

/// `Regex::new` followed by `Regex::replace_all`.
#[verifier::external_body]
pub(crate) fn replace_matches(pattern: &str, text: &str, replacement: &str) -> (replaced: String)
    ensures
        replaced@ == replaced_of(pattern@, text@, replacement@),
{
    match regex::Regex::new(pattern) {
        Ok(re) => re.replace_all(text, replacement).into_owned(),
        Err(_) => text.to_string(),
    }
}

/// Executable form of [`group`].
pub(crate) fn group_text(found: &Vec<Option<String>>, index: usize) -> (r: Option<&String>)
    ensures
        match r {
            Some(text) => group(found.deep_view(), index as int) == Some(text@),
            None => group(found.deep_view(), index as int) is None,
        },
{
    if index < found.len() {
        match &found[index] {
            Some(text) => Some(text),
            None => None,
        }
    } else {
        None
    }
}

} // verus!
