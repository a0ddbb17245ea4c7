//! Case-insensitive search, done by the `regex` crate.

use vstd::prelude::*;

verus! {

/// The characters that have a meaning of their own in a pattern.
pub open spec fn is_meta(c: char) -> bool {
    c == '\\' || c == '.' || c == '+' || c == '*' || c == '?' || c == '(' || c == ')' || c == '|'
        || c == '[' || c == ']' || c == '{' || c == '}' || c == '^' || c == '$' || c == '#' || c
        == '&' || c == '-' || c == '~'
}

/// `text` with a backslash put before each of its meta characters: the
/// pattern that matches `text` literally.
pub open spec fn escaped(text: Seq<char>) -> Seq<char>
    decreases text.len(),
{
    if text.len() == 0 {
        Seq::empty()
    } else if is_meta(text.last()) {
        escaped(text.drop_last()).push('\\').push(text.last())
    } else {
        escaped(text.drop_last()).push(text.last())
    }
}

/// What a case-insensitive search for `pattern` finds in `hay`: `None`
/// where no matcher can be built for the pattern, else the successive
/// matches from left to right, each as the byte offsets of its start and
/// its end in the UTF-8 form of `hay`.
pub uninterp spec fn insensitive_matches(pattern: Seq<char>, hay: Seq<char>) -> Option<Seq<(usize, usize)>>;

/// The outcome of a search, with the vector of spans as a sequence.
pub open spec fn found_view(found: Option<Vec<(usize, usize)>>) -> Option<Seq<(usize, usize)>> {
    match found {
        Some(spans) => Some(spans@),
        None => None,
    }
}

/// `regex::escape`: copies `text` and puts a backslash before each meta
/// character. Trusted: the contract states what the function's source does.
#[verifier::external_body]
pub(crate) fn escape(text: &str) -> (pattern: String)
    ensures
        pattern@ == escaped(text@),
{
    regex::escape(text)
}

/// `regex::RegexBuilder` with `case_insensitive(true)`, then
/// `regex::Regex::find_iter` on `hay`. Trusted: the contract only gives the
/// outcome its name, `insensitive_matches`; a failed build is `None`.
#[verifier::external_body]
pub(crate) fn find_insensitive(pattern: &str, hay: &str) -> (found: Option<Vec<(usize, usize)>>)
    ensures
        found_view(found) == insensitive_matches(pattern@, hay@),
{
    match regex::RegexBuilder::new(pattern).case_insensitive(true).build() {
        Ok(matcher) => Some(matcher.find_iter(hay).map(|m| (m.start(), m.end())).collect()),
        Err(_) => None,
    }
}

} // verus!
