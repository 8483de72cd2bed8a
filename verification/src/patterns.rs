//! The regular expressions of the library, evaluated by the `regex` crate.
use vstd::prelude::*;

verus! {

/// What `Regex::replace_all` yields for a pattern, a haystack and a
/// replacement template (with `$1`-style group references expanded).
pub uninterp spec fn replaced(pattern: Seq<char>, text: Seq<char>, replacement: Seq<char>) -> Seq<
    char,
>;

/// Whether the pattern matches somewhere in the text (`Regex::is_match`).
pub uninterp spec fn matched(pattern: Seq<char>, text: Seq<char>) -> bool;

/// The text of capture group `group` of the leftmost-first match of the
/// pattern, if the pattern matches and the group took part in that match.
pub uninterp spec fn captured(pattern: Seq<char>, text: Seq<char>, group: usize) -> Option<
    Seq<char>,
>;

/// `regex::Regex::new(pattern)` then `replace_all(text, replacement)`.
/// The contract claims only that the result is a function of the three
/// arguments; what that function is (the regex semantics) is left to the crate.
/// All patterns of this library are fixed literals that compile.
#[verifier::external_body]
pub(crate) fn replace_all(pattern: &str, text: &str, replacement: &str) -> (r: String)
    ensures
        r@ == replaced(pattern@, text@, replacement@),
{
    match regex::Regex::new(pattern) {
        Ok(re) => re.replace_all(text, replacement).into_owned(),
        Err(_) => text.to_string(),
    }
}

/// `regex::Regex::new(pattern)` then `is_match(text)`.
#[verifier::external_body]
pub(crate) fn is_match(pattern: &str, text: &str) -> (b: bool)
    ensures
        b == matched(pattern@, text@),
{
    match regex::Regex::new(pattern) {
        Ok(re) => re.is_match(text),
        Err(_) => false,
    }
}

/// `regex::Regex::new(pattern)` then `captures(text)` and group `group`.
#[verifier::external_body]
pub(crate) fn capture(pattern: &str, text: &str, group: usize) -> (r: Option<String>)
    ensures
        r matches Some(g) ==> captured(pattern@, text@, group) == Some(g@),
        r is None ==> captured(pattern@, text@, group) is None,
{
    let re = match regex::Regex::new(pattern) {
        Ok(re) => re,
        Err(_) => return None,
    };
    match re.captures(text) {
        Some(caps) => match caps.get(group) {
            Some(m) => Some(m.as_str().to_string()),
            None => None,
        },
        None => None,
    }
}

} // verus!
