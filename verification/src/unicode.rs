//! Unicode character properties and case mapping from the standard library,
//! whose tables vstd does not describe.
use vstd::prelude::*;

verus! {

/// Whether `c` has the Unicode `Alphabetic` property.
pub uninterp spec fn alphabetic(c: char) -> bool;

/// Whether `c` has the Unicode `Uppercase` property.
pub uninterp spec fn uppercase(c: char) -> bool;

/// Whether `c` has the Unicode `Lowercase` property.
pub uninterp spec fn lowercase(c: char) -> bool;

/// The Unicode lowercase mapping of a whole string.
pub uninterp spec fn lowercased(s: Seq<char>) -> Seq<char>;

/// `char::is_alphabetic`: the result is the `Alphabetic` property of `c`,
/// a fixed table of the standard library's Unicode version. The ASCII
/// letters have it; ASCII digits and the space do not.
#[verifier::external_body]
pub(crate) fn is_alphabetic(c: char) -> (b: bool)
    ensures
        b == alphabetic(c),
        ('a' <= c <= 'z' || 'A' <= c <= 'Z') ==> b,
        ('0' <= c <= '9' || c == ' ') ==> !b,
{
    c.is_alphabetic()
}

/// `char::is_uppercase`: the result is the `Uppercase` property of `c`.
/// `A` to `Z` have it, `a` to `z` do not.
#[verifier::external_body]
pub(crate) fn is_uppercase(c: char) -> (b: bool)
    ensures
        b == uppercase(c),
        'A' <= c <= 'Z' ==> b,
        'a' <= c <= 'z' ==> !b,
{
    c.is_uppercase()
}

/// `char::is_lowercase`: the result is the `Lowercase` property of `c`.
/// `a` to `z` have it, `A` to `Z` do not.
#[verifier::external_body]
pub(crate) fn is_lowercase(c: char) -> (b: bool)
    ensures
        b == lowercase(c),
        'a' <= c <= 'z' ==> b,
        'A' <= c <= 'Z' ==> !b,
{
    c.is_lowercase()
}

/// `str::to_lowercase`: the result is the Unicode lowercase mapping of `s`.
#[verifier::external_body]
pub(crate) fn to_lowercase(s: &str) -> (r: String)
    ensures
        r@ == lowercased(s@),
{
    s.to_lowercase()
}

/// `'0'..='9'`.
pub open spec fn ascii_digit(c: char) -> bool {
    '0' <= c && c <= '9'
}

/// Whether `c` is an ASCII decimal digit (`char::is_ascii_digit`).
pub fn is_ascii_digit(c: char) -> (b: bool)
    ensures
        b == ascii_digit(c),
{
    '0' <= c && c <= '9'
}

} // verus!
