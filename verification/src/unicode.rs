//! Letters beyond ASCII, as the standard library knows them.
use vstd::prelude::*;
use crate::numbers;

verus! {

/// The text in lower case.
pub uninterp spec fn lowercase(s: Seq<char>) -> Seq<char>;

/// The character is a letter or a number.
pub uninterp spec fn alphanumeric(c: char) -> bool;

/// Every character is ASCII.
pub open spec fn is_ascii(s: Seq<char>) -> bool {
    forall|i: int| 0 <= i < s.len() ==> (#[trigger] s[i]) as u32 <= 0x7f
}

/// `str::to_lowercase`: the text in lower case by Unicode's rules, which depends on the
/// text alone. In an ASCII text just the letters from `A` to `Z` change.
#[verifier::external_body]
pub(crate) fn to_lowercase(s: &str) -> (r: String)
    ensures
        r@ == lowercase(s@),
        is_ascii(s@) ==> r@ == numbers::lowered(s@),
{
    s.to_lowercase()
}

/// `char::is_alphanumeric`: whether Unicode counts the character as a letter or a number.
/// Of the ASCII characters these are the letters and the digits.
#[verifier::external_body]
pub(crate) fn is_alphanumeric(c: char) -> (r: bool)
    ensures
        r == alphanumeric(c),
        c as u32 <= 0x7f ==> r == ('0' <= c <= '9' || 'a' <= c <= 'z' || 'A' <= c <= 'Z'),
{
    c.is_alphanumeric()
}

} // verus!
