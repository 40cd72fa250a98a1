//! Case and character classes that depend on the Unicode tables.

use crate::text::{all_ascii, ascii_lower, ascii_upper, is_ascii_alnum, is_ascii_char};
use vstd::prelude::*;

verus! {

/// What `str::to_uppercase` of std makes of a text.
pub uninterp spec fn uppercase(s: Seq<char>) -> Seq<char>;

/// What `str::to_lowercase` of std makes of a text.
pub uninterp spec fn lowercase(s: Seq<char>) -> Seq<char>;

/// What `char::is_alphanumeric` of std says of a character.
pub uninterp spec fn alphanumeric(c: char) -> bool;

/// The text with a to z in upper case.
pub open spec fn ascii_uppercase(s: Seq<char>) -> Seq<char> {
    Seq::new(s.len(), |i: int| ascii_upper(s[i]))
}

/// The text with A to Z in lower case.
pub open spec fn ascii_lowercase(s: Seq<char>) -> Seq<char> {
    Seq::new(s.len(), |i: int| ascii_lower(s[i]))
}

/// `str::to_uppercase` of std. The result is a function of the text. On a
/// text of ASCII characters it changes the letters a to z and nothing else; the
/// result, where it is such a text, is no exception.
#[verifier::external_body]
pub(crate) fn to_upper(s: &str) -> (r: String)
    ensures
        r@ == uppercase(s@),
        all_ascii(s@) ==> r@ == ascii_uppercase(s@),
        all_ascii(r@) ==> uppercase(r@) == ascii_uppercase(r@),
{
    s.to_uppercase()
}

/// `str::to_lowercase` of std. The result is a function of the text. On a
/// text of ASCII characters it changes the letters A to Z and nothing else.
#[verifier::external_body]
pub(crate) fn to_lower(s: &str) -> (r: String)
    ensures
        r@ == lowercase(s@),
        all_ascii(s@) ==> r@ == ascii_lowercase(s@),
{
    s.to_lowercase()
}

/// `char::is_alphanumeric` of std. The answer is a function of the character.
/// Among the ASCII characters it holds of the letters and the digits.
#[verifier::external_body]
pub(crate) fn is_alphanumeric(c: char) -> (r: bool)
    ensures
        r == alphanumeric(c),
        is_ascii_char(c) ==> r == is_ascii_alnum(c),
{
    c.is_alphanumeric()
}

} // verus!
