use vstd::prelude::*;

verus! {

/// Whether a character counts as numeric beyond ASCII: what
/// `char::is_numeric` decides for characters outside the ASCII range.
pub uninterp spec fn unicode_numeric(c: char) -> bool;

/// Whether a character counts as alphanumeric beyond ASCII: what
/// `char::is_alphanumeric` decides for characters outside the ASCII range.
pub uninterp spec fn unicode_alphanumeric(c: char) -> bool;

/// A numeric character: an ASCII digit, or a character of a Unicode number
/// category.
pub open spec fn is_numeric_char(c: char) -> bool {
    if (c as u32) < 128 {
        is_ascii_digit_char(c)
    } else {
        unicode_numeric(c)
    }
}

/// An ASCII digit `0`-`9`.
pub open spec fn is_ascii_digit_char(c: char) -> bool {
    '0' <= c && c <= '9'
}

/// An alphanumeric character: an ASCII letter or digit, or a character of a
/// Unicode letter or number category.
pub open spec fn is_alphanumeric_char(c: char) -> bool {
    if (c as u32) < 128 {
        is_ascii_digit_char(c) || ('a' <= c && c <= 'z') || ('A' <= c && c <= 'Z')
    } else {
        unicode_alphanumeric(c)
    }
}

/// Relies on char::is_numeric: true exactly for the Unicode number
/// categories, which within ASCII are the digits `0`-`9`.
#[verifier::external_body]
pub(crate) fn char_is_numeric(c: char) -> (r: bool)
    ensures
        r == is_numeric_char(c),
        (c as u32) >= 128 ==> r == unicode_numeric(c),
{
    c.is_numeric()
}

/// Relies on char::is_alphanumeric: true exactly for the Unicode letter and
/// number categories, which within ASCII are the letters and digits.
#[verifier::external_body]
pub(crate) fn char_is_alphanumeric(c: char) -> (r: bool)
    ensures
        r == is_alphanumeric_char(c),
        (c as u32) >= 128 ==> r == unicode_alphanumeric(c),
{
    c.is_alphanumeric()
}

} // verus!
