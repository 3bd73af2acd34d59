//! Character classes of the tokenizer.
//!
//! On ASCII the classes are defined here outright. Beyond ASCII they follow
//! the Unicode properties as the standard library reports them.

use vstd::prelude::*;
use vstd::string::*;

verus! {

/// The character is in the ASCII range.
pub open spec fn is_ascii_char(c: char) -> bool {
    c <= '\u{7f}'
}

/// An ASCII letter.
pub open spec fn is_ascii_letter(c: char) -> bool {
    ('a' <= c && c <= 'z') || ('A' <= c && c <= 'Z')
}

/// A decimal digit, `0` to `9`.
pub open spec fn is_digit(c: char) -> bool {
    '0' <= c && c <= '9'
}

/// ASCII white space: the space, and tab to carriage return.
pub open spec fn is_ascii_space(c: char) -> bool {
    c == ' ' || ('\u{9}' <= c && c <= '\u{d}')
}

/// Whether a character beyond ASCII has the Unicode property `White_Space`.
pub uninterp spec fn unicode_whitespace(c: char) -> bool;

/// Whether a character beyond ASCII has the Unicode property `Alphabetic`.
pub uninterp spec fn unicode_alphabetic(c: char) -> bool;

/// Whether a character beyond ASCII is in one of the Unicode number
/// categories.
pub uninterp spec fn unicode_numeric(c: char) -> bool;

/// White space, which separates tokens and is never part of one.
pub open spec fn is_whitespace(c: char) -> bool {
    if is_ascii_char(c) {
        is_ascii_space(c)
    } else {
        unicode_whitespace(c)
    }
}

/// A character that may begin an identifier or a keyword.
pub open spec fn is_alphabetic(c: char) -> bool {
    if is_ascii_char(c) {
        is_ascii_letter(c)
    } else {
        unicode_alphabetic(c)
    }
}

/// A numeric character in the wide sense: a decimal digit, or a Unicode
/// number beyond ASCII.
pub open spec fn is_numeric(c: char) -> bool {
    if is_ascii_char(c) {
        is_digit(c)
    } else {
        unicode_numeric(c)
    }
}

/// A character that may continue an identifier.
pub open spec fn is_identifier_part(c: char) -> bool {
    is_alphabetic(c) || is_numeric(c) || c == '_'
}

/// A run of decimal digits, at least one.
pub open spec fn is_digit_run(s: Seq<char>) -> bool {
    &&& s.len() > 0
    &&& forall|i: int| 0 <= i < s.len() ==> is_digit(#[trigger] s[i])
}

/// `char::is_whitespace` of the standard library. Trusted: on ASCII it is
/// true of the space and of tab to carriage return only; beyond ASCII it
/// reports the Unicode property, which is a function of the character alone.
#[verifier::external_body]
pub(crate) fn char_is_whitespace(c: char) -> (yes: bool)
    ensures
        yes == (if is_ascii_char(c) {
            is_ascii_space(c)
        } else {
            unicode_whitespace(c)
        }),
{
    c.is_whitespace()
}

/// `char::is_alphabetic` of the standard library. Trusted: on ASCII it is
/// true of the letters only; beyond ASCII it reports the Unicode property,
/// which is a function of the character alone.
#[verifier::external_body]
pub(crate) fn char_is_alphabetic(c: char) -> (yes: bool)
    ensures
        yes == (if is_ascii_char(c) {
            is_ascii_letter(c)
        } else {
            unicode_alphabetic(c)
        }),
{
    c.is_alphabetic()
}

/// `char::is_numeric` of the standard library. Trusted: on ASCII it is true
/// of the decimal digits only; beyond ASCII it reports the Unicode number
/// categories, which is a function of the character alone.
#[verifier::external_body]
pub(crate) fn char_is_numeric(c: char) -> (yes: bool)
    ensures
        yes == (if is_ascii_char(c) {
            is_digit(c)
        } else {
            unicode_numeric(c)
        }),
{
    c.is_numeric()
}

/// Whether `c` is a decimal digit.
pub fn is_decimal_digit(c: char) -> (yes: bool)
    ensures
        yes == is_digit(c),
{
    '0' <= c && c <= '9'
}

/// Whether `c` may continue an identifier.
pub fn is_identifier_char(c: char) -> (yes: bool)
    ensures
        yes == is_identifier_part(c),
{
    c == '_' || char_is_alphabetic(c) || char_is_numeric(c)
}

/// The characters of `s`, in order.
pub fn characters(s: &str) -> (chars: Vec<char>)
    ensures
        chars@ == s@,
{
    let mut chars: Vec<char> = Vec::new();
    for c in it: s.chars()
        invariant
            chars@ == s@.take(it.index() as int),
            it.seq() == s@,
    {
        chars.push(c);
    }
    chars
}

} // verus!
