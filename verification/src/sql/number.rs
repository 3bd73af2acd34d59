//! Number literals as exact decimal text.
//!
//! A number literal is a run of decimal digits, or two such runs with a `.`
//! between them. Its canonical text is the shortest decimal text of the same
//! value: without leading zeros in the whole part, without trailing zeros in
//! the fraction, and without a fraction that is zero.

use vstd::prelude::*;
use vstd::string::*;
use crate::sql::chars::{characters, is_digit, is_digit_run};

verus! {

/// The offset of the first `.` from `i` on, or the length of the text.
pub open spec fn first_dot(s: Seq<char>, i: int) -> int
    decreases s.len() - i,
{
    if 0 <= i < s.len() && s[i] != '.' {
        first_dot(s, i + 1)
    } else {
        i
    }
}

/// Every character from `from` up to `to` is a decimal digit.
pub open spec fn digits_between(s: Seq<char>, from: int, to: int) -> bool {
    forall|i: int| from <= i < to ==> is_digit(#[trigger] s[i])
}

/// The text holds a `.`.
pub open spec fn has_fraction(s: Seq<char>) -> bool {
    first_dot(s, 0) < s.len()
}

/// The text is a number literal: digits, or digits, a `.` and digits.
pub open spec fn is_number_text(s: Seq<char>) -> bool {
    let dot = first_dot(s, 0);
    &&& 0 < dot <= s.len()
    &&& digits_between(s, 0, dot)
    &&& dot < s.len() ==> dot + 1 < s.len() && digits_between(s, dot + 1, s.len() as int)
}

/// The offset of the first significant digit of the digits from `i` up to
/// `end`: leading zeros are passed over, but for the last digit.
pub open spec fn whole_start(s: Seq<char>, i: int, end: int) -> int
    decreases end - i,
{
    if 0 <= i && i + 1 < end && s[i] == '0' {
        whole_start(s, i + 1, end)
    } else {
        i
    }
}

/// The offset behind the last significant digit of the digits from `start`
/// up to `end`: trailing zeros are dropped.
pub open spec fn fraction_end(s: Seq<char>, start: int, end: int) -> int
    decreases end - start,
{
    if start < end <= s.len() && s[end - 1] == '0' {
        fraction_end(s, start, end - 1)
    } else {
        end
    }
}

/// The canonical text of a number literal.
pub open spec fn canonical_number(s: Seq<char>) -> Seq<char> {
    let dot = first_dot(s, 0);
    let len = s.len() as int;
    if dot >= len {
        s.subrange(whole_start(s, 0, len), len)
    } else {
        let end = fraction_end(s, dot + 1, len);
        let whole = s.subrange(whole_start(s, 0, dot), dot);
        if end > dot + 1 {
            whole + "."@ + s.subrange(dot + 1, end)
        } else {
            whole
        }
    }
}

/// The first `.` lies between the start of the search and the end of the
/// text, and no `.` stands before it.
pub proof fn lemma_first_dot(s: Seq<char>, i: int)
    requires
        0 <= i <= s.len(),
    ensures
        i <= first_dot(s, i) <= s.len(),
        first_dot(s, i) < s.len() ==> s[first_dot(s, i)] == '.',
        forall|k: int| i <= k < first_dot(s, i) ==> #[trigger] s[k] != '.',
    decreases s.len() - i,
{
    if i < s.len() && s[i] != '.' {
        lemma_first_dot(s, i + 1);
    }
}

/// The significant digits of a whole part begin inside it, with a digit
/// that is not zero unless it is the last.
pub proof fn lemma_whole_start(s: Seq<char>, i: int, end: int)
    requires
        0 <= i < end,
    ensures
        i <= whole_start(s, i, end) < end,
        whole_start(s, i, end) + 1 == end || s[whole_start(s, i, end)] != '0',
    decreases end - i,
{
    if i + 1 < end && s[i] == '0' {
        lemma_whole_start(s, i + 1, end);
    }
}

/// A run of digits is a number literal, and holds no `.`.
pub proof fn lemma_digit_run_is_number(s: Seq<char>)
    requires
        is_digit_run(s),
    ensures
        is_number_text(s),
        !has_fraction(s),
{
    lemma_first_dot(s, 0);
    let dot = first_dot(s, 0);
    if dot < s.len() {
        assert(is_digit(s[dot]));
    }
}

/// The canonical text of a run of digits is a run of digits, and is its own
/// canonical text.
pub proof fn lemma_canonical_digits(s: Seq<char>)
    requires
        is_digit_run(s),
    ensures
        is_digit_run(canonical_number(s)),
        canonical_number(canonical_number(s)) == canonical_number(s),
{
    let len = s.len() as int;
    lemma_digit_run_is_number(s);
    lemma_whole_start(s, 0, len);
    let c = canonical_number(s);
    assert(c == s.subrange(whole_start(s, 0, len), len));
    assert(is_digit_run(c)) by {
        assert forall|i: int| 0 <= i < c.len() implies is_digit(#[trigger] c[i]) by {
            assert(c[i] == s[whole_start(s, 0, len) + i]);
        }
    }
    lemma_digit_run_is_number(c);
    assert(whole_start(c, 0, c.len() as int) == 0) by {
        assert(c[0] == s[whole_start(s, 0, len)]);
    }
    assert(c.subrange(0, c.len() as int) =~= c);
}

/// The canonical text of the number literal `input`.
pub fn canonical_text(input: &str) -> (text: String)
    requires
        is_number_text(input@),
    ensures
        text@ == canonical_number(input@),
{
    let chars = characters(input);
    let len: usize = chars.len();
    let mut dot: usize = 0;
    while dot < len && chars[dot] != '.'
        invariant
            chars@ == input@,
            len == chars@.len(),
            dot <= len,
            first_dot(chars@, dot as int) == first_dot(chars@, 0),
        decreases len - dot,
    {
        dot += 1;
    }
    let mut start: usize = 0;
    while start + 1 < dot && chars[start] == '0'
        invariant
            chars@ == input@,
            dot <= len == chars@.len(),
            0 < dot,
            start < dot,
            whole_start(chars@, start as int, dot as int) == whole_start(chars@, 0, dot as int),
        decreases dot - start,
    {
        start += 1;
    }
    let mut text = input.substring_char(start, dot).to_owned();
    if dot < len {
        let mut end: usize = len;
        while dot + 1 < end && chars[end - 1] == '0'
            invariant
                chars@ == input@,
                dot < len == chars@.len(),
                dot + 1 <= end <= len,
                fraction_end(chars@, dot + 1, end as int) == fraction_end(
                    chars@,
                    dot + 1,
                    len as int,
                ),
            decreases end - dot,
        {
            end -= 1;
        }
        if end > dot + 1 {
            text.append(".");
            text.append(input.substring_char(dot + 1, end));
        }
    }
    text
}

/// Whether the text holds a `.`.
pub fn contains_dot(input: &str) -> (yes: bool)
    ensures
        yes == has_fraction(input@),
{
    let chars = characters(input);
    let mut dot: usize = 0;
    while dot < chars.len() && chars[dot] != '.'
        invariant
            chars@ == input@,
            dot <= chars@.len(),
            first_dot(chars@, dot as int) == first_dot(chars@, 0),
        decreases chars@.len() - dot,
    {
        dot += 1;
    }
    dot < chars.len()
}

/// The character of the digit `d`.
pub open spec fn digit_char(d: int) -> char {
    (48 + d) as char
}

/// The decimal digits of a natural number, without leading zeros.
pub open spec fn decimal_digits(n: nat) -> Seq<char>
    decreases n,
{
    if n < 10 {
        seq![digit_char(n as int)]
    } else {
        decimal_digits(n / 10) + seq![digit_char((n % 10) as int)]
    }
}

/// The decimal text of an integer: its digits, behind a `-` where it is
/// negative.
pub open spec fn decimal_text(i: int) -> Seq<char> {
    if i < 0 {
        "-"@ + decimal_digits((-i) as nat)
    } else {
        decimal_digits(i as nat)
    }
}

/// The decimal digits of a natural number are a run of digits that is its
/// own canonical text.
pub proof fn lemma_decimal_digits(n: nat)
    ensures
        is_digit_run(decimal_digits(n)),
        n >= 10 ==> decimal_digits(n)[0] != '0',
        n < 10 ==> decimal_digits(n).len() == 1,
        canonical_number(decimal_digits(n)) == decimal_digits(n),
    decreases n,
{
    let digits = decimal_digits(n);
    if n >= 10 {
        lemma_decimal_digits(n / 10);
        let front = decimal_digits(n / 10);
        assert(digits[0] == front[0]);
        assert forall|i: int| 0 <= i < digits.len() implies is_digit(#[trigger] digits[i]) by {
            if i < front.len() {
                assert(digits[i] == front[i]);
            }
        }
    }
    lemma_digit_run_is_number(digits);
    assert(digits.subrange(0, digits.len() as int) =~= digits);
}

/// The text of the single digit `d`.
fn digit_text(d: u32) -> (text: &'static str)
    requires
        d < 10,
    ensures
        text@ == seq![digit_char(d as int)],
{
    let digits: &'static str = "0123456789";
    proof {
        reveal_strlit("0123456789");
    }
    let text = digits.substring_char(d as usize, d as usize + 1);
    assert(text@ =~= seq![digit_char(d as int)]);
    text
}

/// Appends the decimal digits of `n` to `text`.
fn append_digits(text: &mut String, n: u32)
    ensures
        final(text)@ == old(text)@ + decimal_digits(n as nat),
    decreases n,
{
    if n >= 10 {
        append_digits(text, n / 10);
    }
    text.append(digit_text(n % 10));
    assert(text@ =~= old(text)@ + decimal_digits(n as nat));
}

/// The decimal text of `i`.
pub fn decimal_string(i: i32) -> (text: String)
    ensures
        text@ == decimal_text(i as int),
{
    if i < 0 {
        let mut text = "-".to_owned();
        let magnitude: u32 = if i == i32::MIN {
            2147483648u32
        } else {
            (-i) as u32
        };
        append_digits(&mut text, magnitude);
        text
    } else {
        let mut text = String::new();
        append_digits(&mut text, i as u32);
        assert(text@ =~= decimal_text(i as int));
        text
    }
}

} // verus!
