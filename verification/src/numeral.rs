//! Decimal numerals: the integer a text of digits stands for, and the text
//! that stands for an integer.
use vstd::prelude::*;
use crate::chars::is_ascii_digit;

verus! {

/// The value of a decimal digit.
pub open spec fn digit_value(c: char) -> int {
    c as int - '0' as int
}

/// The decimal digit of a value below ten.
pub open spec fn digit_char(d: int) -> char {
    (d + '0' as int) as char
}

/// Whether every character is one of the digits `0` to `9`.
pub open spec fn all_digits(text: Seq<char>) -> bool {
    forall|i: int| 0 <= i < text.len() ==> is_ascii_digit(#[trigger] text[i])
}

/// Whether the text is a decimal numeral: one digit or more, and nothing
/// else.
pub open spec fn is_decimal(text: Seq<char>) -> bool {
    text.len() > 0 && all_digits(text)
}

/// The number that a text of digits stands for, its first digit counting
/// most.
pub open spec fn decimal_value(text: Seq<char>) -> int
    decreases text.len(),
{
    if text.len() == 0 {
        0
    } else {
        10 * decimal_value(text.drop_last()) + digit_value(text.last())
    }
}

/// The integer a number token stands for: the value of a decimal numeral
/// that a signed 64-bit integer can hold. Any other text stands for none.
pub open spec fn integer_literal(text: Seq<char>) -> Option<i64> {
    if is_decimal(text) && decimal_value(text) <= i64::MAX {
        Some(decimal_value(text) as i64)
    } else {
        None
    }
}

/// The decimal numeral of a natural number, without leading zeros.
pub open spec fn decimal_text(n: nat) -> Seq<char>
    decreases n,
{
    if n < 10 {
        seq![digit_char(n as int)]
    } else {
        decimal_text(n / 10).push(digit_char((n % 10) as int))
    }
}

/// The decimal text of an integer: a minus sign before the numeral of a
/// negative one.
pub open spec fn integer_text(i: int) -> Seq<char> {
    if i < 0 {
        seq!['-'] + decimal_text((-i) as nat)
    } else {
        decimal_text(i as nat)
    }
}

/// A text of digits stands for a number that is not negative.
pub proof fn lemma_decimal_value_nonnegative(text: Seq<char>)
    requires
        all_digits(text),
    ensures
        0 <= decimal_value(text),
    decreases text.len(),
{
    if text.len() > 0 {
        lemma_decimal_value_nonnegative(text.drop_last());
    }
}

/// Among texts of digits, a text stands for no less than any of its
/// beginnings.
pub proof fn lemma_decimal_value_prefix(text: Seq<char>, n: int)
    requires
        all_digits(text),
        0 <= n <= text.len(),
    ensures
        decimal_value(text.take(n)) <= decimal_value(text),
    decreases text.len(),
{
    if n == text.len() {
        assert(text.take(n) =~= text);
    } else {
        lemma_decimal_value_prefix(text.drop_last(), n);
        assert(text.drop_last().take(n) =~= text.take(n));
        lemma_decimal_value_nonnegative(text.drop_last());
    }
}

/// The numeral of a natural number is a decimal numeral, and stands for that
/// number.
pub proof fn lemma_decimal_text_round_trip(n: nat)
    ensures
        is_decimal(decimal_text(n)),
        decimal_value(decimal_text(n)) == n,
    decreases n,
{
    if n < 10 {
        let text = decimal_text(n);
        assert(decimal_value(text.drop_last()) == 0);
    } else {
        lemma_decimal_text_round_trip(n / 10);
        let head = decimal_text(n / 10);
        let text = decimal_text(n);
        assert(text.drop_last() =~= head);
    }
}

/// The integer that a number token's text stands for.
pub fn parse_integer(text: &str) -> (value: Option<i64>)
    ensures
        value == integer_literal(text@),
{
    let mut total: i64 = 0;
    let mut empty = true;
    for c in it: text.chars()
        invariant
            it.seq() == text@,
            empty == (it.index() == 0),
            all_digits(text@.take(it.index() as int)),
            total == decimal_value(text@.take(it.index() as int)),
            0 <= total,
    {
        if !(c >= '0' && c <= '9') {
            return None;
        }
        let digit: i64 = ((c as u32) - ('0' as u32)) as i64;
        proof {
            let k = it.index() as int;
            assert(text@.take(k + 1).drop_last() =~= text@.take(k));
            if all_digits(text@) {
                lemma_decimal_value_prefix(text@, k + 1);
            }
        }
        let scaled = match total.checked_mul(10) {
            Some(scaled) => scaled,
            None => {
                return None;
            },
        };
        total = match scaled.checked_add(digit) {
            Some(sum) => sum,
            None => {
                return None;
            },
        };
        empty = false;
    }
    assert(text@.take(text@.len() as int) =~= text@);
    if empty {
        None
    } else {
        Some(total)
    }
}

/// Appends the decimal numeral of `n`.
fn push_decimal(text: &mut String, n: u64)
    ensures
        final(text)@ == old(text)@ + decimal_text(n as nat),
    decreases n,
{
    if n >= 10 {
        push_decimal(text, n / 10);
    }
    let digit: u8 = (n % 10) as u8;
    text.push((48u8 + digit) as char);
}

/// The decimal text of an integer.
pub fn integer_to_string(i: i64) -> (text: String)
    ensures
        text@ == integer_text(i as int),
{
    let mut text = String::new();
    if i < 0 {
        text.push('-');
        let magnitude: u64 = (-(i as i128)) as u64;
        push_decimal(&mut text, magnitude);
    } else {
        push_decimal(&mut text, i as u64);
    }
    text
}

} // verus!
