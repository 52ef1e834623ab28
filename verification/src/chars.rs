//! Character classes of the tokenizer.
//!
//! The ASCII range is classified by the definitions below. Beyond ASCII the
//! classes are the Unicode properties that the standard library reports.
use vstd::prelude::*;

verus! {

/// What `char::is_whitespace` returns for `c`.
pub uninterp spec fn unicode_whitespace(c: char) -> bool;

/// What `char::is_alphabetic` returns for `c`.
pub uninterp spec fn unicode_alphabetic(c: char) -> bool;

/// What `char::is_numeric` returns for `c`.
pub uninterp spec fn unicode_numeric(c: char) -> bool;

/// `char::is_whitespace` is a function of the character alone: it reports
/// whether the character has the Unicode property `White_Space`. Nothing else
/// is claimed of it.
pub assume_specification[ char::is_whitespace ](c: char) -> (r: bool)
    ensures
        r == unicode_whitespace(c),
;

/// `char::is_alphabetic` is a function of the character alone: it reports
/// whether the character has the Unicode property `Alphabetic`. Nothing else
/// is claimed of it.
pub assume_specification[ char::is_alphabetic ](c: char) -> (r: bool)
    ensures
        r == unicode_alphabetic(c),
;

/// `char::is_numeric` is a function of the character alone: it reports
/// whether the character is in one of the Unicode number categories. Nothing
/// else is claimed of it.
pub assume_specification[ char::is_numeric ](c: char) -> (r: bool)
    ensures
        r == unicode_numeric(c),
;

/// `String::push` appends one character at the end of the string.
pub assume_specification[ String::push ](s: &mut String, c: char)
    ensures
        final(s)@ == old(s)@.push(c),
;

/// The last ASCII character.
pub const ASCII_MAX: char = '\u{7f}';

/// The letters `a` to `z` and `A` to `Z`.
pub open spec fn is_ascii_letter(c: char) -> bool {
    'a' <= c <= 'z' || 'A' <= c <= 'Z'
}

/// The digits `0` to `9`.
pub open spec fn is_ascii_digit(c: char) -> bool {
    '0' <= c <= '9'
}

/// Space, and the controls from tab to carriage return.
pub open spec fn is_ascii_space(c: char) -> bool {
    c == ' ' || '\t' <= c <= '\r'
}

/// The characters skipped between tokens.
pub open spec fn is_space(c: char) -> bool {
    if c <= ASCII_MAX {
        is_ascii_space(c)
    } else {
        unicode_whitespace(c)
    }
}

/// The letters.
pub open spec fn is_letter(c: char) -> bool {
    if c <= ASCII_MAX {
        is_ascii_letter(c)
    } else {
        unicode_alphabetic(c)
    }
}

/// The characters a number token is made of.
pub open spec fn is_numeral(c: char) -> bool {
    if c <= ASCII_MAX {
        is_ascii_digit(c)
    } else {
        unicode_numeric(c)
    }
}

/// The characters an identifier may start with.
pub open spec fn is_ident_start(c: char) -> bool {
    is_letter(c) || c == '_'
}

/// The characters an identifier may continue with.
pub open spec fn is_ident_part(c: char) -> bool {
    is_letter(c) || is_numeral(c) || c == '_'
}

/// Whether the character is skipped between tokens.
pub fn whitespace(c: char) -> (r: bool)
    ensures
        r == is_space(c),
{
    if c <= ASCII_MAX {
        c == ' ' || (c >= '\t' && c <= '\r')
    } else {
        c.is_whitespace()
    }
}

/// Whether the character is a letter.
pub fn letter(c: char) -> (r: bool)
    ensures
        r == is_letter(c),
{
    if c <= ASCII_MAX {
        (c >= 'a' && c <= 'z') || (c >= 'A' && c <= 'Z')
    } else {
        c.is_alphabetic()
    }
}

/// Whether a number token may hold the character.
pub fn numeral(c: char) -> (r: bool)
    ensures
        r == is_numeral(c),
{
    if c <= ASCII_MAX {
        c >= '0' && c <= '9'
    } else {
        c.is_numeric()
    }
}

/// Whether an identifier may start with the character.
pub fn ident_start(c: char) -> (r: bool)
    ensures
        r == is_ident_start(c),
{
    letter(c) || c == '_'
}

/// Whether an identifier may continue with the character.
pub fn ident_part(c: char) -> (r: bool)
    ensures
        r == is_ident_part(c),
{
    letter(c) || numeral(c) || c == '_'
}

/// Whether two texts are the same sequence of characters. Texts of the same
/// length take time quadratic in it: this is for the short texts of keywords
/// and operators.
pub fn same_text(a: &str, b: &str) -> (r: bool)
    ensures
        r == (a@ == b@),
{
    let n = a.unicode_len();
    if n != b.unicode_len() {
        return false;
    }
    let mut i: usize = 0;
    while i < n
        invariant
            i <= n,
            n == a@.len(),
            n == b@.len(),
            forall|k: int| 0 <= k < i ==> a@[k] == b@[k],
        decreases n - i,
    {
        if a.get_char(i) != b.get_char(i) {
            return false;
        }
        i += 1;
    }
    assert(a@ =~= b@);
    true
}

} // verus!
