//! The character classes of the address grammar.

use vstd::prelude::*;

verus! {

/// An ASCII letter or digit.
pub open spec fn is_alphanumeric(c: char) -> bool {
    ('0' <= c && c <= '9') || ('A' <= c && c <= 'Z') || ('a' <= c && c <= 'z')
}

/// One of the punctuation characters an atom may hold:
/// ``! # $ % & ' * + - / = ? ^ _ ` { | } ~``.
pub open spec fn is_atext_symbol(c: char) -> bool {
    c == '!' || c == '#' || c == '$' || c == '%' || c == '&' || c == '\'' || c == '*' || c == '+'
        || c == '-' || c == '/' || c == '=' || c == '?' || c == '^' || c == '_' || c == '`' || c
        == '{' || c == '|' || c == '}' || c == '~'
}

/// `atext`: an ASCII letter, a digit or an atom symbol.
pub open spec fn is_atext(c: char) -> bool {
    is_alphanumeric(c) || is_atext_symbol(c)
}

/// `qtext`: a printable ASCII character other than `"` and `\`.
pub open spec fn is_qtext(c: char) -> bool {
    (' ' <= c && c <= '!') || ('#' <= c && c <= '[') || (']' <= c && c <= '~')
}

/// A printable ASCII character, the space included.
pub open spec fn is_printable(c: char) -> bool {
    ' ' <= c && c <= '~'
}

/// A character that may follow the backslash of a quoted pair: any printable
/// ASCII character.
pub open spec fn is_quotable(c: char) -> bool {
    is_printable(c)
}

/// The upper-case form of an ASCII letter, as a code point; every other
/// character stands for itself.
pub open spec fn fold_case(c: char) -> int {
    if 'a' <= c && c <= 'z' {
        c as int - 32
    } else {
        c as int
    }
}

/// Equality of two characters up to the case of ASCII letters.
pub open spec fn same_letter(a: char, b: char) -> bool {
    fold_case(a) == fold_case(b)
}

/// Whether `c` is an ASCII letter or digit.
pub fn alphanumeric(c: char) -> (r: bool)
    ensures
        r == is_alphanumeric(c),
{
    (c >= '0' && c <= '9') || (c >= 'A' && c <= 'Z') || (c >= 'a' && c <= 'z')
}

/// Whether `c` may stand in an atom.
pub fn atext(c: char) -> (r: bool)
    ensures
        r == is_atext(c),
{
    alphanumeric(c) || c == '!' || c == '#' || c == '$' || c == '%' || c == '&' || c == '\''
        || c == '*' || c == '+' || c == '-' || c == '/' || c == '=' || c == '?' || c == '^' || c
        == '_' || c == '`' || c == '{' || c == '|' || c == '}' || c == '~'
}

/// Whether `c` may stand in a quoted string as it is.
pub fn qtext(c: char) -> (r: bool)
    ensures
        r == is_qtext(c),
{
    (c >= ' ' && c <= '!') || (c >= '#' && c <= '[') || (c >= ']' && c <= '~')
}

/// Whether `c` may follow the backslash of a quoted pair.
pub fn quotable(c: char) -> (r: bool)
    ensures
        r == is_quotable(c),
{
    c >= ' ' && c <= '~'
}

/// Whether `a` and `b` are the same character up to the case of ASCII
/// letters.
pub fn letters_match(a: char, b: char) -> (r: bool)
    ensures
        r == same_letter(a, b),
{
    let x: u32 = if a >= 'a' && a <= 'z' {
        a as u32 - 32
    } else {
        a as u32
    };
    let y: u32 = if b >= 'a' && b <= 'z' {
        b as u32 - 32
    } else {
        b as u32
    };
    x == y
}

} // verus!
