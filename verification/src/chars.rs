//! Character classes used by the NML grammar.
use vstd::prelude::*;

verus! {

/// The Unicode `White_Space` property, which `char::is_whitespace` tests.
pub open spec fn spec_is_whitespace(c: char) -> bool {
    let v = c as u32;
    (0x9 <= v && v <= 0xd) || v == 0x20 || v == 0x85 || v == 0xa0 || v == 0x1680
        || (0x2000 <= v && v <= 0x200a) || v == 0x2028 || v == 0x2029 || v == 0x202f
        || v == 0x205f || v == 0x3000
}

/// Whitespace that does not end a line: the class `[^\S\r\n]`.
pub open spec fn spec_is_inline_space(c: char) -> bool {
    spec_is_whitespace(c) && c != '\n' && c != '\r'
}

/// An ASCII letter: the class `[[:alpha:]]`.
pub open spec fn spec_is_alpha(c: char) -> bool {
    ('a' <= c && c <= 'z') || ('A' <= c && c <= 'Z')
}

/// An ASCII digit.
pub open spec fn spec_is_digit(c: char) -> bool {
    '0' <= c && c <= '9'
}

/// A word character: an ASCII letter, an ASCII digit or `_`.
pub open spec fn spec_is_word(c: char) -> bool {
    spec_is_alpha(c) || spec_is_digit(c) || c == '_'
}

/// Number of UTF-16 code units that encode `c`.
pub open spec fn spec_utf16_len(c: char) -> nat {
    if (c as u32) < 0x10000 { 1 } else { 2 }
}

/// ASCII lower case of `c`; every other character is kept.
pub open spec fn spec_to_ascii_lower(c: char) -> char {
    if 'A' <= c && c <= 'Z' { ((c as u32) + 32) as char } else { c }
}

pub fn is_whitespace(c: char) -> (r: bool)
    ensures
        r == spec_is_whitespace(c),
{
    let v = c as u32;
    (0x9 <= v && v <= 0xd) || v == 0x20 || v == 0x85 || v == 0xa0 || v == 0x1680 || (0x2000
        <= v && v <= 0x200a) || v == 0x2028 || v == 0x2029 || v == 0x202f || v == 0x205f || v
        == 0x3000
}

pub fn is_inline_space(c: char) -> (r: bool)
    ensures
        r == spec_is_inline_space(c),
{
    is_whitespace(c) && c != '\n' && c != '\r'
}

pub fn is_alpha(c: char) -> (r: bool)
    ensures
        r == spec_is_alpha(c),
{
    ('a' <= c && c <= 'z') || ('A' <= c && c <= 'Z')
}

pub fn is_digit(c: char) -> (r: bool)
    ensures
        r == spec_is_digit(c),
{
    '0' <= c && c <= '9'
}

pub fn is_word(c: char) -> (r: bool)
    ensures
        r == spec_is_word(c),
{
    is_alpha(c) || is_digit(c) || c == '_'
}

pub fn utf16_len(c: char) -> (r: usize)
    ensures
        r == spec_utf16_len(c),
        1 <= r <= 2,
{
    if (c as u32) < 0x10000 {
        1
    } else {
        2
    }
}

pub fn to_ascii_lower(c: char) -> (r: char)
    ensures
        r == spec_to_ascii_lower(c),
{
    if 'A' <= c && c <= 'Z' {
        let v: u32 = (c as u32) + 32;
        assert(v <= 0x7a);
        char_from_ascii(v)
    } else {
        c
    }
}

/// The character whose code is the ASCII value `v`.
fn char_from_ascii(v: u32) -> (c: char)
    requires
        v < 128,
    ensures
        c as u32 == v,
        c == v as char,
{
    let b: u8 = v as u8;
    b as char
}

} // verus!
