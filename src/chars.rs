//! Character facts: plain ASCII tests written out, and the Unicode tables of
//! std and of `unicode_normalization` behind named results.
use unicode_normalization::UnicodeNormalization;
use vstd::prelude::*;

verus! {

/// General category `Cc` (control codes), which `char::is_control` tests:
/// U+0000 to U+001F and U+007F to U+009F, fixed by Unicode's stability policy.
pub open spec fn is_control_char(c: char) -> bool {
    c <= '\u{1f}' || ('\u{7f}' <= c && c <= '\u{9f}')
}

/// The `White_Space` property, which `char::is_whitespace` tests: tab, line
/// feed, vertical tab, form feed, carriage return, space, U+0085, U+00A0,
/// U+1680, U+2000 to U+200A, U+2028, U+2029, U+202F, U+205F and U+3000.
pub open spec fn is_white_space_char(c: char) -> bool {
    ('\u{9}' <= c && c <= '\u{d}') || c == ' ' || c == '\u{85}' || c == '\u{a0}'
        || c == '\u{1680}' || ('\u{2000}' <= c && c <= '\u{200a}') || c == '\u{2028}'
        || c == '\u{2029}' || c == '\u{202f}' || c == '\u{205f}' || c == '\u{3000}'
}

/// The Unicode `Uppercase` property, as std's `char::is_uppercase` reports it.
pub uninterp spec fn is_upper_char(c: char) -> bool;

/// The Unicode `Alphabetic` property, as std's `char::is_alphabetic` reports it.
pub uninterp spec fn is_alphabetic_char(c: char) -> bool;

/// First character of std's full uppercase mapping of `c`.
pub uninterp spec fn upper_first(c: char) -> char;

/// First character of std's full lowercase mapping of `c`.
pub uninterp spec fn lower_first(c: char) -> char;

/// Unicode canonical decomposition (NFD) of the one-character string `c`.
pub uninterp spec fn nfd_of(c: char) -> Seq<char>;

pub open spec fn is_ascii_lower(c: char) -> bool {
    'a' <= c && c <= 'z'
}

pub open spec fn is_ascii_upper(c: char) -> bool {
    'A' <= c && c <= 'Z'
}

pub open spec fn is_ascii_letter(c: char) -> bool {
    is_ascii_lower(c) || is_ascii_upper(c)
}

/// Printable ASCII other than the space: `'!'` up to `'~'`.
pub open spec fn is_ascii_graphic(c: char) -> bool {
    '!' <= c && c <= '~'
}

pub open spec fn ascii_lower_of(c: char) -> char {
    if is_ascii_upper(c) {
        ((c as u32) + 32) as char
    } else {
        c
    }
}

/// Whether `code` is a Unicode scalar value, that is, some `char`'s code point.
pub open spec fn is_scalar_value(code: u32) -> bool {
    code < 0xD800 || (0xE000 <= code && code <= 0x10FFFF)
}

pub open spec fn code_point(c: char) -> int {
    c as int
}

/// The character whose code point is `code`, if there is one.
pub open spec fn char_of_code(code: u32) -> Option<char> {
    if is_scalar_value(code) {
        Some(choose|c: char| code_point(c) == code as int)
    } else {
        None
    }
}

/// The character whose code point is `code`, if there is one.
pub fn code_char(code: u32) -> (r: Option<char>)
    ensures
        r == char_of_code(code),
{
    let r = char_from_code(code);
    proof {
        if let Some(c) = r {
            assert(code_point(c) == code as int);
        }
    }
    r
}

pub open spec fn ascii_upper_of(c: char) -> char {
    if is_ascii_lower(c) {
        ((c as u32) - 32) as char
    } else {
        c
    }
}

pub fn ascii_lower(c: char) -> (r: char)
    ensures
        r == ascii_lower_of(c),
{
    if 'A' <= c && c <= 'Z' {
        ((c as u8) + 32) as char
    } else {
        c
    }
}

/// Whether `c` is a control character.
pub fn char_is_control(c: char) -> (r: bool)
    ensures
        r == is_control_char(c),
{
    c <= '\u{1f}' || ('\u{7f}' <= c && c <= '\u{9f}')
}

/// Whether `c` is white space.
pub fn char_is_whitespace(c: char) -> (r: bool)
    ensures
        r == is_white_space_char(c),
{
    ('\u{9}' <= c && c <= '\u{d}') || c == ' ' || c == '\u{85}' || c == '\u{a0}'
        || c == '\u{1680}' || ('\u{2000}' <= c && c <= '\u{200a}') || c == '\u{2028}'
        || c == '\u{2029}' || c == '\u{202f}' || c == '\u{205f}' || c == '\u{3000}'
}

/// Relies on `char::is_uppercase`; among ASCII letters exactly `A` to `Z`
/// have the `Uppercase` property.
#[verifier::external_body]
pub(crate) fn char_is_uppercase(c: char) -> (r: bool)
    ensures
        r == is_upper_char(c),
        is_ascii_lower(c) ==> !r,
        is_ascii_upper(c) ==> r,
{
    c.is_uppercase()
}

/// Relies on `char::is_alphabetic`.
#[verifier::external_body]
pub(crate) fn char_is_alphabetic(c: char) -> (r: bool)
    ensures
        r == is_alphabetic_char(c),
{
    c.is_alphabetic()
}

/// Relies on `char::to_uppercase`, whose iterator always yields at least one
/// character; on ASCII letters it is the ASCII case mapping.
#[verifier::external_body]
pub(crate) fn uppercase_first(c: char) -> (r: char)
    ensures
        r == upper_first(c),
        is_ascii_letter(c) ==> r == ascii_upper_of(c),
{
    c.to_uppercase().next().unwrap_or(c)
}

/// Relies on `char::to_lowercase`, whose iterator always yields at least one
/// character; on ASCII letters it is the ASCII case mapping.
#[verifier::external_body]
pub(crate) fn lowercase_first(c: char) -> (r: char)
    ensures
        r == lower_first(c),
        is_ascii_letter(c) ==> r == ascii_lower_of(c),
{
    c.to_lowercase().next().unwrap_or(c)
}

/// Relies on `char::from_u32`: `Some` exactly for the Unicode scalar values,
/// holding the character with that code point.
#[verifier::external_body]
pub(crate) fn char_from_code(code: u32) -> (r: Option<char>)
    ensures
        r.is_some() <==> is_scalar_value(code),
        r matches Some(c) ==> code_point(c) == code as int,
{
    char::from_u32(code)
}

/// Relies on `char::to_string`: the one-character string.
#[verifier::external_body]
pub(crate) fn char_text(c: char) -> (r: String)
    ensures
        r@ == seq![c],
{
    c.to_string()
}

/// Relies on `unicode_normalization`'s `nfd` for a single character,
/// collected into a string.
#[verifier::external_body]
pub(crate) fn decompose(c: char) -> (r: String)
    ensures
        r@ == nfd_of(c),
{
    c.nfd().collect()
}

} // verus!
