//! Base-character resolution: the plain lowercase letter under which a
//! produced character is filed.
use crate::chars::{ascii_lower, ascii_lower_of, decompose, is_ascii_letter, nfd_of};
use vstd::prelude::*;

verus! {

/// Letters for symbols that have no canonical decomposition.
pub open spec fn override_base_of(c: char) -> Option<char> {
    if c == '€' {
        Some('e')
    } else if c == '£' {
        Some('l')
    } else if c == '¥' {
        Some('y')
    } else if c == '¢' {
        Some('c')
    } else if c == 'æ' {
        Some('a')
    } else if c == 'œ' {
        Some('o')
    } else if c == 'ø' {
        Some('o')
    } else if c == 'ß' {
        Some('s')
    } else if c == 'ð' {
        Some('d')
    } else if c == 'þ' {
        Some('t')
    } else {
        None
    }
}

/// The base letter of `c` given its decomposition `d`: the first code point
/// of `d` lowercased when it is an ASCII letter, else the override table.
pub open spec fn base_from_decomposition_of(d: Seq<char>, c: char) -> Option<char> {
    if d.len() == 0 {
        None
    } else if is_ascii_letter(d[0]) {
        Some(ascii_lower_of(d[0]))
    } else {
        override_base_of(c)
    }
}

/// The base letter of `c`, if it has one.
pub open spec fn base_char_of(c: char) -> Option<char> {
    base_from_decomposition_of(nfd_of(c), c)
}

pub fn override_base(c: char) -> (r: Option<char>)
    ensures
        r == override_base_of(c),
{
    if c == '€' {
        Some('e')
    } else if c == '£' {
        Some('l')
    } else if c == '¥' {
        Some('y')
    } else if c == '¢' {
        Some('c')
    } else if c == 'æ' {
        Some('a')
    } else if c == 'œ' {
        Some('o')
    } else if c == 'ø' {
        Some('o')
    } else if c == 'ß' {
        Some('s')
    } else if c == 'ð' {
        Some('d')
    } else if c == 'þ' {
        Some('t')
    } else {
        None
    }
}

/// Base letter of `c` from its canonical decomposition `decomposed`.
pub fn base_from_decomposition(decomposed: &str, c: char) -> (r: Option<char>)
    ensures
        r == base_from_decomposition_of(decomposed@, c),
{
    if decomposed.unicode_len() == 0 {
        return None;
    }
    let first = decomposed.get_char(0);
    if ('a' <= first && first <= 'z') || ('A' <= first && first <= 'Z') {
        Some(ascii_lower(first))
    } else {
        override_base(c)
    }
}

/// The base letter under which `c` is indexed: a lowercase ASCII letter, or
/// `None` when `c` has none.
pub fn find_base_char(c: char) -> (r: Option<char>)
    ensures
        r == base_char_of(c),
{
    let decomposed = decompose(c);
    base_from_decomposition(decomposed.as_str(), c)
}

/// Every base letter is a lowercase ASCII letter.
pub proof fn lemma_base_is_lower_letter(c: char)
    ensures
        base_char_of(c) matches Some(b) ==> 'a' <= b && b <= 'z',
{
}

} // verus!
