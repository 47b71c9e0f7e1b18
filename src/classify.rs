//! The level classifier: which levels of a key are worth reporting, under
//! which modifier label, and which levels hold a dead accent.
use crate::chars::{
    char_is_control, char_is_whitespace, char_of_code, char_text, code_char, is_ascii_graphic,
    is_ascii_lower, is_ascii_upper, is_control_char, is_white_space_char, upper_first,
    uppercase_first,
};
use crate::layout::{KeySymbol, KeyView, LayoutKey, SymbolView};
use crate::text::{has_prefix, starts_with_text};
use vstd::prelude::*;
use vstd::string::StringExecFns;

verus! {

/// The character that a level's symbol stands for, if any.
pub open spec fn symbol_char_of(s: Option<SymbolView>) -> Option<char> {
    match s {
        Some(x) => char_of_code(x.codepoint),
        None => None,
    }
}

/// The character that key `k` produces at level `l`, if any.
pub open spec fn level_char_of(k: KeyView, l: int) -> Option<char> {
    if 0 <= l < k.levels.len() {
        symbol_char_of(k.levels[l])
    } else {
        None
    }
}

/// The label shown for key `k`: its plain symbol when that is printable
/// ASCII, else the key's own name.
pub open spec fn key_label_of(k: KeyView, name: Seq<char>) -> Seq<char> {
    match level_char_of(k, 0) {
        Some(c) => if is_ascii_graphic(c) {
            seq![c]
        } else {
            name
        },
        None => name,
    }
}

/// The modifier label put before the key label at `level`.
pub open spec fn modifier_prefix_of(level: int) -> Seq<char> {
    if level == 0 {
        ""@
    } else if level == 1 {
        "Shift-"@
    } else if level == 2 {
        "AltGr-"@
    } else {
        "AltGr-Shift-"@
    }
}

/// Whether `c`, produced at `level` of a key whose level 2 gives `level2`,
/// is reported: never a control or white-space character; at level 0 not a
/// plain lowercase letter, at level 1 not an uppercase letter, at level 3 not
/// the mere capital of the level-2 character; nothing above level 3.
pub open spec fn is_reportable_of(level: int, c: char, level2: Option<char>) -> bool {
    &&& !is_control_char(c)
    &&& !is_white_space_char(c)
    &&& if level == 0 {
        !is_ascii_lower(c)
    } else if level == 1 {
        !is_ascii_upper(c)
    } else if level == 2 {
        true
    } else if level == 3 {
        !(level2 matches Some(c2) && c == upper_first(c2) && c != c2)
    } else {
        false
    }
}

/// The chord label of a dead accent at level `l` of key `k`, with the
/// accent's keysym name; only AltGr levels count, and only on a key whose
/// plain symbol is printable ASCII.
pub open spec fn dead_chord_of(k: KeyView, l: int) -> Option<(Seq<char>, Seq<char>)> {
    if 2 <= l < 4 && l < k.levels.len() {
        match k.levels[l] {
            Some(s) => if has_prefix(s.name, "dead_"@) {
                match level_char_of(k, 0) {
                    Some(c) => if is_ascii_graphic(c) {
                        Some((modifier_prefix_of(l) + seq![c], s.name))
                    } else {
                        None
                    },
                    None => None,
                }
            } else {
                None
            },
            None => None,
        }
    } else {
        None
    }
}

/// The character of a level's symbol, if any.
pub fn symbol_char(s: &Option<KeySymbol>) -> (r: Option<char>)
    ensures
        r == symbol_char_of(match s {
            Some(x) => Some(x@),
            None => None,
        }),
{
    match s {
        Some(x) => code_char(x.codepoint),
        None => None,
    }
}

/// The character that `key` produces at `level`, if any.
pub fn level_char(key: &LayoutKey, level: usize) -> (r: Option<char>)
    ensures
        r == level_char_of(key@, level as int),
{
    if level < key.levels.len() {
        symbol_char(&key.levels[level])
    } else {
        None
    }
}

/// The label shown for `key`, falling back to `name`.
pub fn key_label(key: &LayoutKey, name: &str) -> (r: String)
    ensures
        r@ == key_label_of(key@, name@),
{
    match level_char(key, 0) {
        Some(c) => if c >= '!' && c <= '~' {
            char_text(c)
        } else {
            String::from_str(name)
        },
        None => String::from_str(name),
    }
}

/// The modifier label for `level`.
pub fn modifier_prefix(level: usize) -> (r: String)
    ensures
        r@ == modifier_prefix_of(level as int),
{
    if level == 0 {
        String::from_str("")
    } else if level == 1 {
        String::from_str("Shift-")
    } else if level == 2 {
        String::from_str("AltGr-")
    } else {
        String::from_str("AltGr-Shift-")
    }
}

/// Whether `c` at `level` is reported, `level2` being what the same key
/// gives at level 2.
pub fn is_reportable(level: usize, c: char, level2: Option<char>) -> (r: bool)
    ensures
        r == is_reportable_of(level as int, c, level2),
{
    if char_is_control(c) || char_is_whitespace(c) {
        return false;
    }
    if level == 0 {
        !('a' <= c && c <= 'z')
    } else if level == 1 {
        !('A' <= c && c <= 'Z')
    } else if level == 2 {
        true
    } else if level == 3 {
        match level2 {
            Some(c2) => !(c == uppercase_first(c2) && c != c2),
            None => true,
        }
    } else {
        false
    }
}

/// The dead-accent chord at `level` of `key`, if that level holds one.
pub fn dead_chord(key: &LayoutKey, level: usize) -> (r: Option<(String, String)>)
    ensures
        match r {
            Some((label, name)) => dead_chord_of(key@, level as int) == Some((label@, name@)),
            None => dead_chord_of(key@, level as int) is None,
        },
{
    if level < 2 || level >= 4 || level >= key.levels.len() {
        return None;
    }
    match &key.levels[level] {
        Some(s) => {
            if !starts_with_text(s.name.as_str(), "dead_") {
                return None;
            }
            match level_char(key, 0) {
                Some(c) => if c >= '!' && c <= '~' {
                    let mut label = modifier_prefix(level);
                    let glyph = char_text(c);
                    label.append(glyph.as_str());
                    Some((label, s.name.clone()))
                } else {
                    None
                },
                None => None,
            }
        },
        None => None,
    }
}

} // verus!
