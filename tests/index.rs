use kbdviz::compose::{BuildError, ComposeEntry, ComposeIndex};
use kbdviz::layout::{KeySymbol, KeyboardLayout, LayoutKey};

fn sym(c: char, name: &str) -> Option<KeySymbol> {
    Some(KeySymbol { codepoint: c as u32, name: name.to_string() })
}

fn dead(name: &str) -> Option<KeySymbol> {
    Some(KeySymbol { codepoint: 0, name: name.to_string() })
}

fn key(code: u32, name: &str, levels: Vec<Option<KeySymbol>>) -> LayoutKey {
    LayoutKey { code, name: Some(name.to_string()), levels }
}

fn entry(character: &str, key_sequence: &str) -> ComposeEntry {
    ComposeEntry { character: character.to_string(), key_sequence: key_sequence.to_string() }
}

fn build(keys: Vec<LayoutKey>) -> ComposeIndex {
    ComposeIndex::build(&KeyboardLayout { keys }).unwrap()
}

/// A small layout: an `e` key with AltGr symbols, a `'` key with a dead
/// acute on AltGr, a digit key with a currency sign, and an unnamed slot.
fn sample_layout() -> Vec<LayoutKey> {
    vec![
        key(13, "AE04", vec![sym('4', "4"), sym('$', "dollar"), sym('€', "EuroSign"), sym('¼', "onequarter")]),
        LayoutKey { code: 20, name: None, levels: vec![sym('ß', "ssharp")] },
        key(26, "AD03", vec![sym('e', "e"), sym('E', "E"), sym('é', "eacute"), sym('É', "Eacute")]),
        key(48, "AC11", vec![sym('\'', "apostrophe"), sym('"', "quotedbl"), dead("dead_acute"), dead("dead_diaeresis")]),
    ]
}

#[test]
fn empty_query_returns_nothing() {
    let index = build(sample_layout());
    assert!(index.find_variants("").is_empty());
}

#[test]
fn absent_letter_returns_nothing() {
    let index = build(sample_layout());
    assert!(index.find_variants("q").is_empty());
    assert!(index.find_variants("Q").is_empty());
    assert!(index.find_variants("5").is_empty());
}

#[test]
fn direct_and_dead_key_entries_in_discovery_order() {
    let index = build(sample_layout());
    let found = index.find_variants("e");
    assert_eq!(
        found,
        vec![
            entry("€", "AltGr-4"),
            entry("é", "AltGr-e"),
            entry("é", "AltGr-'  e"),
            entry("ë", "AltGr-Shift-'  e"),
        ]
    );
}

#[test]
fn only_first_character_of_query_counts() {
    let index = build(sample_layout());
    assert_eq!(index.find_variants("ex"), index.find_variants("e"));
}

#[test]
fn count_is_number_of_letters() {
    let index = build(sample_layout());
    // acute: a e i o u y c n s z; diaeresis: a e i o u y; AltGr-4: e.
    assert_eq!(index.count(), 10);
    assert_eq!(ComposeIndex::empty().count(), 0);
    assert!(ComposeIndex::empty().find_variants("e").is_empty());
}

#[test]
fn every_entry_resolves_to_its_letter() {
    let index = build(sample_layout());
    for letter in 'a'..='z' {
        for e in index.find_variants(&letter.to_string()) {
            let c = e.character.chars().next().unwrap();
            assert_eq!(e.character.chars().count(), 1);
            assert_eq!(kbdviz::base_char::find_base_char(c), Some(letter));
        }
    }
}

#[test]
fn building_twice_gives_the_same_index() {
    let a = build(sample_layout());
    let b = build(sample_layout());
    assert_eq!(a.count(), b.count());
    for letter in 'a'..='z' {
        let q = letter.to_string();
        assert_eq!(a.find_variants(&q), b.find_variants(&q));
    }
}

#[test]
fn sequence_shapes() {
    let index = build(sample_layout());
    for letter in 'a'..='z' {
        for e in index.find_variants(&letter.to_string()) {
            let s = e.key_sequence.as_str();
            let n = s.matches("  ").count();
            if n == 0 {
                assert!(!s.contains('+'));
            } else {
                assert_eq!(n, 1);
                let at = s.find("  ").unwrap();
                let (first, rest) = (&s[..at], &s[at + 2..]);
                assert!(first.rfind('-').is_some());
                assert_eq!(rest.chars().count(), 1);
            }
        }
    }
}

#[test]
fn dead_acute_yields_e_acute() {
    let index = build(vec![key(
        48,
        "AC11",
        vec![sym('\'', "apostrophe"), sym('"', "quotedbl"), dead("dead_acute")],
    )]);
    let found = index.find_variants("e");
    assert!(found
        .iter()
        .any(|e| e.character == "é" && e.key_sequence.ends_with("  e") && e.key_sequence == "AltGr-'  e"));
}

#[test]
fn dead_key_on_key_without_printable_base_is_dropped() {
    let index = build(vec![key(9, "ESC", vec![sym('\u{1b}', "Escape"), None, dead("dead_acute")])]);
    assert_eq!(index.count(), 0);
}

#[test]
fn dead_key_at_plain_level_is_not_expanded() {
    let index = build(vec![key(48, "AC11", vec![dead("dead_acute"), dead("dead_grave")])]);
    assert_eq!(index.count(), 0);
}

#[test]
fn unknown_dead_key_yields_nothing() {
    let index = build(vec![key(48, "AC11", vec![sym('\'', "apostrophe"), None, dead("dead_doubleacute")])]);
    assert_eq!(index.count(), 0);
}

#[test]
fn level_three_capital_of_level_two_is_suppressed() {
    let index = build(vec![key(26, "AD03", vec![sym('x', "x"), sym('X', "X"), sym('e', "e"), sym('E', "E")])]);
    assert_eq!(index.find_variants("e"), vec![entry("e", "AltGr-x")]);
}

#[test]
fn level_three_other_character_is_reported() {
    let index = build(vec![key(26, "AD03", vec![sym('x', "x"), sym('X', "X"), sym('e', "e"), sym('ẽ', "etilde")])]);
    assert_eq!(
        index.find_variants("e"),
        vec![entry("e", "AltGr-x"), entry("ẽ", "AltGr-Shift-x")]
    );
}

#[test]
fn level_three_without_level_two_is_reported() {
    let index = build(vec![key(26, "AD03", vec![sym('x', "x"), sym('X', "X"), None, sym('E', "E")])]);
    assert_eq!(index.find_variants("e"), vec![entry("E", "AltGr-Shift-x")]);
}

#[test]
fn plain_letters_and_shift_capitals_are_not_reported() {
    let index = build(vec![key(38, "AC01", vec![sym('a', "a"), sym('A', "A")])]);
    assert_eq!(index.count(), 0);
}

#[test]
fn plain_accented_letter_uses_key_name() {
    let index = build(vec![key(11, "AE02", vec![sym('é', "eacute"), sym('2', "2"), sym('~', "asciitilde")])]);
    assert_eq!(index.find_variants("e"), vec![entry("é", "AE02")]);
}

#[test]
fn shift_level_non_capital_is_reported() {
    let index = build(vec![key(11, "AE02", vec![sym('2', "2"), sym('é', "eacute")])]);
    assert_eq!(index.find_variants("e"), vec![entry("é", "Shift-2")]);
}

#[test]
fn levels_above_three_are_ignored() {
    let index = build(vec![key(
        26,
        "AD03",
        vec![sym('x', "x"), sym('X', "X"), None, None, sym('é', "eacute"), dead("dead_acute")],
    )]);
    assert_eq!(index.count(), 0);
}

#[test]
fn control_whitespace_and_invalid_symbols_are_excluded() {
    let index = build(vec![
        key(65, "SPCE", vec![sym(' ', "space"), sym('\u{a0}', "nobreakspace"), sym('\u{2003}', "emspace")]),
        key(66, "DELE", vec![sym('\u{7f}', "Delete"), None, sym('\u{85}', "nel")]),
        key(67, "BAD", vec![Some(KeySymbol { codepoint: 0xD800, name: "bad".to_string() }), None, Some(KeySymbol { codepoint: 0x110000, name: "bad".to_string() })]),
    ]);
    assert_eq!(index.count(), 0);
}

#[test]
fn unnamed_keys_are_skipped() {
    let index = build(vec![LayoutKey {
        code: 26,
        name: None,
        levels: vec![sym('x', "x"), sym('X', "X"), sym('é', "eacute"), dead("dead_acute")],
    }]);
    assert_eq!(index.count(), 0);
}

#[test]
fn symbols_without_base_letter_are_dropped() {
    let index = build(vec![key(10, "AE01", vec![sym('1', "1"), sym('!', "exclam"), sym('─', "boxdrawing"), sym('¹', "onesuperior")])]);
    assert_eq!(index.count(), 0);
}

#[test]
fn uppercase_query_starts_with_lowercase_answer() {
    let index = build(sample_layout());
    let lower = index.find_variants("e");
    let upper = index.find_variants("E");
    assert!(!lower.is_empty());
    assert!(upper.len() >= lower.len());
    assert_eq!(&upper[..lower.len()], &lower[..]);
}

#[test]
fn uppercase_accented_query_uses_lowercase_fold() {
    let index = build(vec![key(26, "AD03", vec![sym('x', "x"), sym('X', "X"), sym('é', "eacute")])]);
    // 'É' folds to 'é', which has no entries of its own.
    assert!(index.find_variants("É").is_empty());
    assert_eq!(index.find_variants("E"), index.find_variants("e"));
}

#[test]
fn keys_out_of_order_are_refused() {
    let layout = KeyboardLayout {
        keys: vec![key(26, "AD03", vec![sym('e', "e")]), key(13, "AE04", vec![sym('4', "4")])],
    };
    assert_eq!(ComposeIndex::build(&layout).err(), Some(BuildError::KeysOutOfOrder));
    let twice = KeyboardLayout {
        keys: vec![key(13, "AE04", vec![sym('4', "4")]), key(13, "AE04", vec![sym('4', "4")])],
    };
    assert!(ComposeIndex::build(&twice).is_err());
    assert!(ComposeIndex::build(&KeyboardLayout { keys: vec![] }).is_ok());
}

#[test]
fn duplicate_routes_are_kept() {
    let index = build(vec![
        key(26, "AD03", vec![sym('x', "x"), sym('X', "X"), sym('é', "eacute")]),
        key(48, "AC11", vec![sym('\'', "apostrophe"), None, dead("dead_acute")]),
    ]);
    let found = index.find_variants("e");
    assert_eq!(found, vec![entry("é", "AltGr-x"), entry("é", "AltGr-'  e")]);
}

#[test]
fn ligatures_file_under_override_letters() {
    let index = build(vec![key(38, "AC01", vec![sym('a', "a"), sym('A', "A"), sym('æ', "ae"), sym('Æ', "AE")])]);
    assert_eq!(index.find_variants("a"), vec![entry("æ", "AltGr-a")]);
}

#[test]
fn dead_stroke_files_o_stroke_under_o() {
    let index = build(vec![key(
        47,
        "AC10",
        vec![sym(';', "semicolon"), sym(':', "colon"), dead("dead_stroke")],
    )]);
    assert_eq!(index.find_variants("o"), vec![entry("ø", "AltGr-;  o")]);
    assert!(index.find_variants("l").is_empty());
    assert_eq!(index.count(), 1);
}

#[test]
fn plus_key_keeps_dash_after_modifier() {
    let index = build(vec![key(21, "AE12", vec![sym('+', "plus"), sym('?', "question"), sym('ë', "ediaeresis")])]);
    assert_eq!(index.find_variants("e"), vec![entry("ë", "AltGr-+")]);
}
