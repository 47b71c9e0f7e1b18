use kbdviz::base_char::{base_from_decomposition, find_base_char, override_base};
use kbdviz::dead_keys::get_dead_key_combinations;
use kbdviz::text::{same_text, starts_with_text};

#[test]
fn accented_letters_resolve_to_base() {
    assert_eq!(find_base_char('é'), Some('e'));
    assert_eq!(find_base_char('ñ'), Some('n'));
    assert_eq!(find_base_char('É'), Some('e'));
    assert_eq!(find_base_char('ů'), Some('u'));
}

#[test]
fn override_table_covers_undecomposable_symbols() {
    assert_eq!(find_base_char('€'), Some('e'));
    assert_eq!(find_base_char('ß'), Some('s'));
    assert_eq!(find_base_char('£'), Some('l'));
    assert_eq!(find_base_char('¥'), Some('y'));
    assert_eq!(find_base_char('¢'), Some('c'));
    assert_eq!(find_base_char('æ'), Some('a'));
    assert_eq!(find_base_char('œ'), Some('o'));
    assert_eq!(find_base_char('ð'), Some('d'));
    assert_eq!(find_base_char('þ'), Some('t'));
}

#[test]
fn stroke_letters_without_decomposition() {
    // Neither has a canonical decomposition; 'ø' is in the override table.
    assert_eq!(find_base_char('ø'), Some('o'));
    assert_eq!(find_base_char('ł'), None);
}

#[test]
fn unmapped_symbols_have_no_base() {
    assert_eq!(find_base_char('─'), None);
    assert_eq!(find_base_char('5'), None);
    assert_eq!(find_base_char('$'), None);
}

#[test]
fn plain_letters_resolve_to_lowercase() {
    assert_eq!(find_base_char('a'), Some('a'));
    assert_eq!(find_base_char('Z'), Some('z'));
}

#[test]
fn decomposition_first_code_point_decides() {
    assert_eq!(base_from_decomposition("e\u{301}", 'é'), Some('e'));
    assert_eq!(base_from_decomposition("N\u{303}", 'Ñ'), Some('n'));
    assert_eq!(base_from_decomposition("€", '€'), Some('e'));
    assert_eq!(base_from_decomposition("─", '─'), None);
    assert_eq!(base_from_decomposition("", 'ß'), None);
    assert_eq!(override_base('ß'), Some('s'));
    assert_eq!(override_base('ø'), Some('o'));
    assert_eq!(base_from_decomposition("ø", 'ø'), Some('o'));
    assert_eq!(override_base('x'), None);
}

#[test]
fn dead_key_table_lookup() {
    let acute = get_dead_key_combinations("dead_acute");
    assert_eq!(acute.len(), 10);
    assert!(acute.contains(&('e', 'é')));
    assert_eq!(get_dead_key_combinations("dead_stroke"), vec![('l', 'ł'), ('o', 'ø')]);
    assert_eq!(get_dead_key_combinations("dead_tilde"), vec![('a', 'ã'), ('n', 'ñ'), ('o', 'õ')]);
    assert!(get_dead_key_combinations("dead_doubleacute").is_empty());
    assert!(get_dead_key_combinations("").is_empty());
    assert!(get_dead_key_combinations("dead_acut").is_empty());
}

#[test]
fn every_dead_key_name_has_pairs() {
    for name in [
        "dead_acute", "dead_grave", "dead_circumflex", "dead_diaeresis", "dead_tilde",
        "dead_cedilla", "dead_ogonek", "dead_caron", "dead_breve", "dead_macron",
        "dead_abovedot", "dead_abovering", "dead_stroke",
    ] {
        let pairs = get_dead_key_combinations(name);
        assert!(!pairs.is_empty());
        for (letter, _) in pairs {
            assert!(letter.is_ascii_lowercase());
        }
    }
}

#[test]
fn text_comparisons() {
    assert!(starts_with_text("dead_acute", "dead_"));
    assert!(!starts_with_text("dea", "dead_"));
    assert!(!starts_with_text("Dead_acute", "dead_"));
    assert!(same_text("dead_acute", "dead_acute"));
    assert!(!same_text("dead_acute", "dead_acutE"));
    assert!(!same_text("dead_acute", "dead_acute_"));
}
