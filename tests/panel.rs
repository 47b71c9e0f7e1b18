use kbdviz::keycaps::{keycaps, Keycaps};
use kbdviz::panel::{input_after_key, row_at, PanelState, MAX_ROWS};

fn show(k: Keycaps) -> (String, String, String, &'static str) {
    match k {
        Keycaps::TwoStep { modifier, key, then } => (modifier, key, then, "two"),
        Keycaps::Chord { modifier, key } => (modifier, key, String::new(), "chord"),
        Keycaps::Single { key } => (String::new(), key, String::new(), "single"),
        Keycaps::Unreadable => (String::new(), String::new(), String::new(), "none"),
    }
}

fn parts(m: &str, k: &str, t: &str, kind: &'static str) -> (String, String, String, &'static str) {
    (m.to_string(), k.to_string(), t.to_string(), kind)
}

#[test]
fn keycaps_of_dead_key_sequence() {
    assert_eq!(show(keycaps("AltGr-'  e")), parts("AltGr", "'", "e", "two"));
    assert_eq!(show(keycaps("AltGr-Shift-;  u")), parts("AltGr-Shift", ";", "u", "two"));
}

#[test]
fn keycaps_of_direct_sequence() {
    assert_eq!(show(keycaps("AltGr-e")), parts("AltGr", "e", "", "chord"));
    assert_eq!(show(keycaps("AltGr-Shift-4")), parts("AltGr-Shift", "4", "", "chord"));
    assert_eq!(show(keycaps("Shift--")), parts("Shift-", "", "", "chord"));
}

#[test]
fn keycaps_of_plain_key() {
    assert_eq!(show(keycaps("AE02")), parts("", "AE02", "", "single"));
    assert_eq!(show(keycaps("")), parts("", "", "", "single"));
}

#[test]
fn keycaps_of_two_steps_without_modifier() {
    assert_eq!(show(keycaps("x  e")), parts("", "", "", "none"));
}

#[test]
fn keycaps_trim_the_second_step() {
    assert_eq!(show(keycaps("AltGr-'   e \u{2003}")), parts("AltGr", "'", "e", "two"));
    assert_eq!(show(keycaps("AltGr-'  ")), parts("AltGr", "'", "", "two"));
}

#[test]
fn keycaps_split_at_first_double_space() {
    assert_eq!(show(keycaps("A-b  c  d")), parts("A", "b", "c  d", "two"));
}

#[test]
fn key_press_updates_query() {
    assert_eq!(input_after_key("e", true, Some('x')), "");
    assert_eq!(input_after_key("e", false, Some('x')), "x");
    assert_eq!(input_after_key("e", false, Some('É')), "É");
    assert_eq!(input_after_key("e", false, Some('5')), "e");
    assert_eq!(input_after_key("e", false, Some(' ')), "e");
    assert_eq!(input_after_key("e", false, None), "e");
}

#[test]
fn rows_are_found_by_pixel_row() {
    assert_eq!(row_at(67, 3), None);
    assert_eq!(row_at(68, 3), Some(0));
    assert_eq!(row_at(101, 3), Some(0));
    assert_eq!(row_at(102, 3), Some(1));
    assert_eq!(row_at(169, 3), Some(2));
    assert_eq!(row_at(170, 3), None);
    assert_eq!(row_at(80, 0), None);
    assert_eq!(row_at(-5, 10), None);
    assert_eq!(row_at(407, MAX_ROWS), Some(9));
    assert_eq!(row_at(408, MAX_ROWS), None);
}

#[test]
fn panel_click_and_hover() {
    let mut panel = PanelState::new();
    panel.key_press(false, Some('e'));
    assert_eq!(panel.input, "e");
    panel.show_results(25);
    assert_eq!(panel.rows, MAX_ROWS);
    panel.show_results(2);
    assert_eq!(panel.rows, 2);
    assert_eq!(panel.click(110), Some(1));
    assert_eq!(panel.copied_row, Some(1));
    assert_eq!(panel.click(300), None);
    assert_eq!(panel.copied_row, Some(1));
    assert!(panel.mouse_move(70));
    assert_eq!(panel.hovered_row, Some(0));
    assert!(!panel.mouse_move(71));
    assert!(panel.mouse_move(20));
    assert_eq!(panel.hovered_row, None);
    assert!(!panel.mouse_move(21));
    panel.key_press(true, None);
    assert_eq!(panel.input, "");
    assert_eq!(panel.copied_row, None);
}
