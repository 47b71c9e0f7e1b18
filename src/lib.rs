//! Index of the accented and special characters that a keyboard layout can
//! produce, grouped by the plain letter they derive from, with the key
//! combination that produces each one.

pub mod base_char;
pub mod chars;
pub mod classify;
pub mod compose;
pub mod dead_keys;
pub mod keycaps;
pub mod layout;
pub mod panel;
pub mod shape;
pub mod text;
