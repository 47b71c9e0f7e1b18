//! The two shapes of a key sequence: a single chord, which holds no double
//! space, and a dead-key chord followed by two spaces and a letter.
use crate::chars::{is_ascii_graphic, is_ascii_lower};
use crate::classify::{dead_chord_of, key_label_of, level_char_of, modifier_prefix_of};
use crate::compose::{
    chord_entries, chord_entries_upto, dead_chords_upto, dead_entries_upto, direct_entries_upto,
    direct_entry_of,
    key_chords, key_chords_upto, key_direct_entries,
    key_direct_upto, layout_chords,
};
use crate::dead_keys::dead_key_pairs;
use crate::layout::KeyView;
use vstd::prelude::*;

verus! {

pub open spec fn double_space_at(s: Seq<char>, i: int) -> bool {
    0 <= i && i + 1 < s.len() && s[i] == ' ' && s[i + 1] == ' '
}

pub open spec fn has_double_space(s: Seq<char>) -> bool {
    exists|i: int| double_space_at(s, i)
}

pub open spec fn has_no_space(s: Seq<char>) -> bool {
    forall|i: int| 0 <= i < s.len() ==> s[i] != ' '
}

/// Exactly one double space, with a `-` before it and something after it:
/// splitting at the double space, then at the last `-` of the first part,
/// both succeed.
pub open spec fn is_two_step(s: Seq<char>) -> bool {
    exists|i: int|
        #[trigger] double_space_at(s, i) && i + 2 < s.len() && (forall|j: int|
            double_space_at(s, j) ==> j == i) && (exists|d: int| 0 <= d < i && s[d] == '-')
}

pub open spec fn has_no_plus(s: Seq<char>) -> bool {
    forall|i: int| 0 <= i < s.len() ==> s[i] != '+'
}

/// The chord of an AltGr level `l` on the key showing `g`.
pub open spec fn chord_label(l: int, g: char) -> Seq<char> {
    modifier_prefix_of(l) + seq![g]
}

/// A chord, two spaces, then the key `x`.
pub open spec fn two_step_text(chord: Seq<char>, x: char) -> Seq<char> {
    chord + "  "@ + seq![x]
}

/// The modifier label of level `l`, then the key label `label`.
pub open spec fn direct_text(l: int, label: Seq<char>) -> Seq<char> {
    modifier_prefix_of(l) + label
}

/// A dead-key chord label: `AltGr-` or `AltGr-Shift-`, then a printable
/// ASCII key.
pub open spec fn is_chord_label(s: Seq<char>) -> bool {
    exists|l: int, g: char| (l == 2 || l == 3) && is_ascii_graphic(g) && s == #[trigger] chord_label(l, g)
}

/// A two-step sequence: a dead-key chord label, two spaces, and a lowercase
/// ASCII letter.
pub open spec fn is_dead_key_form(s: Seq<char>) -> bool {
    exists|l: int, g: char, x: char|
        (l == 2 || l == 3) && is_ascii_graphic(g) && is_ascii_lower(x) && s
            == #[trigger] two_step_text(chord_label(l, g), x)
}

/// A direct sequence: the modifier label of one of levels 0 to 3, then a key
/// label holding no double space.
pub open spec fn is_direct_form(s: Seq<char>) -> bool {
    exists|l: int, label: Seq<char>|
        0 <= l < 4 && !has_double_space(label) && s == #[trigger] direct_text(l, label)
}

/// No key name of the layout holds a double space.
pub open spec fn names_without_double_space(keys: Seq<KeyView>) -> bool {
    forall|k: int|
        0 <= k < keys.len() ==> ((#[trigger] keys[k]).name matches Some(n) ==> !has_double_space(n))
}

proof fn lemma_concat_no_double_space(p: Seq<char>, q: Seq<char>)
    requires
        has_no_space(p),
        !has_double_space(q),
    ensures
        !has_double_space(p + q),
{
    let s = p + q;
    assert forall|i: int| !double_space_at(s, i) by {
        if double_space_at(s, i) {
            if i < p.len() {
                assert(s[i] == p[i]);
            } else {
                assert(double_space_at(q, i - p.len()));
            }
        }
    }
}

/// The modifier labels hold neither a space nor a `+`; each but the empty one
/// ends in `-`, and the AltGr ones begin with `AltGr-`.
pub proof fn lemma_prefix_shape(l: int)
    ensures
        has_no_space(modifier_prefix_of(l)),
        has_no_plus(modifier_prefix_of(l)),
        1 <= l ==> modifier_prefix_of(l).len() > 0 && modifier_prefix_of(l).last() == '-',
        2 <= l ==> modifier_prefix_of(l).len() >= 6 && modifier_prefix_of(l)[5] == '-',
{
    reveal_strlit("");
    reveal_strlit("Shift-");
    reveal_strlit("AltGr-");
    reveal_strlit("AltGr-Shift-");
}

proof fn lemma_key_direct_shape(k: KeyView, name: Seq<char>, n: int)
    requires
        !has_double_space(name),
    ensures
        forall|i: int|
            0 <= i < key_direct_upto(k, name, n).len() ==> {
                let s = (#[trigger] key_direct_upto(k, name, n)[i]).1.key_sequence;
                !has_double_space(s) && is_direct_form(s)
            },
    decreases n,
{
    if n > 0 {
        lemma_key_direct_shape(k, name, n - 1);
        let prev = key_direct_upto(k, name, n - 1);
        let label = key_label_of(k, name);
        lemma_prefix_shape(n - 1);
        assert(!has_double_space(label)) by {
            if label != name {
                assert(label.len() == 1);
            }
        }
        lemma_concat_no_double_space(modifier_prefix_of(n - 1), label);
        if direct_entry_of(k, name, n - 1) is Some {
            assert(direct_entry_of(k, name, n - 1)->Some_0.1.key_sequence == direct_text(n - 1, label));
        }
        assert forall|i: int| 0 <= i < key_direct_upto(k, name, n).len() implies {
            let s = (#[trigger] key_direct_upto(k, name, n)[i]).1.key_sequence;
            !has_double_space(s) && is_direct_form(s)
        } by {
            if i < prev.len() {
                assert(key_direct_upto(k, name, n)[i] == prev[i]);
            }
        }
    }
}

proof fn lemma_direct_shape(keys: Seq<KeyView>, n: int)
    requires
        names_without_double_space(keys),
        n <= keys.len(),
    ensures
        forall|i: int|
            0 <= i < direct_entries_upto(keys, n).len() ==> {
                let s = (#[trigger] direct_entries_upto(keys, n)[i]).1.key_sequence;
                !has_double_space(s) && is_direct_form(s)
            },
    decreases n,
{
    if n > 0 {
        lemma_direct_shape(keys, n - 1);
        let prev = direct_entries_upto(keys, n - 1);
        let k = keys[n - 1];
        let here = key_direct_entries(k);
        if let Some(name) = k.name {
            lemma_key_direct_shape(k, name, k.levels.len() as int);
        }
        assert forall|i: int| 0 <= i < (prev + here).len() implies {
            let s = (#[trigger] (prev + here)[i]).1.key_sequence;
            !has_double_space(s) && is_direct_form(s)
        } by {
            if i >= prev.len() {
                assert((prev + here)[i] == here[i - prev.len()]);
            }
        }
    }
}

proof fn lemma_key_chords_shape(k: KeyView, n: int)
    ensures
        forall|i: int|
            0 <= i < key_chords_upto(k, n).len() ==> is_chord_label(
                (#[trigger] key_chords_upto(k, n)[i]).0,
            ),
    decreases n,
{
    if n > 2 {
        lemma_key_chords_shape(k, n - 1);
        let prev = key_chords_upto(k, n - 1);
        if let Some(chord) = dead_chord_of(k, n - 1) {
            let c = level_char_of(k, 0)->Some_0;
            assert(chord.0 == chord_label(n - 1, c));
        }
        assert forall|i: int| 0 <= i < key_chords_upto(k, n).len() implies is_chord_label(
            (#[trigger] key_chords_upto(k, n)[i]).0,
        ) by {
            if i < prev.len() {
                assert(key_chords_upto(k, n)[i] == prev[i]);
            }
        }
    }
}

proof fn lemma_dead_chords_shape(keys: Seq<KeyView>, n: int)
    requires
        n <= keys.len(),
    ensures
        forall|i: int|
            0 <= i < dead_chords_upto(keys, n).len() ==> is_chord_label(
                (#[trigger] dead_chords_upto(keys, n)[i]).0,
            ),
    decreases n,
{
    if n > 0 {
        lemma_dead_chords_shape(keys, n - 1);
        let prev = dead_chords_upto(keys, n - 1);
        let here = key_chords(keys[n - 1]);
        lemma_key_chords_shape(keys[n - 1], 4);
        assert forall|i: int| 0 <= i < (prev + here).len() implies is_chord_label(
            (#[trigger] (prev + here)[i]).0,
        ) by {
            if i >= prev.len() {
                assert((prev + here)[i] == here[i - prev.len()]);
            }
        }
    }
}

proof fn lemma_table_letters(name: Seq<char>)
    ensures
        forall|i: int|
            0 <= i < dead_key_pairs(name).len() ==> 'a' <= (#[trigger] dead_key_pairs(name)[i]).0
                <= 'z',
{
}

proof fn lemma_two_step(p: Seq<char>, x: char)
    requires
        is_chord_label(p),
        is_ascii_lower(x),
    ensures
        is_two_step(two_step_text(p, x)),
        is_dead_key_form(two_step_text(p, x)),
{
    reveal_strlit("  ");
    let (l, g) = choose|l: int, g: char|
        (l == 2 || l == 3) && is_ascii_graphic(g) && p == #[trigger] chord_label(l, g);
    lemma_prefix_shape(l);
    let prefix = modifier_prefix_of(l);
    assert(has_no_space(p)) by {
        assert forall|i: int| 0 <= i < p.len() implies p[i] != ' ' by {
            if i < prefix.len() {
                assert(p[i] == prefix[i]);
            }
        }
    }
    let d = prefix.len() - 1;
    assert(p[d] == '-');
    let s = two_step_text(p, x);
    let i = p.len() as int;
    assert(s[i] == ' ' && s[i + 1] == ' ' && s[i + 2] == x);
    assert(double_space_at(s, i));
    assert(s[d] == '-');
    assert forall|j: int| double_space_at(s, j) implies j == i by {
        if j < i {
            assert(s[j] == p[j]);
        } else if j > i {
            assert(s[j + 1] == x);
        }
    }
    assert(s == two_step_text(chord_label(l, g), x));
}

proof fn lemma_chord_entries_shape(chord: (Seq<char>, Seq<char>), n: int)
    requires
        is_chord_label(chord.0),
        n <= dead_key_pairs(chord.1).len(),
    ensures
        forall|i: int|
            0 <= i < chord_entries_upto(chord, dead_key_pairs(chord.1), n).len() ==> {
                let s = (#[trigger] chord_entries_upto(chord, dead_key_pairs(chord.1), n)[i]).1.key_sequence;
                is_two_step(s) && is_dead_key_form(s)
            },
    decreases n,
{
    if n > 0 {
        lemma_chord_entries_shape(chord, n - 1);
        let pairs = dead_key_pairs(chord.1);
        let prev = chord_entries_upto(chord, pairs, n - 1);
        let pair = pairs[n - 1];
        lemma_table_letters(chord.1);
        lemma_two_step(chord.0, pair.0);
        assert forall|i: int| 0 <= i < chord_entries_upto(chord, pairs, n).len() implies {
            let s = (#[trigger] chord_entries_upto(chord, pairs, n)[i]).1.key_sequence;
            is_two_step(s) && is_dead_key_form(s)
        } by {
            if i < prev.len() {
                assert(chord_entries_upto(chord, pairs, n)[i] == prev[i]);
            }
        }
    }
}

proof fn lemma_dead_entries_shape(chords: Seq<(Seq<char>, Seq<char>)>, n: int)
    requires
        n <= chords.len(),
        forall|i: int| 0 <= i < chords.len() ==> is_chord_label((#[trigger] chords[i]).0),
    ensures
        forall|i: int|
            0 <= i < dead_entries_upto(chords, n).len() ==> {
                let s = (#[trigger] dead_entries_upto(chords, n)[i]).1.key_sequence;
                is_two_step(s) && is_dead_key_form(s)
            },
    decreases n,
{
    if n > 0 {
        lemma_dead_entries_shape(chords, n - 1);
        let prev = dead_entries_upto(chords, n - 1);
        let chord = chords[n - 1];
        let here = chord_entries(chord);
        lemma_chord_entries_shape(chord, dead_key_pairs(chord.1).len() as int);
        assert forall|i: int| 0 <= i < (prev + here).len() implies {
            let s = (#[trigger] (prev + here)[i]).1.key_sequence;
            is_two_step(s) && is_dead_key_form(s)
        } by {
            if i >= prev.len() {
                assert((prev + here)[i] == here[i - prev.len()]);
            }
        }
    }
}

/// Every two-step sequence a layout yields is `AltGr-` or `AltGr-Shift-`, a
/// printable ASCII key, two spaces and a lowercase letter; it holds exactly
/// one double space, with a `-` before it and the letter after it.
pub proof fn lemma_dead_key_sequences(keys: Seq<KeyView>)
    ensures
        forall|i: int|
            0 <= i < dead_entries_upto(layout_chords(keys), layout_chords(keys).len() as int).len()
                ==> {
                let s = (#[trigger] dead_entries_upto(
                    layout_chords(keys),
                    layout_chords(keys).len() as int,
                )[i]).1.key_sequence;
                is_two_step(s) && is_dead_key_form(s)
            },
{
    lemma_dead_chords_shape(keys, keys.len() as int);
    lemma_dead_entries_shape(layout_chords(keys), layout_chords(keys).len() as int);
}

/// The sequences a layout yields have the two documented shapes. A direct one
/// is one of the modifier labels `""`, `Shift-`, `AltGr-`, `AltGr-Shift-`
/// (none holds a `+`; see `lemma_prefix_shape`) followed by the key label, and
/// holds no double space; a two-step one is as `lemma_dead_key_sequences`
/// states. Key names with a double space of their own are left out, since a
/// name may be shown as the key label.
pub proof fn lemma_sequence_shapes(keys: Seq<KeyView>)
    requires
        names_without_double_space(keys),
    ensures
        forall|i: int|
            0 <= i < direct_entries_upto(keys, keys.len() as int).len() ==> {
                let s = (#[trigger] direct_entries_upto(keys, keys.len() as int)[i]).1.key_sequence;
                !has_double_space(s) && is_direct_form(s)
            },
        forall|i: int|
            0 <= i < dead_entries_upto(layout_chords(keys), layout_chords(keys).len() as int).len()
                ==> {
                let s = (#[trigger] dead_entries_upto(
                    layout_chords(keys),
                    layout_chords(keys).len() as int,
                )[i]).1.key_sequence;
                is_two_step(s) && is_dead_key_form(s)
            },
{
    lemma_direct_shape(keys, keys.len() as int);
    lemma_dead_key_sequences(keys);
}

} // verus!
