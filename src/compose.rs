//! The compose index: for each base letter, the characters derived from it
//! and the key sequence that produces each one.
use crate::base_char::{base_char_of, find_base_char, lemma_base_is_lower_letter};
use crate::classify::{
    dead_chord, dead_chord_of, is_reportable, is_reportable_of, key_label, key_label_of,
    level_char, level_char_of, modifier_prefix, modifier_prefix_of,
};
use crate::dead_keys::{dead_key_pairs, get_dead_key_combinations};
use crate::layout::{codes_ascending, KeyView, KeyboardLayout, LayoutKey};
use crate::text::has_prefix;
use crate::chars::{
    ascii_lower_of, char_is_uppercase, char_text, is_ascii_graphic, is_ascii_letter, is_ascii_lower,
    is_ascii_upper, is_control_char,
    is_white_space_char, is_upper_char, lower_first, lowercase_first,
    upper_first, uppercase_first,
};
use std::collections::HashMap;
use vstd::prelude::*;
use vstd::string::StringExecFns;

verus! {

broadcast use vstd::std_specs::hash::group_hash_axioms;

/// One reachable character and the keys that produce it: either one chord
/// (`"AltGr-e"`) or a dead-key chord, two spaces and a plain letter
/// (`"AltGr-'  e"`).
#[derive(Clone, Debug, PartialEq, Eq)]
pub struct ComposeEntry {
    pub character: String,
    pub key_sequence: String,
}

pub ghost struct EntryView {
    pub character: Seq<char>,
    pub key_sequence: Seq<char>,
}

impl View for ComposeEntry {
    type V = EntryView;

    open spec fn view(&self) -> EntryView {
        EntryView { character: self.character@, key_sequence: self.key_sequence@ }
    }
}

pub open spec fn entries_view(v: Seq<ComposeEntry>) -> Seq<EntryView> {
    v.map_values(|e: ComposeEntry| e@)
}

/// The model of an index: base letter's code point to its entries, in the
/// order they were found.
pub open spec fn map_model(m: Map<u32, Vec<ComposeEntry>>) -> Map<u32, Seq<EntryView>> {
    m.map_values(|v: Vec<ComposeEntry>| entries_view(v@))
}

/// `m` with entry `e.1` appended under base `e.0`.
pub open spec fn add_entry_model(m: Map<u32, Seq<EntryView>>, e: (u32, EntryView)) -> Map<
    u32,
    Seq<EntryView>,
> {
    m.insert(
        e.0,
        if m.contains_key(e.0) {
            m[e.0].push(e.1)
        } else {
            seq![e.1]
        },
    )
}

/// `m` with the entries `es` appended in order.
pub open spec fn extend_index(m: Map<u32, Seq<EntryView>>, es: Seq<(u32, EntryView)>) -> Map<
    u32,
    Seq<EntryView>,
>
    decreases es.len(),
{
    if es.len() == 0 {
        m
    } else {
        add_entry_model(extend_index(m, es.drop_last()), es.last())
    }
}

/// The entries filed under `key`; empty when there are none.
pub open spec fn entries_under(m: Map<u32, Seq<EntryView>>, key: u32) -> Seq<EntryView> {
    if m.contains_key(key) {
        m[key]
    } else {
        Seq::empty()
    }
}

/// The answer to a query for `input`: nothing for empty input; else the
/// entries under the lowercase form of its first character, followed, when
/// that character is uppercase, by those under its uppercase form.
pub open spec fn variants_of(m: Map<u32, Seq<EntryView>>, input: Seq<char>) -> Seq<EntryView> {
    if input.len() == 0 {
        Seq::empty()
    } else {
        let c = input[0];
        entries_under(m, lower_first(c) as u32) + if is_upper_char(c) {
            entries_under(m, upper_first(c) as u32)
        } else {
            Seq::empty()
        }
    }
}

/// Every key has entries, and each entry is one character whose base letter
/// is that key.
pub open spec fn index_well_formed(m: Map<u32, Seq<EntryView>>) -> bool {
    forall|k: u32|
        #![trigger m[k]]
        m.contains_key(k) ==> {
            &&& m[k].len() > 0
            &&& forall|i: int|
                0 <= i < m[k].len() ==> {
                    &&& (#[trigger] m[k][i]).character.len() == 1
                    &&& base_char_of(m[k][i].character[0]) matches Some(b) && b as u32 == k
                }
        }
}

/// Index of base letters to the characters derived from them.
pub struct ComposeIndex {
    index: HashMap<u32, Vec<ComposeEntry>>,
}

impl ComposeIndex {
    #[verifier::type_invariant]
    spec fn inv(&self) -> bool {
        index_well_formed(map_model(self.index@))
    }
}

impl View for ComposeIndex {
    type V = Map<u32, Seq<EntryView>>;

    closed spec fn view(&self) -> Map<u32, Seq<EntryView>> {
        map_model(self.index@)
    }
}

/// A copy of `e`.
fn copy_entry(e: &ComposeEntry) -> (r: ComposeEntry)
    ensures
        r@ == e@,
{
    ComposeEntry { character: e.character.clone(), key_sequence: e.key_sequence.clone() }
}

/// Appends copies of `from` to `to`.
fn append_entries(to: &mut Vec<ComposeEntry>, from: &Vec<ComposeEntry>)
    ensures
        entries_view(final(to)@) == entries_view(old(to)@) + entries_view(from@),
{
    let ghost start = entries_view(to@);
    let mut i: usize = 0;
    while i < from.len()
        invariant
            i <= from@.len(),
            entries_view(to@) == start + entries_view(from@.subrange(0, i as int)),
        decreases from@.len() - i,
    {
        let e = copy_entry(&from[i]);
        let ghost prev = to@;
        to.push(e);
        assert(entries_view(to@) =~= entries_view(prev).push(from@[i as int]@));
        assert(from@.subrange(0, i + 1) =~= from@.subrange(0, i as int).push(from@[i as int]));
        assert(entries_view(from@.subrange(0, i + 1)) =~= entries_view(
            from@.subrange(0, i as int),
        ).push(from@[i as int]@));
        assert(entries_view(to@) =~= start + entries_view(from@.subrange(0, i + 1)));
        i = i + 1;
    }
    assert(from@.subrange(0, from@.len() as int) =~= from@);
}

/// Files an entry for `character`, reached by `key_sequence`, under `base`.
fn add_entry(
    index: &mut HashMap<u32, Vec<ComposeEntry>>,
    base: char,
    character: &str,
    key_sequence: &str,
)
    requires
        index_well_formed(map_model(old(index)@)),
        character@.len() == 1,
        base_char_of(character@[0]) == Some(base),
    ensures
        index_well_formed(map_model(final(index)@)),
        map_model(final(index)@) == add_entry_model(
            map_model(old(index)@),
            (base as u32, EntryView { character: character@, key_sequence: key_sequence@ }),
        ),
{
    let entry = ComposeEntry {
        character: String::from_str(character),
        key_sequence: String::from_str(key_sequence),
    };
    let ghost ev = entry@;
    let key = base as u32;
    let ghost before = map_model(index@);
    match index.remove(&key) {
        Some(mut list) => {
            assert(before[key] == entries_view(list@));
            list.push(entry);
            assert(entries_view(list@) =~= before[key].push(ev));
            index.insert(key, list);
        },
        None => {
            let mut list: Vec<ComposeEntry> = Vec::new();
            list.push(entry);
            assert(entries_view(list@) =~= seq![ev]);
            index.insert(key, list);
        },
    }
    assert(map_model(index@) =~= add_entry_model(before, (key, ev)));
    assert forall|k: u32| #[trigger] map_model(index@).contains_key(k) implies {
        let m = map_model(index@);
        &&& m[k].len() > 0
        &&& forall|i: int|
            0 <= i < m[k].len() ==> {
                &&& (#[trigger] m[k][i]).character.len() == 1
                &&& base_char_of(m[k][i].character[0]) matches Some(b) && b as u32 == k
            }
    } by {
        if k != key {
            assert(before.contains_key(k));
            assert(map_model(index@)[k] == before[k]);
        }
    }
}


/// Why a layout could not be indexed.
#[derive(Clone, Copy, Debug, PartialEq, Eq)]
pub enum BuildError {
    /// The keys are not listed by strictly ascending key code.
    KeysOutOfOrder,
}

/// The entry that level `l` of key `k`, named `name`, contributes, with the
/// code point of its base letter.
pub open spec fn direct_entry_of(k: KeyView, name: Seq<char>, l: int) -> Option<(u32, EntryView)> {
    match level_char_of(k, l) {
        Some(c) => if is_reportable_of(l, c, level_char_of(k, 2)) {
            match base_char_of(c) {
                Some(b) => Some(
                    (
                        b as u32,
                        EntryView {
                            character: seq![c],
                            key_sequence: modifier_prefix_of(l) + key_label_of(k, name),
                        },
                    ),
                ),
                None => None,
            }
        } else {
            None
        },
        None => None,
    }
}

/// Entries from levels `0..n` of key `k`.
pub open spec fn key_direct_upto(k: KeyView, name: Seq<char>, n: int) -> Seq<(u32, EntryView)>
    decreases n,
{
    if n <= 0 {
        Seq::empty()
    } else {
        let prev = key_direct_upto(k, name, n - 1);
        match direct_entry_of(k, name, n - 1) {
            Some(e) => prev.push(e),
            None => prev,
        }
    }
}

/// Entries that the levels of key `k` give directly; none for an unnamed key.
pub open spec fn key_direct_entries(k: KeyView) -> Seq<(u32, EntryView)> {
    match k.name {
        Some(name) => key_direct_upto(k, name, k.levels.len() as int),
        None => Seq::empty(),
    }
}

/// Direct entries of the first `n` keys, key by key.
pub open spec fn direct_entries_upto(keys: Seq<KeyView>, n: int) -> Seq<(u32, EntryView)>
    decreases n,
{
    if n <= 0 {
        Seq::empty()
    } else {
        direct_entries_upto(keys, n - 1) + key_direct_entries(keys[n - 1])
    }
}

/// Dead-accent chords at levels `2..n` of key `k`.
pub open spec fn key_chords_upto(k: KeyView, n: int) -> Seq<(Seq<char>, Seq<char>)>
    decreases n,
{
    if n <= 2 {
        Seq::empty()
    } else {
        let prev = key_chords_upto(k, n - 1);
        match dead_chord_of(k, n - 1) {
            Some(c) => prev.push(c),
            None => prev,
        }
    }
}

/// Dead-accent chords of key `k`; none for an unnamed key.
pub open spec fn key_chords(k: KeyView) -> Seq<(Seq<char>, Seq<char>)> {
    match k.name {
        Some(_) => key_chords_upto(k, 4),
        None => Seq::empty(),
    }
}

/// Dead-accent chords of the first `n` keys.
pub open spec fn dead_chords_upto(keys: Seq<KeyView>, n: int) -> Seq<(Seq<char>, Seq<char>)>
    decreases n,
{
    if n <= 0 {
        Seq::empty()
    } else {
        dead_chords_upto(keys, n - 1) + key_chords(keys[n - 1])
    }
}

/// The two-step entry for `pair` after the dead-key chord `chord`.
pub open spec fn dead_entry_of(chord: (Seq<char>, Seq<char>), pair: (char, char)) -> Option<
    (u32, EntryView),
> {
    match base_char_of(pair.1) {
        Some(b) => Some(
            (
                b as u32,
                EntryView { character: seq![pair.1], key_sequence: chord.0 + "  "@ + seq![pair.0] },
            ),
        ),
        None => None,
    }
}

/// Two-step entries of `chord` for the first `n` of `pairs`.
pub open spec fn chord_entries_upto(
    chord: (Seq<char>, Seq<char>),
    pairs: Seq<(char, char)>,
    n: int,
) -> Seq<(u32, EntryView)>
    decreases n,
{
    if n <= 0 {
        Seq::empty()
    } else {
        let prev = chord_entries_upto(chord, pairs, n - 1);
        match dead_entry_of(chord, pairs[n - 1]) {
            Some(e) => prev.push(e),
            None => prev,
        }
    }
}

/// Two-step entries of `chord`, one per pair of its dead key.
pub open spec fn chord_entries(chord: (Seq<char>, Seq<char>)) -> Seq<(u32, EntryView)> {
    chord_entries_upto(chord, dead_key_pairs(chord.1), dead_key_pairs(chord.1).len() as int)
}

/// Two-step entries of the first `n` chords.
pub open spec fn dead_entries_upto(chords: Seq<(Seq<char>, Seq<char>)>, n: int) -> Seq<
    (u32, EntryView),
>
    decreases n,
{
    if n <= 0 {
        Seq::empty()
    } else {
        dead_entries_upto(chords, n - 1) + chord_entries(chords[n - 1])
    }
}

/// Every chord of the layout, in key order.
pub open spec fn layout_chords(keys: Seq<KeyView>) -> Seq<(Seq<char>, Seq<char>)> {
    dead_chords_upto(keys, keys.len() as int)
}

/// Every entry of the layout in discovery order: all direct entries, then
/// all two-step ones.
pub open spec fn layout_entries(keys: Seq<KeyView>) -> Seq<(u32, EntryView)> {
    direct_entries_upto(keys, keys.len() as int) + dead_entries_upto(
        layout_chords(keys),
        layout_chords(keys).len() as int,
    )
}

/// The index built from the layout `keys`.
pub open spec fn built_index(keys: Seq<KeyView>) -> Map<u32, Seq<EntryView>> {
    extend_index(Map::empty(), layout_entries(keys))
}

/// What building from `keys` gives: the index of its entries when the key
/// codes ascend, else `KeysOutOfOrder`.
pub open spec fn build_outcome(keys: Seq<KeyView>, r: Result<ComposeIndex, BuildError>) -> bool {
    match r {
        Ok(index) => codes_ascending(keys) && index@ == built_index(keys),
        Err(e) => !codes_ascending(keys) && e == BuildError::KeysOutOfOrder,
    }
}

/// Appending two runs of entries is appending their concatenation.
pub proof fn lemma_extend_concat(
    m: Map<u32, Seq<EntryView>>,
    a: Seq<(u32, EntryView)>,
    b: Seq<(u32, EntryView)>,
)
    ensures
        extend_index(m, a + b) == extend_index(extend_index(m, a), b),
    decreases b.len(),
{
    if b.len() == 0 {
        assert(a + b =~= a);
    } else {
        lemma_extend_concat(m, a, b.drop_last());
        assert((a + b).drop_last() =~= a + b.drop_last());
    }
}

/// Files the direct entries of `key` (named `name`).
fn add_key_direct(index: &mut HashMap<u32, Vec<ComposeEntry>>, key: &LayoutKey, name: &String)
    requires
        index_well_formed(map_model(old(index)@)),
        key@.name == Some(name@),
    ensures
        index_well_formed(map_model(final(index)@)),
        map_model(final(index)@) == extend_index(map_model(old(index)@), key_direct_entries(key@)),
{
    let ghost m0 = map_model(index@);
    let ghost k = key@;
    let level2 = level_char(key, 2);
    let label = key_label(key, name.as_str());
    let n = key.levels.len();
    let mut level: usize = 0;
    while level < n
        invariant
            n == k.levels.len(),
            k == key@,
            level <= n,
            level2 == level_char_of(k, 2),
            label@ == key_label_of(k, name@),
            index_well_formed(map_model(index@)),
            map_model(index@) == extend_index(m0, key_direct_upto(k, name@, level as int)),
        decreases n - level,
    {
        let ghost prev = key_direct_upto(k, name@, level as int);
        match level_char(key, level) {
            Some(c) => {
                if is_reportable(level, c, level2) {
                    match find_base_char(c) {
                        Some(b) => {
                            let text = char_text(c);
                            let mut sequence = modifier_prefix(level);
                            sequence.append(label.as_str());
                            add_entry(index, b, text.as_str(), sequence.as_str());
                            let ghost e = direct_entry_of(k, name@, level as int)->Some_0;
                            assert(key_direct_upto(k, name@, level + 1) == prev.push(e));
                            assert(prev.push(e).drop_last() =~= prev);
                        },
                        None => {},
                    }
                }
            },
            None => {},
        }
        level = level + 1;
    }
}

/// The label and dead-key name of each chord.
pub open spec fn chords_view(v: Seq<(String, String)>) -> Seq<(Seq<char>, Seq<char>)> {
    v.map_values(|p: (String, String)| (p.0@, p.1@))
}

/// Appends the dead-accent chords of `key` to `chords`.
fn collect_key_chords(chords: &mut Vec<(String, String)>, key: &LayoutKey)
    ensures
        chords_view(final(chords)@) == chords_view(old(chords)@) + key_chords(key@),
{
    let ghost start = chords_view(chords@);
    if key.name.is_none() {
        assert(chords_view(chords@) =~= start + key_chords(key@));
        return;
    }
    let mut level: usize = 2;
    while level < 4
        invariant
            2 <= level <= 4,
            key@.name is Some,
            chords_view(chords@) == start + key_chords_upto(key@, level as int),
        decreases 4 - level,
    {
        let ghost before = chords@;
        match dead_chord(key, level) {
            Some(chord) => {
                chords.push(chord);
                assert(chords_view(chords@) =~= chords_view(before).push((chord.0@, chord.1@)));
                assert(chords_view(chords@) =~= start + key_chords_upto(key@, level + 1));
            },
            None => {
                assert(chords_view(chords@) =~= start + key_chords_upto(key@, level + 1));
            },
        }
        level = level + 1;
    }
}

/// Files the two-step entries of one dead-accent chord.
fn add_chord_entries(index: &mut HashMap<u32, Vec<ComposeEntry>>, label: &String, dead_type: &String)
    requires
        index_well_formed(map_model(old(index)@)),
    ensures
        index_well_formed(map_model(final(index)@)),
        map_model(final(index)@) == extend_index(
            map_model(old(index)@),
            chord_entries((label@, dead_type@)),
        ),
{
    let ghost m0 = map_model(index@);
    let ghost chord = (label@, dead_type@);
    let pairs = get_dead_key_combinations(dead_type.as_str());
    let mut j: usize = 0;
    while j < pairs.len()
        invariant
            j <= pairs@.len(),
            pairs@ == dead_key_pairs(dead_type@),
            chord == (label@, dead_type@),
            index_well_formed(map_model(index@)),
            map_model(index@) == extend_index(m0, chord_entries_upto(chord, pairs@, j as int)),
        decreases pairs@.len() - j,
    {
        let ghost prev = chord_entries_upto(chord, pairs@, j as int);
        let (letter, composed) = pairs[j];
        assert(pairs@[j as int] == (letter, composed));
        match find_base_char(composed) {
            Some(b) => {
                let mut sequence = label.clone();
                sequence.append("  ");
                let tail = char_text(letter);
                sequence.append(tail.as_str());
                let text = char_text(composed);
                add_entry(index, b, text.as_str(), sequence.as_str());
                let ghost e = dead_entry_of(chord, pairs@[j as int])->Some_0;
                assert(sequence@ == label@ + "  "@ + seq![letter]);
                assert(chord_entries_upto(chord, pairs@, j + 1) == prev.push(e));
                assert(prev.push(e).drop_last() =~= prev);
                assert(e == (b as u32, EntryView { character: text@, key_sequence: sequence@ }));
            },
            None => {
                assert(chord_entries_upto(chord, pairs@, j + 1) == prev);
            },
        }
        j = j + 1;
    }
}

proof fn lemma_add_keeps(m: Map<u32, Seq<EntryView>>, e: (u32, EntryView), k: u32, v: EntryView)
    requires
        m.contains_key(k),
        m[k].contains(v),
    ensures
        add_entry_model(m, e).contains_key(k),
        add_entry_model(m, e)[k].contains(v),
{
    if e.0 == k {
        let i = choose|i: int| 0 <= i < m[k].len() && m[k][i] == v;
        assert(add_entry_model(m, e)[k][i] == v);
    }
}

/// Each appended entry is found under its letter afterwards.
pub proof fn lemma_extend_contains(m: Map<u32, Seq<EntryView>>, es: Seq<(u32, EntryView)>, i: int)
    requires
        0 <= i < es.len(),
    ensures
        extend_index(m, es).contains_key(es[i].0),
        extend_index(m, es)[es[i].0].contains(es[i].1),
    decreases es.len(),
{
    let prev = es.drop_last();
    let before = extend_index(m, prev);
    let k = es[i].0;
    if i == es.len() - 1 {
        if before.contains_key(k) {
            assert(extend_index(m, es)[k][before[k].len() as int] == es[i].1);
        } else {
            assert(extend_index(m, es)[k][0] == es[i].1);
        }
    } else {
        lemma_extend_contains(m, prev, i);
        assert(prev[i] == es[i]);
        lemma_add_keeps(before, es.last(), k, es[i].1);
    }
}

proof fn lemma_key_chords_contain(k: KeyView, n: int, l: int)
    requires
        2 <= l < n,
        dead_chord_of(k, l) is Some,
    ensures
        key_chords_upto(k, n).contains(dead_chord_of(k, l)->Some_0),
    decreases n,
{
    let prev = key_chords_upto(k, n - 1);
    if l == n - 1 {
        assert(key_chords_upto(k, n)[prev.len() as int] == dead_chord_of(k, l)->Some_0);
    } else {
        lemma_key_chords_contain(k, n - 1, l);
        let i = choose|i: int| 0 <= i < prev.len() && prev[i] == dead_chord_of(k, l)->Some_0;
        assert(key_chords_upto(k, n)[i] == prev[i]);
    }
}

proof fn lemma_dead_chords_contain(keys: Seq<KeyView>, n: int, ki: int, c: (Seq<char>, Seq<char>))
    requires
        0 <= ki < n <= keys.len(),
        key_chords(keys[ki]).contains(c),
    ensures
        dead_chords_upto(keys, n).contains(c),
    decreases n,
{
    let prev = dead_chords_upto(keys, n - 1);
    let here = key_chords(keys[n - 1]);
    if ki == n - 1 {
        let j = choose|j: int| 0 <= j < here.len() && here[j] == c;
        assert((prev + here)[prev.len() + j] == c);
    } else {
        lemma_dead_chords_contain(keys, n - 1, ki, c);
        let i = choose|i: int| 0 <= i < prev.len() && prev[i] == c;
        assert((prev + here)[i] == c);
    }
}

proof fn lemma_chord_entries_contain(
    chord: (Seq<char>, Seq<char>),
    pairs: Seq<(char, char)>,
    n: int,
    j: int,
)
    requires
        0 <= j < n <= pairs.len(),
        dead_entry_of(chord, pairs[j]) is Some,
    ensures
        chord_entries_upto(chord, pairs, n).contains(dead_entry_of(chord, pairs[j])->Some_0),
    decreases n,
{
    let prev = chord_entries_upto(chord, pairs, n - 1);
    if j == n - 1 {
        assert(chord_entries_upto(chord, pairs, n)[prev.len() as int] == dead_entry_of(
            chord,
            pairs[j],
        )->Some_0);
    } else {
        lemma_chord_entries_contain(chord, pairs, n - 1, j);
        let i = choose|i: int| 0 <= i < prev.len() && prev[i] == dead_entry_of(chord, pairs[j])->Some_0;
        assert(chord_entries_upto(chord, pairs, n)[i] == prev[i]);
    }
}

proof fn lemma_dead_entries_contain(
    chords: Seq<(Seq<char>, Seq<char>)>,
    n: int,
    ci: int,
    e: (u32, EntryView),
)
    requires
        0 <= ci < n <= chords.len(),
        chord_entries(chords[ci]).contains(e),
    ensures
        dead_entries_upto(chords, n).contains(e),
    decreases n,
{
    let prev = dead_entries_upto(chords, n - 1);
    let here = chord_entries(chords[n - 1]);
    if ci == n - 1 {
        let j = choose|j: int| 0 <= j < here.len() && here[j] == e;
        assert((prev + here)[prev.len() + j] == e);
    } else {
        lemma_dead_entries_contain(chords, n - 1, ci, e);
        let i = choose|i: int| 0 <= i < prev.len() && prev[i] == e;
        assert((prev + here)[i] == e);
    }
}

/// Dead-key expansion is complete. Take a named key whose plain symbol is the
/// printable ASCII `g` and whose AltGr level `l` (2, or 3 with Shift) holds a
/// symbol named `dead_...`. Every pair `(b, r)` of that dead key's table whose
/// character `r` has a base letter `t` is filed under `t`, as `r` reached by
/// the chord, two spaces and `b`.
pub proof fn lemma_dead_key_expansion(keys: Seq<KeyView>, ki: int, l: int, g: char, j: int)
    requires
        0 <= ki < keys.len(),
        keys[ki].name is Some,
        l == 2 || l == 3,
        l < keys[ki].levels.len(),
        keys[ki].levels[l] matches Some(s) && has_prefix(s.name, "dead_"@),
        level_char_of(keys[ki], 0) == Some(g),
        is_ascii_graphic(g),
        0 <= j < dead_key_pairs(keys[ki].levels[l]->Some_0.name).len(),
        base_char_of(dead_key_pairs(keys[ki].levels[l]->Some_0.name)[j].1) is Some,
    ensures
        ({
            let pair = dead_key_pairs(keys[ki].levels[l]->Some_0.name)[j];
            let t = base_char_of(pair.1)->Some_0;
            let e = EntryView {
                character: seq![pair.1],
                key_sequence: modifier_prefix_of(l) + seq![g] + "  "@ + seq![pair.0],
            };
            built_index(keys).contains_key(t as u32) && built_index(keys)[t as u32].contains(e)
        }),
{
    let k = keys[ki];
    let name = k.levels[l]->Some_0.name;
    let chord = (modifier_prefix_of(l) + seq![g], name);
    assert(dead_chord_of(k, l) == Some(chord));
    lemma_key_chords_contain(k, 4, l);
    assert(key_chords(k) == key_chords_upto(k, 4));
    let chords = layout_chords(keys);
    lemma_dead_chords_contain(keys, keys.len() as int, ki, chord);
    let ci = choose|ci: int| 0 <= ci < chords.len() && chords[ci] == chord;
    let pairs = dead_key_pairs(name);
    lemma_chord_entries_contain(chord, pairs, pairs.len() as int, j);
    let e = dead_entry_of(chord, pairs[j])->Some_0;
    lemma_dead_entries_contain(chords, chords.len() as int, ci, e);
    let dead = dead_entries_upto(chords, chords.len() as int);
    let direct = direct_entries_upto(keys, keys.len() as int);
    let x = choose|x: int| 0 <= x < dead.len() && dead[x] == e;
    assert(layout_entries(keys)[direct.len() + x] == e);
    lemma_extend_contains(Map::empty(), layout_entries(keys), direct.len() + x);
}

proof fn lemma_key_direct_contain(k: KeyView, name: Seq<char>, n: int, l: int)
    requires
        0 <= l < n,
        direct_entry_of(k, name, l) is Some,
    ensures
        key_direct_upto(k, name, n).contains(direct_entry_of(k, name, l)->Some_0),
    decreases n,
{
    let prev = key_direct_upto(k, name, n - 1);
    if l == n - 1 {
        assert(key_direct_upto(k, name, n)[prev.len() as int] == direct_entry_of(k, name, l)->Some_0);
    } else {
        lemma_key_direct_contain(k, name, n - 1, l);
        let i = choose|i: int| 0 <= i < prev.len() && prev[i] == direct_entry_of(k, name, l)->Some_0;
        assert(key_direct_upto(k, name, n)[i] == prev[i]);
    }
}

proof fn lemma_direct_entries_contain(keys: Seq<KeyView>, n: int, ki: int, e: (u32, EntryView))
    requires
        0 <= ki < n <= keys.len(),
        key_direct_entries(keys[ki]).contains(e),
    ensures
        direct_entries_upto(keys, n).contains(e),
    decreases n,
{
    let prev = direct_entries_upto(keys, n - 1);
    let here = key_direct_entries(keys[n - 1]);
    if ki == n - 1 {
        let j = choose|j: int| 0 <= j < here.len() && here[j] == e;
        assert((prev + here)[prev.len() + j] == e);
    } else {
        lemma_direct_entries_contain(keys, n - 1, ki, e);
        let i = choose|i: int| 0 <= i < prev.len() && prev[i] == e;
        assert((prev + here)[i] == e);
    }
}

/// Level 3 that is only the capital of level 2 is not reported: when a
/// key's AltGr+Shift character is the uppercase form of its AltGr character
/// and differs from it, level 3 contributes no entry.
pub proof fn lemma_level_three_capital_suppressed(k: KeyView, name: Seq<char>, c2: char, c3: char)
    requires
        level_char_of(k, 2) == Some(c2),
        level_char_of(k, 3) == Some(c3),
        c3 == upper_first(c2),
        c3 != c2,
    ensures
        direct_entry_of(k, name, 3) is None,
{
}

/// Any other level-3 character is reported: on a named key whose AltGr+Shift
/// character `c3` is not control or white space, not merely the capital of
/// its AltGr character, and has a base letter `t`, `c3` is filed under `t`,
/// reached by `AltGr-Shift-` and the key label.
pub proof fn lemma_level_three_reported(keys: Seq<KeyView>, ki: int, c3: char)
    requires
        0 <= ki < keys.len(),
        keys[ki].name is Some,
        level_char_of(keys[ki], 3) == Some(c3),
        !is_control_char(c3),
        !is_white_space_char(c3),
        !(level_char_of(keys[ki], 2) matches Some(c2) && c3 == upper_first(c2) && c3 != c2),
        base_char_of(c3) is Some,
    ensures
        ({
            let t = base_char_of(c3)->Some_0;
            let e = EntryView {
                character: seq![c3],
                key_sequence: "AltGr-Shift-"@ + key_label_of(keys[ki], keys[ki].name->Some_0),
            };
            built_index(keys).contains_key(t as u32) && built_index(keys)[t as u32].contains(e)
        }),
{
    let k = keys[ki];
    let name = k.name->Some_0;
    assert(3 < k.levels.len());
    let e = direct_entry_of(k, name, 3)->Some_0;
    lemma_key_direct_contain(k, name, k.levels.len() as int, 3);
    lemma_direct_entries_contain(keys, keys.len() as int, ki, e);
    let direct = direct_entries_upto(keys, keys.len() as int);
    let x = choose|x: int| 0 <= x < direct.len() && direct[x] == e;
    assert(layout_entries(keys)[x] == e);
    lemma_extend_contains(Map::empty(), layout_entries(keys), x);
}

/// In a well-formed index every letter is a lowercase ASCII letter.
pub proof fn lemma_index_letters(m: Map<u32, Seq<EntryView>>)
    requires
        index_well_formed(m),
    ensures
        forall|k: u32| #[trigger] m.contains_key(k) ==> ('a' as u32) <= k <= ('z' as u32),
{
    assert forall|k: u32| #[trigger] m.contains_key(k) implies ('a' as u32) <= k <= ('z' as u32) by {
        lemma_base_is_lower_letter(m[k][0].character[0]);
    }
}

/// Building is deterministic: two layouts with the same content give the same
/// outcome, the same entries under the same letters in the same order.
pub proof fn lemma_build_deterministic(
    a: Seq<KeyView>,
    b: Seq<KeyView>,
    ra: Result<ComposeIndex, BuildError>,
    rb: Result<ComposeIndex, BuildError>,
)
    requires
        a == b,
        build_outcome(a, ra),
        build_outcome(b, rb),
    ensures
        ra is Ok <==> rb is Ok,
        ra is Ok ==> ra->Ok_0@ == rb->Ok_0@,
        ra is Err ==> ra->Err_0 == rb->Err_0,
{
}

/// A query whose first character folds to the same lowercase letter as a
/// non-uppercase query's first character begins with that query's whole
/// answer, in the same order.
pub proof fn lemma_upper_query_extends_lower(
    m: Map<u32, Seq<EntryView>>,
    upper: Seq<char>,
    lower: Seq<char>,
)
    requires
        upper.len() > 0,
        lower.len() > 0,
        lower_first(upper[0]) == lower_first(lower[0]),
        !is_upper_char(lower[0]),
    ensures
        variants_of(m, lower).len() <= variants_of(m, upper).len(),
        variants_of(m, upper).subrange(0, variants_of(m, lower).len() as int) == variants_of(
            m,
            lower,
        ),
{
    let l = variants_of(m, lower);
    let u = variants_of(m, upper);
    assert(l =~= entries_under(m, lower_first(lower[0]) as u32));
    assert(u.subrange(0, l.len() as int) =~= l);
}

impl ComposeIndex {
    /// An index with no entries, for when no layout could be read.
    pub fn empty() -> (r: ComposeIndex)
        ensures
            r@ == Map::<u32, Seq<EntryView>>::empty(),
            index_well_formed(r@),
    {
        let r = ComposeIndex { index: HashMap::new() };
        assert(r@ =~= Map::<u32, Seq<EntryView>>::empty());
        r
    }

    /// Builds the index of `layout`: every reportable level of every named
    /// key, then every dead-accent chord expanded through the dead-key
    /// table, each filed under its base letter in discovery order.
    pub fn build(layout: &KeyboardLayout) -> (r: Result<ComposeIndex, BuildError>)
        ensures
            build_outcome(layout@, r),
            r matches Ok(index) ==> index_well_formed(index@),
    {
        if !layout.is_ordered() {
            return Err(BuildError::KeysOutOfOrder);
        }
        let ghost keys = layout@;
        let mut index: HashMap<u32, Vec<ComposeEntry>> = HashMap::new();
        assert(map_model(index@) =~= Map::<u32, Seq<EntryView>>::empty());
        let n = layout.keys.len();
        let mut i: usize = 0;
        while i < n
            invariant
                n == keys.len(),
                keys == layout@,
                i <= n,
                index_well_formed(map_model(index@)),
                map_model(index@) == extend_index(
                    Map::empty(),
                    direct_entries_upto(keys, i as int),
                ),
            decreases n - i,
        {
            let key = &layout.keys[i];
            assert(key@ == keys[i as int]);
            match &key.name {
                Some(name) => add_key_direct(&mut index, key, name),
                None => {},
            }
            proof {
                lemma_extend_concat(
                    Map::empty(),
                    direct_entries_upto(keys, i as int),
                    key_direct_entries(keys[i as int]),
                );
            }
            i = i + 1;
        }
        let ghost direct = direct_entries_upto(keys, n as int);
        let mut chords: Vec<(String, String)> = Vec::new();
        let mut i: usize = 0;
        while i < n
            invariant
                n == keys.len(),
                keys == layout@,
                i <= n,
                chords_view(chords@) == dead_chords_upto(keys, i as int),
            decreases n - i,
        {
            let key = &layout.keys[i];
            assert(key@ == keys[i as int]);
            collect_key_chords(&mut chords, key);
            i = i + 1;
        }
        let ghost all_chords = chords_view(chords@);
        assert(all_chords == layout_chords(keys));
        let mut c: usize = 0;
        while c < chords.len()
            invariant
                c <= chords@.len(),
                all_chords == chords_view(chords@),
                index_well_formed(map_model(index@)),
                map_model(index@) == extend_index(
                    extend_index(Map::empty(), direct),
                    dead_entries_upto(all_chords, c as int),
                ),
            decreases chords@.len() - c,
        {
            let (label, dead_type) = &chords[c];
            assert(all_chords[c as int] == (label@, dead_type@));
            add_chord_entries(&mut index, label, dead_type);
            proof {
                lemma_extend_concat(
                    extend_index(Map::empty(), direct),
                    dead_entries_upto(all_chords, c as int),
                    chord_entries(all_chords[c as int]),
                );
            }
            c = c + 1;
        }
        proof {
            lemma_extend_concat(
                Map::empty(),
                direct,
                dead_entries_upto(all_chords, all_chords.len() as int),
            );
        }
        let r = ComposeIndex { index };
        proof {
            use_type_invariant(&r);
        }
        Ok(r)
    }

    /// Number of base letters that have at least one entry.
    pub fn count(&self) -> (r: usize)
        ensures
            r == self@.len(),
            index_well_formed(self@),
    {
        proof {
            use_type_invariant(self);
        }
        assert(self@.dom() =~= self.index@.dom());
        self.index.len()
    }

    /// The entries for the first character of `input`, lowercase-keyed ones
    /// first; empty for empty input or a letter with no entries.
    pub fn find_variants(&self, input: &str) -> (r: Vec<ComposeEntry>)
        ensures
            entries_view(r@) == variants_of(self@, input@),
            index_well_formed(self@),
            input@.len() == 0 ==> r@.len() == 0,
            input@.len() > 0 && !self@.contains_key(lower_first(input@[0]) as u32) && !(
            is_upper_char(input@[0]) && self@.contains_key(upper_first(input@[0]) as u32))
                ==> r@.len() == 0,
            input@.len() > 0 && is_ascii_letter(input@[0]) ==> entries_view(r@) == entries_under(
                self@,
                ascii_lower_of(input@[0]) as u32,
            ),
            input@.len() > 0 && is_ascii_lower(input@[0]) ==> forall|i: int|
                0 <= i < r@.len() ==> {
                    &&& (#[trigger] r@[i]).character@.len() == 1
                    &&& base_char_of(r@[i].character@[0]) == Some(input@[0])
                },
    {
        proof {
            use_type_invariant(self);
        }
        let mut results: Vec<ComposeEntry> = Vec::new();
        if input.unicode_len() == 0 {
            assert(entries_view(results@) =~= Seq::<EntryView>::empty());
            return results;
        }
        let c = input.get_char(0);
        let lower = lowercase_first(c) as u32;
        match self.index.get(&lower) {
            Some(list) => append_entries(&mut results, list),
            None => {},
        }
        assert(entries_view(results@) =~= entries_under(self@, lower));
        if char_is_uppercase(c) {
            let upper = uppercase_first(c) as u32;
            let ghost mid = entries_view(results@);
            match self.index.get(&upper) {
                Some(list) => append_entries(&mut results, list),
                None => {},
            }
            assert(entries_view(results@) =~= mid + entries_under(self@, upper));
        }
        proof {
            if is_ascii_upper(c) {
                lemma_index_letters(self@);
                assert(!self@.contains_key(c as u32));
                assert(entries_view(results@) =~= entries_under(self@, lower));
            }
            if is_ascii_lower(c) {
                assert forall|i: int| 0 <= i < results@.len() implies {
                    &&& (#[trigger] results@[i]).character@.len() == 1
                    &&& base_char_of(results@[i].character@[0]) == Some(c)
                } by {
                    assert(entries_view(results@)[i] == results@[i]@);
                    assert(self@[lower][i] == results@[i]@);
                    lemma_base_is_lower_letter(results@[i].character@[0]);
                }
            }
        }
        results
    }
}

} // verus!
