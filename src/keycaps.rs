//! Splitting a key sequence into the keycaps that display it: modifier and
//! key of the chord, and the letter typed after a dead key.
use crate::chars::{char_is_whitespace, is_white_space_char};
use crate::compose::{dead_entries_upto, direct_entries_upto, layout_chords};
use crate::layout::KeyView;
use crate::shape::{
    double_space_at, has_double_space, is_two_step, lemma_sequence_shapes,
    names_without_double_space,
};
use vstd::prelude::*;

verus! {

/// Index of the first double space at or after `from`.
pub open spec fn first_double_space_from(s: Seq<char>, from: int) -> Option<int>
    decreases s.len() - from,
{
    if from < 0 || from + 1 >= s.len() {
        None
    } else if double_space_at(s, from) {
        Some(from)
    } else {
        first_double_space_from(s, from + 1)
    }
}

/// Index of the last `c` among the first `n` characters of `s`.
pub open spec fn last_index_in(s: Seq<char>, c: char, n: int) -> Option<int>
    decreases n,
{
    if n <= 0 {
        None
    } else if s[n - 1] == c {
        Some(n - 1)
    } else {
        last_index_in(s, c, n - 1)
    }
}

/// First index at or after `i` that holds no white space, or the length.
pub open spec fn skip_space_front(s: Seq<char>, i: int) -> int
    decreases s.len() - i,
{
    if i < 0 || i >= s.len() {
        i
    } else if is_white_space_char(s[i]) {
        skip_space_front(s, i + 1)
    } else {
        i
    }
}

/// End of `s.subrange(lo, n)` once trailing white space is dropped.
pub open spec fn skip_space_back(s: Seq<char>, lo: int, n: int) -> int
    decreases n - lo,
{
    if n <= lo {
        lo
    } else if is_white_space_char(s[n - 1]) {
        skip_space_back(s, lo, n - 1)
    } else {
        n
    }
}

/// `s` without leading and trailing white space.
pub open spec fn trimmed_of(s: Seq<char>) -> Seq<char> {
    let lo = skip_space_front(s, 0);
    s.subrange(lo, skip_space_back(s, lo, s.len() as int))
}

/// How a key sequence is shown.
pub enum Keycaps {
    /// A dead-key chord, then a plain key.
    TwoStep { modifier: String, key: String, then: String },
    /// One chord of a modifier and a key.
    Chord { modifier: String, key: String },
    /// A key pressed alone.
    Single { key: String },
    /// Two steps whose first has no modifier to split off.
    Unreadable,
}

pub ghost enum KeycapsView {
    TwoStep { modifier: Seq<char>, key: Seq<char>, then: Seq<char> },
    Chord { modifier: Seq<char>, key: Seq<char> },
    Single { key: Seq<char> },
    Unreadable,
}

impl View for Keycaps {
    type V = KeycapsView;

    open spec fn view(&self) -> KeycapsView {
        match self {
            Keycaps::TwoStep { modifier, key, then } => KeycapsView::TwoStep {
                modifier: modifier@,
                key: key@,
                then: then@,
            },
            Keycaps::Chord { modifier, key } => KeycapsView::Chord { modifier: modifier@, key: key@ },
            Keycaps::Single { key } => KeycapsView::Single { key: key@ },
            Keycaps::Unreadable => KeycapsView::Unreadable,
        }
    }
}

/// The keycaps of sequence `s`: with a double space, the part before it
/// splits at its last `-` into modifier and key, and the part after it,
/// trimmed, is the next key; without one, `s` splits at its last `-`, or is
/// a single key.
pub open spec fn keycaps_of(s: Seq<char>) -> KeycapsView {
    match first_double_space_from(s, 0) {
        Some(p) => {
            let first = s.subrange(0, p);
            match last_index_in(first, '-', p) {
                Some(d) => KeycapsView::TwoStep {
                    modifier: first.subrange(0, d),
                    key: first.subrange(d + 1, p),
                    then: trimmed_of(s.subrange(p, s.len() as int)),
                },
                None => KeycapsView::Unreadable,
            }
        },
        None => match last_index_in(s, '-', s.len() as int) {
            Some(d) => KeycapsView::Chord {
                modifier: s.subrange(0, d),
                key: s.subrange(d + 1, s.len() as int),
            },
            None => KeycapsView::Single { key: s },
        },
    }
}

/// Position of the first double space of `s`.
fn find_double_space(s: &str) -> (r: Option<usize>)
    ensures
        match r {
            Some(p) => first_double_space_from(s@, 0) == Some(p as int) && p + 1 < s@.len(),
            None => first_double_space_from(s@, 0) is None,
        },
{
    let n = s.unicode_len();
    let mut i: usize = 0;
    while n > 0 && i < n - 1
        invariant
            n == s@.len(),
            i <= n,
            first_double_space_from(s@, 0) == first_double_space_from(s@, i as int),
        decreases n - i,
    {
        if s.get_char(i) == ' ' && s.get_char(i + 1) == ' ' {
            return Some(i);
        }
        i = i + 1;
    }
    None
}

/// Position of the last `c` among the first `n` characters of `s`.
fn find_last(s: &str, c: char, n: usize) -> (r: Option<usize>)
    requires
        n <= s@.len(),
    ensures
        match r {
            Some(d) => last_index_in(s@, c, n as int) == Some(d as int) && d < n,
            None => last_index_in(s@, c, n as int) is None,
        },
{
    let mut k: usize = n;
    while k > 0
        invariant
            k <= n <= s@.len(),
            last_index_in(s@, c, n as int) == last_index_in(s@, c, k as int),
        decreases k,
    {
        if s.get_char(k - 1) == c {
            return Some(k - 1);
        }
        k = k - 1;
    }
    None
}

/// `s` without leading and trailing white space.
fn trim_space(s: &str) -> (r: &str)
    ensures
        r@ == trimmed_of(s@),
{
    let n = s.unicode_len();
    let mut lo: usize = 0;
    while lo < n && char_is_whitespace(s.get_char(lo))
        invariant
            n == s@.len(),
            lo <= n,
            skip_space_front(s@, 0) == skip_space_front(s@, lo as int),
        decreases n - lo,
    {
        lo = lo + 1;
    }
    let mut hi: usize = n;
    while hi > lo && char_is_whitespace(s.get_char(hi - 1))
        invariant
            n == s@.len(),
            lo <= hi <= n,
            skip_space_front(s@, 0) == lo,
            skip_space_back(s@, lo as int, n as int) == skip_space_back(s@, lo as int, hi as int),
        decreases hi,
    {
        hi = hi - 1;
    }
    s.substring_char(lo, hi)
}

/// The keycaps that display `sequence`.
pub fn keycaps(sequence: &str) -> (r: Keycaps)
    ensures
        r@ == keycaps_of(sequence@),
{
    let n = sequence.unicode_len();
    match find_double_space(sequence) {
        Some(p) => {
            let first = sequence.substring_char(0, p);
            match find_last(first, '-', p) {
                Some(d) => {
                    let rest = sequence.substring_char(p, n);
                    Keycaps::TwoStep {
                        modifier: first.substring_char(0, d).to_owned(),
                        key: first.substring_char(d + 1, p).to_owned(),
                        then: trim_space(rest).to_owned(),
                    }
                },
                None => Keycaps::Unreadable,
            }
        },
        None => match find_last(sequence, '-', n) {
            Some(d) => Keycaps::Chord {
                modifier: sequence.substring_char(0, d).to_owned(),
                key: sequence.substring_char(d + 1, n).to_owned(),
            },
            None => Keycaps::Single { key: sequence.to_owned() },
        },
    }
}

proof fn lemma_first_double_space_is(s: Seq<char>, from: int, i: int)
    requires
        0 <= from <= i,
        double_space_at(s, i),
        forall|j: int| from <= j < i ==> !double_space_at(s, j),
    ensures
        first_double_space_from(s, from) == Some(i),
    decreases i - from,
{
    if from < i {
        lemma_first_double_space_is(s, from + 1, i);
    }
}

proof fn lemma_no_double_space(s: Seq<char>, from: int)
    requires
        0 <= from,
        !has_double_space(s),
    ensures
        first_double_space_from(s, from) is None,
    decreases s.len() - from,
{
    if from + 1 < s.len() {
        assert(!double_space_at(s, from));
        lemma_no_double_space(s, from + 1);
    }
}

proof fn lemma_last_index_found(s: Seq<char>, c: char, n: int, d: int)
    requires
        0 <= d < n <= s.len(),
        s[d] == c,
    ensures
        last_index_in(s, c, n) is Some,
    decreases n,
{
    if s[n - 1] != c {
        lemma_last_index_found(s, c, n - 1, d);
    }
}

/// A sequence of the two-step shape always splits into a dead-key chord's
/// modifier and key and the key typed after it; one without a double space
/// never shows as two steps.
pub proof fn lemma_two_step_splits(s: Seq<char>)
    ensures
        is_two_step(s) ==> keycaps_of(s) is TwoStep,
        !has_double_space(s) ==> (keycaps_of(s) is Chord || keycaps_of(s) is Single),
{
    if is_two_step(s) {
        let i = choose|i: int|
            #[trigger] double_space_at(s, i) && i + 2 < s.len() && (forall|j: int|
                double_space_at(s, j) ==> j == i) && (exists|d: int| 0 <= d < i && s[d] == '-');
        lemma_first_double_space_is(s, 0, i);
        let d = choose|d: int| 0 <= d < i && s[d] == '-';
        let first = s.subrange(0, i);
        assert(first[d] == '-');
        lemma_last_index_found(first, '-', i, d);
    }
    if !has_double_space(s) {
        lemma_no_double_space(s, 0);
    }
}

/// Every sequence a layout yields splits for display as its pass made it: a
/// direct one as a chord or a single key, a dead-key one as two steps.
pub proof fn lemma_layout_sequences_split(keys: Seq<KeyView>)
    requires
        names_without_double_space(keys),
    ensures
        forall|i: int|
            0 <= i < direct_entries_upto(keys, keys.len() as int).len() ==> {
                let k = keycaps_of(
                    (#[trigger] direct_entries_upto(keys, keys.len() as int)[i]).1.key_sequence,
                );
                k is Chord || k is Single
            },
        forall|i: int|
            0 <= i < dead_entries_upto(layout_chords(keys), layout_chords(keys).len() as int).len()
                ==> keycaps_of(
                (#[trigger] dead_entries_upto(
                    layout_chords(keys),
                    layout_chords(keys).len() as int,
                )[i]).1.key_sequence,
            ) is TwoStep,
{
    lemma_sequence_shapes(keys);
    let direct = direct_entries_upto(keys, keys.len() as int);
    let dead = dead_entries_upto(layout_chords(keys), layout_chords(keys).len() as int);
    assert forall|i: int| 0 <= i < direct.len() implies {
        let k = keycaps_of((#[trigger] direct[i]).1.key_sequence);
        k is Chord || k is Single
    } by {
        lemma_two_step_splits(direct[i].1.key_sequence);
    }
    assert forall|i: int| 0 <= i < dead.len() implies keycaps_of(
        (#[trigger] dead[i]).1.key_sequence,
    ) is TwoStep by {
        lemma_two_step_splits(dead[i].1.key_sequence);
    }
}

} // verus!
