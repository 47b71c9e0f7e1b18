//! Decisions of the character panel: the query after a key press, which
//! result row lies under the pointer, and how a key sequence splits into
//! keycaps for display.
use crate::chars::{char_is_alphabetic, char_text, is_alphabetic_char};
use vstd::prelude::*;
use vstd::string::StringExecFns;

verus! {

/// Vertical position, in pixels, of the top of the first result row.
pub const LIST_TOP: i64 = 68;

/// Height of one result row, in pixels.
pub const ROW_HEIGHT: i64 = 34;

/// Most result rows shown at once.
pub const MAX_ROWS: usize = 10;

/// The query after a key press: emptied by Backspace, replaced by a typed
/// alphabetic character, else kept.
pub open spec fn input_after_key_of(current: Seq<char>, backspace: bool, typed: Option<char>) -> Seq<char> {
    if backspace {
        Seq::empty()
    } else {
        match typed {
            Some(c) => if is_alphabetic_char(c) {
                seq![c]
            } else {
                current
            },
            None => current,
        }
    }
}

pub open spec fn row_top(i: int) -> int {
    LIST_TOP + ROW_HEIGHT * i
}

/// Whether pixel row `y` lies in result row `i`.
pub open spec fn in_row(y: int, i: int) -> bool {
    row_top(i) <= y < row_top(i) + ROW_HEIGHT
}

/// The panel's state between frames.
pub struct PanelState {
    /// The query: empty, or the one letter typed last.
    pub input: String,
    /// Row whose character was copied last, until the next key press.
    pub copied_row: Option<usize>,
    /// Row under the pointer.
    pub hovered_row: Option<usize>,
    /// Number of result rows shown.
    pub rows: usize,
}

/// The query after a key press.
pub fn input_after_key(current: &str, backspace: bool, typed: Option<char>) -> (r: String)
    ensures
        r@ == input_after_key_of(current@, backspace, typed),
{
    if backspace {
        return String::new();
    }
    match typed {
        Some(c) => if char_is_alphabetic(c) {
            char_text(c)
        } else {
            String::from_str(current)
        },
        None => String::from_str(current),
    }
}

/// The result row, among the first `rows`, that pixel row `y` lies in.
pub fn row_at(y: i64, rows: usize) -> (r: Option<usize>)
    requires
        rows <= MAX_ROWS,
    ensures
        match r {
            Some(i) => i < rows && in_row(y as int, i as int),
            None => forall|i: int| 0 <= i < rows ==> !in_row(y as int, i),
        },
{
    let mut i: usize = 0;
    while i < rows
        invariant
            rows <= MAX_ROWS,
            i <= rows,
            forall|j: int| 0 <= j < i ==> !in_row(y as int, j),
        decreases rows - i,
    {
        let top: i64 = LIST_TOP + ROW_HEIGHT * (i as i64);
        if y >= top && y < top + ROW_HEIGHT {
            return Some(i);
        }
        i = i + 1;
    }
    None
}

impl PanelState {
    pub open spec fn well_formed(&self) -> bool {
        self.rows <= MAX_ROWS
    }

    /// An empty query with nothing shown.
    pub fn new() -> (r: PanelState)
        ensures
            r.input@ == Seq::<char>::empty(),
            r.copied_row is None,
            r.hovered_row is None,
            r.rows == 0,
            r.well_formed(),
    {
        PanelState { input: String::new(), copied_row: None, hovered_row: None, rows: 0 }
    }

    /// A key press: forgets the copied row and updates the query.
    pub fn key_press(&mut self, backspace: bool, typed: Option<char>)
        ensures
            final(self).input@ == input_after_key_of(old(self).input@, backspace, typed),
            final(self).copied_row is None,
            final(self).hovered_row == old(self).hovered_row,
            final(self).rows == old(self).rows,
    {
        self.copied_row = None;
        self.input = input_after_key(self.input.as_str(), backspace, typed);
    }

    /// Records that `results` results were found; at most `MAX_ROWS` are shown.
    pub fn show_results(&mut self, results: usize)
        ensures
            final(self).rows == if results < MAX_ROWS {
                results
            } else {
                MAX_ROWS
            },
            final(self).input@ == old(self).input@,
            final(self).copied_row == old(self).copied_row,
            final(self).hovered_row == old(self).hovered_row,
            final(self).well_formed(),
    {
        self.rows = if results < MAX_ROWS {
            results
        } else {
            MAX_ROWS
        };
    }

    /// A click at pixel row `y`: the row clicked, if any, which becomes the
    /// copied row.
    pub fn click(&mut self, y: i64) -> (r: Option<usize>)
        requires
            old(self).well_formed(),
        ensures
            match r {
                Some(i) => i < old(self).rows && in_row(y as int, i as int),
                None => forall|i: int| 0 <= i < old(self).rows ==> !in_row(y as int, i),
            },
            final(self).copied_row == if r is Some {
                r
            } else {
                old(self).copied_row
            },
            final(self).input@ == old(self).input@,
            final(self).hovered_row == old(self).hovered_row,
            final(self).rows == old(self).rows,
    {
        let r = row_at(y, self.rows);
        if r.is_some() {
            self.copied_row = r;
        }
        r
    }

    /// The pointer moved to pixel row `y`: whether the hovered row changed.
    pub fn mouse_move(&mut self, y: i64) -> (changed: bool)
        requires
            old(self).well_formed(),
        ensures
            match final(self).hovered_row {
                Some(i) => i < old(self).rows && in_row(y as int, i as int),
                None => forall|i: int| 0 <= i < old(self).rows ==> !in_row(y as int, i),
            },
            changed == (final(self).hovered_row != old(self).hovered_row),
            final(self).input@ == old(self).input@,
            final(self).copied_row == old(self).copied_row,
            final(self).rows == old(self).rows,
    {
        let hover = row_at(y, self.rows);
        let changed = match (hover, self.hovered_row) {
            (Some(a), Some(b)) => a != b,
            (None, None) => false,
            _ => true,
        };
        self.hovered_row = hover;
        changed
    }
}

} // verus!
