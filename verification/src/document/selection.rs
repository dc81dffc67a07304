//! Selections, in the text and in the rendered view.

use crate::cells;
use crate::document::buffer::Buffer;
use vstd::prelude::*;

verus! {

/// A selection of text: the range between two character offsets.
#[derive(Debug, Clone, Copy, PartialEq, Eq, Structural)]
pub struct Selection {
    /// Where the selection began.
    pub anchor: usize,
    /// The end that moves.
    pub active: usize,
}

/// A selection in the rendered view: two `(rendered line, column)` pairs.
#[derive(Debug, Clone, Copy, PartialEq, Eq)]
pub struct VisualSelection {
    /// Where the selection began.
    pub anchor: (usize, usize),
    /// The end that moves.
    pub active: (usize, usize),
}

/// The part of the rendered view that a table cell takes: the first and the last
/// rendered line of its row, and the half-open range of cells of its content.
#[derive(Debug, Clone, Copy, PartialEq, Eq)]
pub struct CellBand {
    pub lines: (usize, usize),
    pub cols: (usize, usize),
}

impl CellBand {
    /// The columns, in characters, that the band takes on a line.
    pub open spec fn columns(self, line: Seq<char>) -> (int, int) {
        (
            cells::landing(line, 0, line.len() as int, 0, self.cols.0 as nat),
            cells::landing(line, 0, line.len() as int, 0, self.cols.1 as nat),
        )
    }

    /// The columns, in characters, that the band takes on a line. Lines with wide
    /// characters reach the same cells at other columns.
    pub fn char_cols(&self, line: &[char]) -> (r: (usize, usize))
        ensures
            (r.0 as int, r.1 as int) == self.columns(line@),
            r.0 <= line@.len(),
            r.1 <= line@.len(),
    {
        let n: usize = line.len();
        (
            cells::landing_index(line, 0, n, self.cols.0),
            cells::landing_index(line, 0, n, self.cols.1),
        )
    }
}

/// `a` comes no later than `b`: on a line above, or on the same line no further
/// to the right.
pub open spec fn row_major(a: (usize, usize), b: (usize, usize)) -> bool {
    a.0 < b.0 || (a.0 == b.0 && a.1 <= b.1)
}

impl VisualSelection {
    /// The two ends in row-major order.
    pub open spec fn span(self) -> ((usize, usize), (usize, usize)) {
        if row_major(self.anchor, self.active) {
            (self.anchor, self.active)
        } else {
            (self.active, self.anchor)
        }
    }

    /// The two ends in row-major order.
    pub fn range(&self) -> (r: ((usize, usize), (usize, usize)))
        ensures
            r == self.span(),
            row_major(r.0, r.1),
    {
        if self.anchor.0 < self.active.0 || (self.anchor.0 == self.active.0 && self.anchor.1
            <= self.active.1) {
            (self.anchor, self.active)
        } else {
            (self.active, self.anchor)
        }
    }

    /// True iff the two ends are the same.
    pub fn is_empty(&self) -> (r: bool)
        ensures
            r == (self.anchor == self.active),
    {
        self.anchor.0 == self.active.0 && self.anchor.1 == self.active.1
    }
}

impl Selection {
    /// The lower end.
    pub open spec fn low(self) -> usize {
        if self.anchor <= self.active {
            self.anchor
        } else {
            self.active
        }
    }

    /// The upper end.
    pub open spec fn high(self) -> usize {
        if self.anchor <= self.active {
            self.active
        } else {
            self.anchor
        }
    }

    /// What is selected of `s`.
    pub open spec fn text_of(self, s: Seq<char>) -> Seq<char> {
        let end = if self.high() <= s.len() {
            self.high() as int
        } else {
            s.len() as int
        };
        if self.low() >= end {
            Seq::empty()
        } else {
            s.subrange(self.low() as int, end)
        }
    }

    /// An empty selection at `anchor`.
    pub fn new(anchor: usize) -> (r: Self)
        ensures
            r.anchor == anchor,
            r.active == anchor,
    {
        Selection { anchor, active: anchor }
    }

    /// The selected range, the lower end first.
    pub fn range(&self) -> (r: (usize, usize))
        ensures
            r.0 == self.low(),
            r.1 == self.high(),
            r.0 <= r.1,
    {
        if self.anchor <= self.active {
            (self.anchor, self.active)
        } else {
            (self.active, self.anchor)
        }
    }

    /// The selected text, as far as the buffer goes.
    pub fn selected_text(&self, buf: &Buffer) -> (r: String)
        ensures
            r@ == self.text_of(buf@),
    {
        let (start, high) = self.range();
        let len: usize = buf.len_chars();
        let end: usize = if high <= len {
            high
        } else {
            len
        };
        if start >= end {
            return String::new();
        }
        buf.slice_to_string(start, end)
    }

    /// True iff nothing is selected.
    pub fn is_empty(&self) -> (r: bool)
        ensures
            r == (self.anchor == self.active),
    {
        self.anchor == self.active
    }
}

} // verus!
