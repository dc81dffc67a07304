//! What double and triple clicks select, and scrolling by the mouse.

use crate::document::rope;
use crate::document::selection::Selection;
use crate::editor::edit_ops::edits;
use crate::editor::mouse_ops::hits;
use crate::editor::mouse_ops::selection;
use crate::editor::state;
use crate::editor::state::{EditorState, EditorView};
use crate::editor::table_edit::TableCell;
use crate::text;
use vstd::prelude::*;
use vstd::string::*;
use vstd::utf8::*;

verus! {

/// How many rows the wheel may scroll past the last row of the document.
pub const MOUSE_SCROLL_OVERSHOOT: usize = 0;

/// How many spaces and tabs `b` holds from `i` on, up to the first other byte.
pub open spec fn pad_from(b: Seq<u8>, i: int) -> int
    decreases b.len() - i,
{
    if 0 <= i < b.len() && (b[i] == text::SPACE || b[i] == text::TAB) {
        1 + pad_from(b, i + 1)
    } else {
        0
    }
}

/// How many spaces and tabs stand directly before `i`.
pub open spec fn pad_before(b: Seq<u8>, i: int) -> int
    decreases i,
{
    if 0 < i <= b.len() && (b[i - 1] == text::SPACE || b[i - 1] == text::TAB) {
        1 + pad_before(b, i - 1)
    } else {
        0
    }
}

/// The bytes of a cell's text without its padding, for a row that begins at byte
/// `row`.
pub open spec fn cell_text_bytes(row: int, cell: TableCell) -> (int, int) {
    let b = encode_utf8(cell.raw@);
    let lead = pad_from(b, 0);
    let pad = lead + pad_before(b, b.len() as int);
    let start = row + cell.content_start + lead;
    (
        start,
        start + (if b.len() >= pad {
            b.len() - pad
        } else {
            0
        }),
    )
}

impl EditorView {
    /// The word at the cursor selected, or the signs there; nothing in blank text.
    pub open spec fn word_selected(self) -> EditorView {
        match selection::word_around(self.text, self.cursor.offset as int) {
            Some((start, end)) => self.selecting(
                Some(Selection { anchor: start as usize, active: end as usize }),
            ).at(end).aimed(),
            None => self.selecting(None),
        }
    }

    /// The characters `start..end` selected, with the cursor at their end.
    pub open spec fn span_selected(self, start: int, end: int) -> EditorView {
        self.selecting(
            Some(Selection { anchor: start as usize, active: end as usize }),
        ).at(end).aimed()
    }

    /// The cursor's line selected with its line break; in a table the text of the
    /// cursor's cell.
    pub open spec fn line_selected(self, cell: Option<(usize, TableCell)>) -> EditorView {
        match cell {
            Some((row, c)) => {
                let (start, end) = cell_text_bytes(row as int, c);
                self.span_selected(
                    state::char_at_byte(self.text, start),
                    state::char_at_byte(self.text, end),
                )
            },
            None => self.span_selected(
                rope::line_begin(self.text, self.line()),
                edits::line_past(self.text, self.line()),
            ),
        }
    }

    /// The view scrolled by the wheel: until the last of `total` rows is at the top.
    pub open spec fn wheeled(self, delta: int, total: int) -> EditorView {
        if delta == 0 {
            self
        } else if total == 0 {
            self.scrolled(0)
        } else if delta > 0 {
            self.scrolled(
                state::least(self.scroll + delta, total - 1 + MOUSE_SCROLL_OVERSHOOT) as usize,
            )
        } else if self.scroll >= -delta {
            self.scrolled((self.scroll + delta) as usize)
        } else {
            self.scrolled(0)
        }
    }
}

/// How many spaces and tabs a cell begins and ends with.
fn cell_padding(b: &[u8]) -> (r: (usize, usize))
    ensures
        r.0 == pad_from(b@, 0),
        r.1 == pad_before(b@, b@.len() as int),
        r.0 <= b@.len(),
        r.1 <= b@.len(),
{
    let n: usize = b.len();
    let mut lead: usize = 0;
    while lead < n && (b[lead] == text::SPACE || b[lead] == text::TAB)
        invariant
            n == b@.len(),
            lead <= n,
            lead + pad_from(b@, lead as int) == pad_from(b@, 0),
        decreases n - lead,
    {
        lead += 1;
    }
    let mut end: usize = n;
    while end > 0 && (b[end - 1] == text::SPACE || b[end - 1] == text::TAB)
        invariant
            n == b@.len(),
            end <= n,
            n - end + pad_before(b@, end as int) == pad_before(b@, n as int),
        decreases end,
    {
        end -= 1;
    }
    (lead, n - end)
}

impl EditorState {
    /// Selects the word at the cursor.
    pub fn select_word_at_cursor(&mut self)
        requires
            old(self).wf(),
        ensures
            final(self)@ == old(self)@.word_selected(),
            final(self).wf(),
    {
        let ghost v = self@;
        let contents: String = self.buffer().contents();
        let chars: Vec<char> = text::chars_of(contents.as_str());
        let at: usize = self.cursor().offset;
        match selection::word_range_around(chars.as_slice(), at) {
            Some((start, end)) => {
                self.select(Some(Selection { anchor: start, active: end }));
                assert(self@.text == v.text) by {
                    reveal(EditorView::selecting);
                }
                self.put_cursor(end);
                self.aim();
            },
            None => {
                self.select(None);
            },
        }
    }

    fn select_span(&mut self, start: usize, end: usize)
        requires
            old(self).wf(),
            end <= old(self)@.text.len(),
        ensures
            final(self)@ == old(self)@.span_selected(start as int, end as int),
            final(self).wf(),
    {
        let ghost v = self@;
        self.select(Some(Selection { anchor: start, active: end }));
        assert(self@.text == v.text) by {
            reveal(EditorView::selecting);
        }
        self.put_cursor(end);
        self.aim();
    }

    /// Selects the cursor's line, or, in a table, the text of the cursor's cell: the
    /// line would take borders and other cells with it. `cell` is that cell, with the
    /// byte at which its row begins.
    pub fn select_line_at_cursor(&mut self, cell: &Option<(usize, TableCell)>)
        requires
            old(self).wf(),
        ensures
            final(self)@ == old(self)@.line_selected(*cell),
            final(self).wf(),
    {
        match cell {
            Some((row, c)) => {
                let bytes = c.raw.as_str().as_bytes();
                let n: usize = bytes.len();
                let (lead, trail) = cell_padding(bytes);
                let size: usize = if n - lead >= trail {
                    n - lead - trail
                } else {
                    0
                };
                let total: usize = self.buffer().len_bytes();
                let start: usize = hits::bounded_sum(hits::bounded_sum(*row, c.content_start), lead);
                let end: usize = hits::bounded_sum(start, size);
                let from: usize = self.char_at_byte(start);
                let to: usize = self.char_at_byte(end);
                self.select_span(from, to);
            },
            None => {
                let (start, end) = self.line_bounds();
                self.select_span(start, end);
            },
        }
    }
}

/// Scrolls to a place of the scroll bar, among `total` rows. The cursor stays
/// where it is.
pub fn set_scroll_absolute(state: &mut EditorState, position: usize, total: usize, viewport_height: usize)
    requires
        old(state).wf(),
    ensures
        final(state)@ == old(state)@.scrolled(
            state::least(
                position as int,
                if total >= viewport_height {
                    total - viewport_height
                } else {
                    0
                },
            ) as usize,
        ),
        final(state).wf(),
{
    let max: usize = if total >= viewport_height {
        total - viewport_height
    } else {
        0
    };
    state.scroll_to(
        if position <= max {
            position
        } else {
            max
        },
    );
}

/// Scrolls by `delta` rows among `total`, until the last is at the top. The cursor
/// stays where it is.
pub fn scroll_by_mouse(state: &mut EditorState, delta: i32, total: usize)
    requires
        old(state).wf(),
    ensures
        final(state)@ == old(state)@.wheeled(delta as int, total as int),
        final(state).wf(),
{
    if delta == 0 {
        return ;
    }
    if total == 0 {
        state.scroll_to(0);
        return ;
    }
    let scroll: usize = state.facts().scroll;
    if delta > 0 {
        let max: usize = total - 1 + MOUSE_SCROLL_OVERSHOOT;
        let by: usize = delta as usize;
        state.scroll_to(
            if scroll <= max && by <= max - scroll {
                scroll + by
            } else {
                max
            },
        );
    } else {
        let by: usize = (-(delta as i64)) as usize;
        state.scroll_to(
            if scroll >= by {
                scroll - by
            } else {
                0
            },
        );
    }
}

} // verus!
