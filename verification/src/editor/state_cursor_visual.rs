//! Movement by rows of the view.
//!
//! The rows are those that the view shows, so that the cursor lands at the column
//! that the user sees.

use crate::document::cursor;
use crate::document::rope;
use crate::document::source_map;
use crate::editor::mode::Mode;
use crate::editor::motion::Motion;
use crate::editor::state;
use crate::editor::state::{EditorState, EditorView};
use crate::editor::wrap;
use crate::editor::wrap::Layout;
use crate::text;
use vstd::prelude::*;
use vstd::string::*;
use vstd::utf8::*;

verus! {

/// How many hidden blocks a step over them passes at most.
pub const HIDDEN_STEPS: usize = 32;

/// The text of a block is a comment.
pub open spec fn is_comment(t: Seq<char>) -> bool {
    let i = text::skip_whitespace(t, 0);
    i + 4 <= t.len() && t[i] == '<' && t[i + 1] == '!' && t[i + 2] == '-' && t[i + 3] == '-'
}

impl EditorView {
    /// The offset to which cell `target` of row `k` of line `line` leads.
    pub open spec fn row_offset(self, layout: Layout, line: int, k: int) -> int {
        let rows = layout.wraps@[line].rows@;
        wrap::offset_in_row(
            self.text,
            rope::line_begin(self.text, line),
            rows[k],
            self.cursor.preferred_col as int,
            k + 1 == rows.len(),
            layout.wraps@[line].indent_of(k, self.mode == Mode::Raw),
        )
    }

    /// The cursor's line.
    pub open spec fn line(self) -> int {
        cursor::line_of(self.text, self.cursor.offset as int)
    }

    /// The row of its line that the cursor is shown on.
    pub open spec fn row(self, layout: Layout) -> int {
        wrap::row_of_col(
            layout.wraps@[self.line()].rows@,
            self.cursor.offset - cursor::line_start_of(self.text, self.cursor.offset as int),
            0,
        )
    }

    /// The state with the cursor one row up: to the row above on its line, else to
    /// the last row of the line above, else to the start of the text.
    pub open spec fn row_up(self, layout: Layout) -> EditorView {
        let line = self.line();
        if layout.width == 0 {
            self.moved(Motion::Up)
        } else if self.row(layout) > 0 {
            self.at(self.row_offset(layout, line, self.row(layout) - 1))
        } else if line > 0 {
            self.at(self.row_offset(layout, line - 1, layout.wraps@[line - 1].rows@.len() - 1))
        } else {
            self.at(0)
        }
    }

    /// The state with the cursor one row down: to the row below on its line, else
    /// to the first row of the line below, else to the end of its line.
    pub open spec fn row_down(self, layout: Layout) -> EditorView {
        let line = self.line();
        if layout.width == 0 {
            self.moved(Motion::Down)
        } else if self.row(layout) + 1 < layout.wraps@[line].rows@.len() {
            self.at(self.row_offset(layout, line, self.row(layout) + 1))
        } else if line + 1 < rope::line_total(self.text) {
            self.at(self.row_offset(layout, line + 1, 0))
        } else {
            self.moved(Motion::LineEnd)
        }
    }

    /// The cell of the screen's row that the cursor is shown at.
    pub open spec fn visual_col(self, layout: Layout) -> usize {
        if layout.width == 0 {
            cursor::cell_col_of(self.text, self.cursor.offset as int)
        } else {
            let k = self.row(layout);
            wrap::cell_in_row(
                self.text,
                cursor::line_start_of(self.text, self.cursor.offset as int),
                layout.wraps@[self.line()].rows@[k],
                self.cursor.offset as int,
                layout.wraps@[self.line()].indent_of(k, self.mode == Mode::Raw),
            )
        }
    }

    /// The state with the cursor one line, or one row, up or down.
    pub open spec fn line_step(self, down: bool, visual: bool, layout: Layout) -> EditorView {
        if visual && layout.width > 0 {
            if down {
                self.row_down(layout)
            } else {
                self.row_up(layout)
            }
        } else if down {
            self.moved(Motion::Down)
        } else {
            self.moved(Motion::Up)
        }
    }

    /// The cursor is in a block that is not shown: a comment.
    pub open spec fn hidden(self) -> bool {
        let map = self.parsed.source_map;
        match source_map::owner(map.extended(), self.cursor_byte()) {
            None => false,
            Some(b) => {
                let own = if b < self.parsed.per_block_own@.len() {
                    self.parsed.per_block_own@[b] as int
                } else {
                    0
                };
                let bytes = state::bytes_of(self.text);
                if own > 0 || b >= map.original().len() {
                    false
                } else {
                    let start = map.original()[b].start as int;
                    let end = state::least(map.original()[b].end as int, bytes.len() as int);
                    text::sliceable(bytes, start, end) && is_comment(
                        decode_utf8(bytes.subrange(start, end)),
                    )
                }
            },
        }
    }

    /// The state with the cursor moved on while it is in a block that is not
    /// shown, `n` times at most.
    pub open spec fn out_of_hidden(
        self,
        down: bool,
        visual: bool,
        layout: Layout,
        n: nat,
    ) -> EditorView
        decreases n,
    {
        if n == 0 || !self.hidden() {
            self
        } else {
            let next = self.line_step(down, visual, layout);
            if next.cursor.offset == self.cursor.offset {
                next
            } else {
                next.out_of_hidden(down, visual, layout, (n - 1) as nat)
            }
        }
    }

    /// The state with the cursor one line up or down, past what cannot be edited in
    /// the rendered views: a table's row of dashes and blocks that are not shown.
    /// In the source every line counts.
    pub open spec fn line_moved(self, down: bool, visual: bool, layout: Layout) -> EditorView {
        let v = self.line_step(down, visual, layout);
        if v.mode == Mode::Raw {
            v
        } else {
            let w = if layout.alignment@[v.line()] {
                v.line_step(down, visual, layout)
            } else {
                v
            };
            w.out_of_hidden(down, visual, layout, HIDDEN_STEPS as nat)
        }
    }
}

/// Moving the cursor leaves the text as it is.
pub proof fn lemma_step_keeps_text(v: EditorView, down: bool, visual: bool, layout: Layout)
    ensures
        v.line_step(down, visual, layout).text == v.text,
        v.line_step(down, visual, layout).mode == v.mode,
{
    reveal(EditorView::at);
    reveal(EditorView::moved);
}

impl EditorState {
    /// The line, the line's start and the row of the cursor.
    fn place(&self, layout: &Layout) -> (r: (usize, usize, usize))
        requires
            self.wf(),
            layout.fits(self@.text),
        ensures
            r.0 == self@.line(),
            r.1 == cursor::line_start_of(self@.text, self@.cursor.offset as int),
            r.1 == rope::line_begin(self@.text, r.0 as int),
            r.2 == self@.row(*layout),
            r.0 < rope::line_total(self@.text),
            r.2 < layout.wraps@[r.0 as int].rows@.len(),
    {
        let (line, col) = self.cursor().line_col(self.buffer());
        let base: usize = self.buffer().line_to_char(line);
        assert(layout.wraps@[line as int].fits(cursor::line_len(self@.text, line as int)));
        let sub: usize = layout.wraps[line].sub_line_of_col(col);
        (line, base, sub)
    }

    /// The offset to which the column that the cursor aims at leads on row `k` of
    /// line `line`.
    fn find_row_offset(&self, layout: &Layout, line: usize, k: usize) -> (r: usize)
        requires
            self.wf(),
            layout.fits(self@.text),
            line < rope::line_total(self@.text),
            k < layout.wraps@[line as int].rows@.len(),
        ensures
            r == self@.row_offset(*layout, line as int, k as int),
            r <= self@.text.len(),
    {
        let base: usize = self.buffer().line_to_char(line);
        let line_wrap = &layout.wraps[line];
        proof {
            assert(line_wrap.fits(cursor::line_len(self@.text, line as int)));
            assert(line_wrap.rows@[k as int].start <= line_wrap.rows@[k as int].end);
            cursor::lemma_line_len(self@.text, line as int);
        }
        let flat: bool = self.mode() == Mode::Raw;
        let indent: usize = if k == 0 || flat {
            0
        } else {
            line_wrap.indent
        };
        wrap::find_offset_in_row(
            self.buffer(),
            base,
            line_wrap.rows[k],
            self.cursor().preferred_col,
            k == line_wrap.rows.len() - 1,
            indent,
        )
    }

    /// Moves the cursor one row of the view up, towards the column that it aims
    /// at.
    pub fn move_up_visual(&mut self, layout: &Layout)
        requires
            old(self).wf(),
            layout.fits(old(self)@.text),
        ensures
            final(self)@ == old(self)@.row_up(*layout),
            final(self).wf(),
    {
        if layout.width == 0 {
            self.step(Motion::Up);
            return ;
        }
        let (line, _, sub) = self.place(layout);
        let offset: usize = if sub > 0 {
            self.find_row_offset(layout, line, sub - 1)
        } else if line > 0 {
            assert(layout.wraps@[line - 1].fits(cursor::line_len(self@.text, line - 1)));
            self.find_row_offset(layout, line - 1, layout.wraps[line - 1].rows.len() - 1)
        } else {
            0
        };
        self.put_cursor(offset);
    }

    /// Moves the cursor one row of the view down, towards the column that it aims
    /// at.
    pub fn move_down_visual(&mut self, layout: &Layout)
        requires
            old(self).wf(),
            layout.fits(old(self)@.text),
        ensures
            final(self)@ == old(self)@.row_down(*layout),
            final(self).wf(),
    {
        if layout.width == 0 {
            self.step(Motion::Down);
            return ;
        }
        let (line, _, sub) = self.place(layout);
        let lines: usize = self.buffer().line_count();
        if sub < layout.wraps[line].rows.len() - 1 {
            let offset: usize = self.find_row_offset(layout, line, sub + 1);
            self.put_cursor(offset);
        } else if line + 1 < lines {
            assert(layout.wraps@[line + 1].fits(cursor::line_len(self@.text, line + 1)));
            let offset: usize = self.find_row_offset(layout, line + 1, 0);
            self.put_cursor(offset);
        } else {
            self.step(Motion::LineEnd);
        }
    }

    /// The cell of the screen's row that the cursor is shown at, with the
    /// indentation of a wrapped row. Vertical movement that begins there stays at
    /// the same cell of the screen.
    pub fn current_visual_col(&self, layout: &Layout) -> (r: usize)
        requires
            self.wf(),
            layout.fits(self@.text),
        ensures
            r == self@.visual_col(*layout),
    {
        if layout.width == 0 {
            return self.cursor().cell_col(self.buffer());
        }
        let (line, base, sub) = self.place(layout);
        let line_wrap = &layout.wraps[line];
        let len: usize = self.buffer().len_chars();
        proof {
            assert(line_wrap.fits(cursor::line_len(self@.text, line as int)));
            assert(line_wrap.rows@[sub as int].start <= line_wrap.rows@[sub as int].end);
            cursor::lemma_line_len(self@.text, line as int);
        }
        let flat: bool = self.mode() == Mode::Raw;
        let indent: usize = if sub == 0 || flat {
            0
        } else {
            line_wrap.indent
        };
        wrap::find_cell_in_row(
            self.buffer(),
            base,
            line_wrap.rows[sub],
            self.cursor().offset,
            indent,
        )
    }

    /// Moves the cursor one line, or one row, up or down.
    pub fn step_cursor_line(&mut self, down: bool, visual: bool, layout: &Layout)
        requires
            old(self).wf(),
            layout.fits(old(self)@.text),
        ensures
            final(self)@ == old(self)@.line_step(down, visual, *layout),
            final(self).wf(),
    {
        if visual && layout.width > 0 {
            if down {
                self.move_down_visual(layout);
            } else {
                self.move_up_visual(layout);
            }
        } else if down {
            self.step(Motion::Down);
        } else {
            self.step(Motion::Up);
        }
    }

    /// True iff the cursor is in a comment that is not shown. Blank lines that are
    /// not shown do not count: the cursor may rest there.
    pub fn cursor_on_hidden_block(&self) -> (r: bool)
        requires
            self.wf(),
        ensures
            r == self@.hidden(),
    {
        let byte: usize = self.cursor_byte();
        let parsed = self.parsed();
        match parsed.source_map.block_for_byte(byte) {
            None => false,
            Some(block) => {
                if parsed.block_own_line_count(block) > 0 {
                    return false;
                }
                match parsed.source_map.original_range_for_block(block) {
                    None => false,
                    Some(range) => {
                        let len: usize = self.buffer().len_bytes();
                        let end: usize = if range.end <= len {
                            range.end
                        } else {
                            len
                        };
                        match self.buffer().byte_slice_to_string(range.start, end) {
                            None => false,
                            Some(t) => {
                                proof {
                                    encode_utf8_decode_utf8(t@);
                                }
                                starts_comment(t.as_str())
                            },
                        }
                    },
                }
            },
        }
    }

    /// Moves the cursor on while it is in a block that is not shown.
    pub fn leave_hidden_blocks(&mut self, down: bool, visual: bool, layout: &Layout)
        requires
            old(self).wf(),
            layout.fits(old(self)@.text),
        ensures
            final(self)@ == old(self)@.out_of_hidden(down, visual, *layout, HIDDEN_STEPS as nat),
            final(self).wf(),
    {
        let ghost v0 = self@;
        let mut safety: usize = HIDDEN_STEPS;
        while safety > 0 && self.cursor_on_hidden_block()
            invariant_except_break
                self.wf(),
                self@.text == v0.text,
                layout.fits(v0.text),
                self@.out_of_hidden(down, visual, *layout, safety as nat) == v0.out_of_hidden(
                    down,
                    visual,
                    *layout,
                    HIDDEN_STEPS as nat,
                ),
            ensures
                self.wf(),
                self@ == v0.out_of_hidden(down, visual, *layout, HIDDEN_STEPS as nat),
            decreases safety,
        {
            let before: usize = self.cursor().offset;
            proof {
                lemma_step_keeps_text(self@, down, visual, *layout);
            }
            self.step_cursor_line(down, visual, layout);
            if self.cursor().offset == before {
                break ;
            }
            safety -= 1;
        }
    }

    /// Moves the cursor one line up or down, by rows of the view if `visual` is
    /// set, past a table's row of dashes and past blocks that are not shown. In the
    /// source every line is a place to be.
    pub fn move_cursor_line(&mut self, down: bool, visual: bool, layout: &Layout)
        requires
            old(self).wf(),
            layout.fits(old(self)@.text),
        ensures
            final(self)@ == old(self)@.line_moved(down, visual, *layout),
            final(self).wf(),
    {
        proof {
            lemma_step_keeps_text(self@, down, visual, *layout);
        }
        self.step_cursor_line(down, visual, layout);
        if self.mode() == Mode::Raw {
            return ;
        }
        let (line, _) = self.cursor().line_col(self.buffer());
        if layout.alignment[line] {
            proof {
                lemma_step_keeps_text(self@, down, visual, *layout);
            }
            self.step_cursor_line(down, visual, layout);
        }
        self.leave_hidden_blocks(down, visual, layout);
    }

    /// Puts the cursor where the table layer moves it within a table, `target`;
    /// true iff it does. In the source it never does.
    pub fn try_table_move_horizontal(&mut self, target: Option<usize>) -> (r: bool)
        requires
            old(self).wf(),
            target matches Some(t) ==> t <= old(self)@.text.len(),
        ensures
            r == (old(self)@.mode != Mode::Raw && target is Some),
            final(self)@ == (match target {
                Some(t) => if r {
                    old(self)@.at(t as int).aimed()
                } else {
                    old(self)@
                },
                None => old(self)@,
            }),
            final(self).wf(),
    {
        if self.mode() == Mode::Raw {
            return false;
        }
        match target {
            Some(t) => {
                self.put_cursor(t);
                self.aim();
                true
            },
            None => false,
        }
    }

    /// Puts the cursor to the cell above or below, where the table layer finds one,
    /// `target`; true iff it does. In the source it never does.
    pub fn try_table_move_vertical(&mut self, target: Option<usize>) -> (r: bool)
        requires
            old(self).wf(),
            target matches Some(t) ==> t <= old(self)@.text.len(),
        ensures
            r == (old(self)@.mode != Mode::Raw && target is Some),
            final(self)@ == (match target {
                Some(t) => if r {
                    old(self)@.at(t as int).followed()
                } else {
                    old(self)@
                },
                None => old(self)@,
            }),
            final(self).wf(),
    {
        if self.mode() == Mode::Raw {
            return false;
        }
        match target {
            Some(t) => {
                self.put_cursor(t);
                self.update_cursor_block();
                true
            },
            None => false,
        }
    }
}

/// True iff `t` begins with a comment, behind whitespace.
fn starts_comment(t: &str) -> (r: bool)
    ensures
        r == is_comment(t@),
{
    let chars: Vec<char> = text::chars_of(t);
    let mut i: usize = 0;
    while i < chars.len() && text::is_whitespace(chars[i])
        invariant
            chars@ == t@,
            i <= chars@.len(),
            text::skip_whitespace(t@, i as int) == text::skip_whitespace(t@, 0),
        decreases chars@.len() - i,
    {
        i += 1;
    }
    chars.len() - i >= 4 && chars[i] == '<' && chars[i + 1] == '!' && chars[i + 2] == '-'
        && chars[i + 3] == '-'
}

} // verus!
