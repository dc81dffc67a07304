//! The actions that change the text, and those of the clipboard.

use crate::document::buffer;
use crate::document::graphemes;
use crate::document::rope;
use crate::editor::edit_ops::action;
use crate::editor::edit_ops::action::{Near, Outcome, OutcomeView, TableCommand};
use crate::editor::edit_ops::basic;
use crate::editor::edit_ops::moves;
use crate::editor::list_edit::edit;
use crate::editor::mode::Mode;
use crate::editor::motion;
use crate::editor::motion::Motion;
use crate::editor::mouse_ops::selection;
use crate::editor::state::{EditorState, EditorView};
use vstd::prelude::*;
use vstd::string::*;

verus! {

/// The text for a typed character. In a table a bar is escaped, so that it does not
/// split the cell.
pub open spec fn typed_char(c: char, in_table: bool) -> Seq<char> {
    if c == '|' && in_table {
        seq!['\\', '|']
    } else {
        seq![c]
    }
}

/// `width` spaces.
pub open spec fn blanks(width: nat) -> Seq<char> {
    Seq::new(width, |i: int| ' ')
}

/// Where the line that holds index `i` ends, behind its line break.
pub open spec fn line_past(s: Seq<char>, line: int) -> int {
    if line + 1 < rope::line_total(s) {
        rope::line_begin(s, line + 1)
    } else {
        s.len() as int
    }
}

impl EditorView {
    /// A character typed. From the preview the first key only leaves it.
    #[verifier::opaque]
    pub open spec fn char_typed(self, c: char, near: Near) -> moves::Done {
        if self.mode == Mode::Preview {
            moves::Done {
                state: self.entered_edit(near.height as int),
                asks: action::quiet(),
                upkeep: false,
            }
        } else {
            moves::Done {
                state: self.typed(typed_char(c, near.in_table)),
                asks: action::quiet(),
                upkeep: true,
            }
        }
    }

    /// The tab key: the next cell in a table, one level deeper in a list, else
    /// spaces.
    #[verifier::opaque]
    pub open spec fn tab_typed(self, near: Near) -> moves::Done {
        if self.mode == Mode::Preview {
            moves::Done {
                state: self.entered_edit(near.height as int),
                asks: action::quiet(),
                upkeep: false,
            }
        } else if near.in_table {
            moves::Done {
                state: self,
                asks: (OutcomeView { table: Some(TableCommand::NextCell), ..action::quiet() }),
                upkeep: false,
            }
        } else {
            moves::Done {
                state: match self.list_indent_edit() {
                    Some(e) => self.list_edited(e),
                    None => if self.list_item() == Some(0int) {
                        self
                    } else {
                        self.typed(blanks(self.settings.indent_width as nat))
                    },
                },
                asks: action::quiet(),
                upkeep: true,
            }
        }
    }

    /// The enter key: the next row in a table, the next item in a list, else a line
    /// break.
    #[verifier::opaque]
    pub open spec fn newline_typed(self, near: Near) -> moves::Done {
        if self.mode == Mode::Preview {
            moves::Done {
                state: self.entered_edit(near.height as int),
                asks: action::quiet(),
                upkeep: false,
            }
        } else if near.in_table {
            moves::Done {
                state: self,
                asks: (OutcomeView { table: Some(TableCommand::NextRow), ..action::quiet() }),
                upkeep: false,
            }
        } else {
            moves::Done {
                state: match self.list_newline_edit() {
                    Some(e) => self.list_edited(e),
                    None => self.typed(seq!['\n']),
                },
                asks: action::quiet(),
                upkeep: true,
            }
        }
    }

    /// The characters `start..end` taken out, if there are any.
    pub open spec fn without(self, start: int, end: int) -> EditorView {
        if start < end {
            self.edited(basic::splice(self.text, start, end, Seq::empty()))
        } else {
            self
        }
    }

    /// What is before the cursor deleted: the selection, a list's marker in the
    /// rendered view, else one whole character as the user sees it.
    #[verifier::opaque]
    pub open spec fn erased_back(self, near: Near) -> EditorView {
        let e = self.entered_edit(near.height as int);
        match e.selection {
            Some(sel) => e.selecting(None).deleted(sel),
            None => if e.mode == Mode::Rendered && e.list_backspace_edit() is Some {
                e.list_edited(e.list_backspace_edit()->0)
            } else {
                e.without(
                    graphemes::prev_boundary(e.text, e.cursor.offset as int),
                    e.cursor.offset as int,
                )
            },
        }
    }

    /// What is behind the cursor deleted.
    #[verifier::opaque]
    pub open spec fn erased_forward(self, near: Near) -> EditorView {
        let e = self.entered_edit(near.height as int);
        match e.selection {
            Some(sel) => e.selecting(None).deleted(sel),
            None => e.without(
                e.cursor.offset as int,
                graphemes::next_boundary(e.text, e.cursor.offset as int),
            ),
        }
    }

    /// The word before the cursor deleted.
    #[verifier::opaque]
    pub open spec fn word_erased_back(self, near: Near) -> EditorView {
        let e = self.entered_edit(near.height as int).selecting(None);
        let start = motion::moved(e.cursor, e.text, Motion::WordLeft).offset as int;
        if start < e.cursor.offset {
            e.at(start).aimed().without(start, e.cursor.offset as int)
        } else {
            e
        }
    }

    /// The word behind the cursor deleted.
    #[verifier::opaque]
    pub open spec fn word_erased_forward(self, near: Near) -> EditorView {
        let e = self.entered_edit(near.height as int).selecting(None);
        e.without(
            e.cursor.offset as int,
            motion::moved(e.cursor, e.text, Motion::WordRight).offset as int,
        )
    }

    /// The cursor's line deleted with its line break.
    #[verifier::opaque]
    pub open spec fn line_erased(self, near: Near) -> EditorView {
        let e = self.entered_edit(near.height as int).selecting(None);
        let start = rope::line_begin(e.text, e.line());
        let end = line_past(e.text, e.line());
        if start < end {
            e.at(start).without(start, end)
        } else {
            e
        }
    }

    /// What a copy takes: in the preview the text that is shown, of the selection
    /// or of the first line; otherwise the source, of the selection or of the
    /// cursor's line.
    pub open spec fn copied_text(self) -> Seq<char> {
        if self.mode == Mode::Preview {
            match self.visual {
                Some(sel) => selection::rendered_text(sel, self.band, self.parsed.lines@),
                None => if self.scroll < self.parsed.lines@.len() {
                    self.parsed.lines@[self.scroll as int]@
                } else {
                    Seq::empty()
                },
            }
        } else {
            match self.selection {
                Some(sel) => sel.text_of(self.text),
                None => self.text.subrange(
                    rope::line_begin(self.text, self.line()),
                    rope::line_begin(self.text, self.line() + 1),
                ),
            }
        }
    }

    /// A text put on the clipboards. The system's gets it with the line breaks of
    /// the file.
    pub open spec fn copying(self, t: Seq<char>) -> moves::Done {
        moves::Done {
            state: self.holding(t),
            asks: (OutcomeView { copy: Some(buffer::encoded(t, self.ending)), ..action::quiet() }),
            upkeep: true,
        }
    }

    /// The selection, or else the cursor's line, put on the clipboards and taken
    /// out.
    #[verifier::opaque]
    pub open spec fn cut(self) -> moves::Done {
        match self.selection {
            Some(sel) => {
                let d = self.copying(sel.text_of(self.text));
                moves::Done { state: d.state.selecting(None).deleted(sel), ..d }
            },
            None => {
                let start = rope::line_begin(self.text, self.line());
                let end = line_past(self.text, self.line());
                if start < end {
                    let d = self.copying(self.text.subrange(start, end));
                    moves::Done { state: d.state.at(start).without(start, end), ..d }
                } else {
                    moves::Done { state: self, asks: action::quiet(), upkeep: true }
                }
            },
        }
    }

    /// The text to paste: the system's clipboard with line feeds only, where it can
    /// be read, else the editor's own.
    pub open spec fn pasted_text(self, clipboard: Option<Seq<char>>) -> Seq<char> {
        match clipboard {
            Some(t) => buffer::normalized(t),
            None => self.kill_ring,
        }
    }

    /// The clipboard's text put in.
    #[verifier::opaque]
    pub open spec fn pasted(self, near: Near) -> EditorView {
        let e = self.entered_edit(near.height as int);
        let t = e.pasted_text(
            match near.clipboard {
                Some(c) => Some(c@),
                None => None,
            },
        );
        if t.len() == 0 {
            e
        } else {
            e.typed(t)
        }
    }

    /// A line break in a table's cell, else a line feed.
    #[verifier::opaque]
    pub open spec fn broken(self, near: Near) -> EditorView {
        self.entered_edit(near.height as int).typed(
            if near.in_table {
                seq!['<', 'b', 'r', '>']
            } else {
                seq!['\n']
            },
        )
    }
}

/// A selection is no part of the text, nor is the clipboard.
proof fn lemma_holding_text(v: EditorView, t: Seq<char>)
    ensures
        v.holding(t).text == v.text,
        v.holding(t).ending == v.ending,
        v.holding(t).cursor == v.cursor,
        v.selecting(None).cursor == v.cursor,
        v.selecting(None).text == v.text,
        v.holding(t).selecting(None).text == v.text,
{
    reveal(EditorView::holding);
    reveal(EditorView::selecting);
}

/// `width` spaces.
pub fn make_blanks(width: usize) -> (r: String)
    ensures
        r@ == blanks(width as nat),
{
    let mut out: String = String::new();
    let mut i: usize = 0;
    assert(out@ =~= blanks(0));
    while i < width
        invariant
            i <= width,
            out@ == blanks(i as nat),
        decreases width - i,
    {
        out.push(' ');
        i += 1;
        assert(out@ =~= blanks(i as nat));
    }
    out
}

/// The text for a typed character.
pub fn text_for_char(c: char, in_table: bool) -> (r: String)
    ensures
        r@ == typed_char(c, in_table),
{
    let mut out: String = String::new();
    if c == '|' && in_table {
        out.push('\\');
    }
    out.push(c);
    assert(out@ =~= typed_char(c, in_table));
    out
}

impl EditorState {
    /// Types a character; true iff the upkeep follows.
    pub fn type_char(&mut self, c: char, near: &Near) -> (r: bool)
        requires
            old(self).wf(),
        ensures
            final(self)@ == old(self)@.char_typed(c, *near).state,
            r == old(self)@.char_typed(c, *near).upkeep,
            old(self)@.char_typed(c, *near).asks == action::quiet(),
            final(self).wf(),
    {
        reveal(EditorView::char_typed);
        if self.mode() == Mode::Preview {
            self.enter_edit_if_preview(near.height);
            return false;
        }
        let t: String = text_for_char(c, near.in_table);
        self.insert_text(t);
        true
    }

    /// The tab key; true iff the upkeep follows.
    pub fn type_tab(&mut self, near: &Near) -> (r: (Outcome, bool))
        requires
            old(self).wf(),
            old(self)@.mode != Mode::Preview ==> edit::cursor_fits(old(self)@.list_indent_edit()),
        ensures
            final(self)@ == old(self)@.tab_typed(*near).state,
            r.0@ == old(self)@.tab_typed(*near).asks,
            r.1 == old(self)@.tab_typed(*near).upkeep,
            final(self).wf(),
    {
        reveal(EditorView::tab_typed);
        if self.mode() == Mode::Preview {
            self.enter_edit_if_preview(near.height);
            return (Outcome::quiet(), false);
        }
        if near.in_table {
            return (Outcome::table(TableCommand::NextCell), false);
        }
        if !self.list_indent() {
            let width: usize = self.facts().settings.indent_width;
            let t: String = make_blanks(width);
            self.insert_text(t);
        }
        (Outcome::quiet(), true)
    }

    /// The enter key; true iff the upkeep follows.
    pub fn type_newline(&mut self, near: &Near) -> (r: (Outcome, bool))
        requires
            old(self).wf(),
            old(self)@.mode != Mode::Preview ==> edit::cursor_fits(old(self)@.list_newline_edit()),
        ensures
            final(self)@ == old(self)@.newline_typed(*near).state,
            r.0@ == old(self)@.newline_typed(*near).asks,
            r.1 == old(self)@.newline_typed(*near).upkeep,
            final(self).wf(),
    {
        reveal(EditorView::newline_typed);
        if self.mode() == Mode::Preview {
            self.enter_edit_if_preview(near.height);
            return (Outcome::quiet(), false);
        }
        if near.in_table {
            return (Outcome::table(TableCommand::NextRow), false);
        }
        if !self.list_handle_newline() {
            let t: String = text_for_char('\n', false);
            self.insert_text(t);
        }
        (Outcome::quiet(), true)
    }

    /// Takes the characters `start..end` out, if there are any.
    pub fn take_out(&mut self, start: usize, end: usize)
        requires
            old(self).wf(),
            end <= old(self)@.text.len(),
        ensures
            final(self)@ == old(self)@.without(start as int, end as int),
            final(self).wf(),
    {
        if start < end {
            self.splice(start, end, String::new());
        }
    }

    /// Deletes what is before the cursor.
    pub fn erase_back(&mut self, near: &Near)
        requires
            old(self).wf(),
        ensures
            final(self)@ == old(self)@.erased_back(*near),
            final(self).wf(),
    {
        reveal(EditorView::erased_back);
        self.enter_edit_if_preview(near.height);
        match self.selection() {
            Some(sel) => {
                self.select(None);
                self.delete_selection(sel);
                return ;
            },
            None => {},
        }
        if self.mode() == Mode::Rendered && self.list_backspace_consumes_marker() {
            return ;
        }
        let end: usize = self.cursor().offset;
        let start: usize = graphemes::prev_grapheme_offset(self.buffer(), end);
        self.take_out(start, end);
    }

    /// Deletes what is behind the cursor.
    pub fn erase_forward(&mut self, near: &Near)
        requires
            old(self).wf(),
        ensures
            final(self)@ == old(self)@.erased_forward(*near),
            final(self).wf(),
    {
        reveal(EditorView::erased_forward);
        self.enter_edit_if_preview(near.height);
        match self.selection() {
            Some(sel) => {
                self.select(None);
                self.delete_selection(sel);
                return ;
            },
            None => {},
        }
        let start: usize = self.cursor().offset;
        let end: usize = graphemes::next_grapheme_offset(self.buffer(), start);
        self.take_out(start, end);
    }

    /// Deletes the word before the cursor.
    pub fn erase_word_back(&mut self, near: &Near)
        requires
            old(self).wf(),
        ensures
            final(self)@ == old(self)@.word_erased_back(*near),
            final(self).wf(),
    {
        reveal(EditorView::word_erased_back);
        self.enter_edit_if_preview(near.height);
        self.select(None);
        let ghost e = self@;
        let end: usize = self.cursor().offset;
        let mut ahead = self.cursor();
        motion::move_cursor(&mut ahead, self.buffer(), Motion::WordLeft);
        if ahead.offset < end {
            self.put_cursor(ahead.offset);
            self.aim();
            assert(self@.text == e.text) by {
                reveal(EditorView::at);
                reveal(EditorView::aimed);
            }
            self.take_out(ahead.offset, end);
        }
    }

    /// Deletes the word behind the cursor.
    pub fn erase_word_forward(&mut self, near: &Near)
        requires
            old(self).wf(),
        ensures
            final(self)@ == old(self)@.word_erased_forward(*near),
            final(self).wf(),
    {
        reveal(EditorView::word_erased_forward);
        self.enter_edit_if_preview(near.height);
        self.select(None);
        let start: usize = self.cursor().offset;
        let mut ahead = self.cursor();
        motion::move_cursor(&mut ahead, self.buffer(), Motion::WordRight);
        self.take_out(start, ahead.offset);
    }

    /// The ends of the cursor's line, its line break with it.
    pub fn line_bounds(&self) -> (r: (usize, usize))
        requires
            self.wf(),
        ensures
            r.0 == rope::line_begin(self@.text, self@.line()),
            r.1 == line_past(self@.text, self@.line()),
            r.0 <= r.1 <= self@.text.len(),
    {
        let (line, _) = self.cursor().line_col(self.buffer());
        let buf = self.buffer();
        let lines: usize = buf.line_count();
        let start: usize = buf.line_to_char(line);
        let end: usize = if line + 1 < lines {
            buf.line_to_char(line + 1)
        } else {
            buf.len_chars()
        };
        proof {
            rope::lemma_line_begin(self@.text, line as int);
            rope::lemma_line_begin_monotone(self@.text, line as int, line + 1);
        }
        (start, end)
    }

    /// Deletes the cursor's line.
    pub fn erase_line(&mut self, near: &Near)
        requires
            old(self).wf(),
        ensures
            final(self)@ == old(self)@.line_erased(*near),
            final(self).wf(),
    {
        reveal(EditorView::line_erased);
        self.enter_edit_if_preview(near.height);
        self.select(None);
        let ghost e = self@;
        let (start, end) = self.line_bounds();
        if start < end {
            self.put_cursor(start);
            assert(self@.text == e.text) by {
                reveal(EditorView::at);
            }
            self.take_out(start, end);
        }
    }

    /// The text that a copy takes.
    pub fn text_to_copy(&self) -> (r: String)
        requires
            self.wf(),
        ensures
            r@ == self@.copied_text(),
    {
        let f = self.facts();
        if f.mode == Mode::Preview {
            let lines = &self.parsed().lines;
            return match f.visual {
                Some(sel) => selection::visual_selection_to_rendered_text(
                    sel,
                    f.band,
                    lines.as_slice(),
                ),
                None => if f.scroll < lines.len() {
                    lines[f.scroll].text()
                } else {
                    String::new()
                },
            };
        }
        match f.selection {
            Some(sel) => sel.selected_text(self.buffer()),
            None => {
                let (line, _) = self.cursor().line_col(self.buffer());
                match self.buffer().line(line) {
                    Some(t) => t,
                    None => String::new(),
                }
            },
        }
    }

    /// Puts `t` on the clipboards.
    pub fn copy_text(&mut self, t: String) -> (r: Outcome)
        requires
            old(self).wf(),
        ensures
            final(self)@ == old(self)@.copying(t@).state,
            r@ == old(self)@.copying(t@).asks,
            final(self).wf(),
    {
        let outside: String = buffer::encode_newlines(t.as_str(), self.buffer().line_ending());
        self.hold(t);
        let mut out = Outcome::quiet();
        out.copy = Some(outside);
        out
    }

    /// Puts the selection, or else the cursor's line, on the clipboards and takes it
    /// out.
    pub fn cut_text(&mut self) -> (r: Outcome)
        requires
            old(self).wf(),
        ensures
            final(self)@ == old(self)@.cut().state,
            r@ == old(self)@.cut().asks,
            old(self)@.cut().upkeep,
            final(self).wf(),
    {
        reveal(EditorView::cut);
        let ghost v = self@;
        match self.selection() {
            Some(sel) => {
                let t: String = sel.selected_text(self.buffer());
                let out = self.copy_text(t);
                self.select(None);
                self.delete_selection(sel);
                out
            },
            None => {
                let (start, end) = self.line_bounds();
                if start < end {
                    let t: String = self.buffer().slice_to_string(start, end);
                    let out = self.copy_text(t);
                    proof {
                        lemma_holding_text(v, t@);
                    }
                    let ghost w = self@;
                    self.put_cursor(start);
                    assert(self@.text == w.text) by {
                        reveal(EditorView::at);
                    }
                    self.take_out(start, end);
                    out
                } else {
                    Outcome::quiet()
                }
            },
        }
    }

    /// Pastes what is on the clipboard.
    pub fn paste(&mut self, near: &Near)
        requires
            old(self).wf(),
        ensures
            final(self)@ == old(self)@.pasted(*near),
            final(self).wf(),
    {
        reveal(EditorView::pasted);
        self.enter_edit_if_preview(near.height);
        let t: String = clipboard_text(self, &near.clipboard);
        if t.as_str().unicode_len() > 0 {
            self.insert_text(t);
        }
    }

    /// A line break in a table's cell, else a line feed.
    pub fn insert_break(&mut self, near: &Near)
        requires
            old(self).wf(),
        ensures
            final(self)@ == old(self)@.broken(*near),
            final(self).wf(),
    {
        reveal(EditorView::broken);
        self.enter_edit_if_preview(near.height);
        let mut t: String = String::new();
        if near.in_table {
            t.push('<');
            t.push('b');
            t.push('r');
            t.push('>');
            assert(t@ =~= seq!['<', 'b', 'r', '>']);
        } else {
            t.push('\n');
            assert(t@ =~= seq!['\n']);
        }
        self.insert_text(t);
    }
}

/// The text to paste, where `clipboard` is what the system's holds, if it can be
/// read.
pub fn clipboard_text(state: &EditorState, clipboard: &Option<String>) -> (r: String)
    ensures
        r@ == state@.pasted_text(
            match *clipboard {
                Some(c) => Some(c@),
                None => None,
            },
        ),
{
    match clipboard {
        Some(t) => buffer::normalize_newlines(t.clone()),
        None => state.kill_ring().clone(),
    }
}

} // verus!
