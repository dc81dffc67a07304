//! The parts that the editing actions share.

use crate::document::buffer;
use crate::document::history;
use crate::document::history::EditDelta;
use crate::document::selection::Selection;
use crate::document::source_map;
use crate::editor::edit_ops::emphasis;
use crate::editor::mode::Mode;
use crate::editor::state;
use crate::editor::state::{EditorState, EditorView};
use crate::editor::wrap::Layout;
use crate::text;
use vstd::prelude::*;
use vstd::string::*;

verus! {

/// An edit that puts `with` in the place of the characters `start..end` of `s`.
pub open spec fn splice(s: Seq<char>, start: int, end: int, with: Seq<char>) -> history::Delta {
    history::Delta { offset: start, removed: s.subrange(start, end), inserted: with }
}

/// A bound to the text's length.
pub open spec fn bounded(s: Seq<char>, i: int) -> int {
    state::least(i, s.len() as int)
}

impl EditorView {
    /// The rendered lines at which the cursor's block is shown.
    pub open spec fn cursor_lines(self) -> (int, int) {
        let map = self.parsed.source_map;
        match source_map::owner(map.extended(), self.cursor_byte()) {
            Some(b) => source_map::shown_at(map.lines(), b, map.extended().len() as int),
            None => (0, 0),
        }
    }

    /// The state with the cursor in the first block on the screen, unless its own
    /// block begins on the screen.
    pub open spec fn synced_to_scroll(self, height: int) -> EditorView {
        let map = self.parsed.source_map;
        let shown = self.cursor_lines();
        if shown.0 < shown.1 && self.scroll <= shown.0 < self.scroll + height {
            self
        } else if self.scroll < map.lines().len() && map.lines()[self.scroll as int]
            < map.original().len() {
            self.at(
                state::char_at_byte(
                    self.text,
                    map.original()[map.lines()[self.scroll as int] as int].start as int,
                ),
            )
        } else {
            self
        }
    }

    /// The state out of the preview and in the rendered view. A document that
    /// cannot be edited stays in the preview.
    pub open spec fn entered_edit(self, height: int) -> EditorView {
        if self.readonly || self.mode != Mode::Preview {
            self
        } else {
            self.synced_to_scroll(height).in_mode(Mode::Rendered).showing(None, None)
        }
    }

    /// The state that aims at the column of the screen, where vertical movement goes
    /// by rows of the view.
    pub open spec fn aimed_on_screen(self, layout: Layout) -> EditorView {
        if self.settings.visual_line_nav && layout.width > 0 {
            self.aimed_at(self.visual_col(layout))
        } else {
            self
        }
    }

    /// The state with `with` in the place of what `sel` covers.
    pub open spec fn overwritten(self, sel: Selection, with: Seq<char>) -> EditorView {
        let start = bounded(self.text, sel.low() as int);
        let end = bounded(self.text, sel.high() as int);
        self.at(start).edited(splice(self.text, start, end, with))
    }

    /// The state with `t` typed: in the place of the selection, if there is one, at
    /// the cursor otherwise.
    pub open spec fn typed(self, t: Seq<char>) -> EditorView {
        match self.selection {
            Some(sel) => self.selecting(None).overwritten(sel, t),
            None => self.edited(
                splice(self.text, self.cursor.offset as int, self.cursor.offset as int, t),
            ),
        }
    }

    /// The state with what `sel` covers deleted.
    pub open spec fn deleted(self, sel: Selection) -> EditorView {
        let end = bounded(self.text, sel.high() as int);
        if sel.low() < end {
            self.at(sel.low() as int).edited(
                splice(self.text, sel.low() as int, end, Seq::empty()),
            )
        } else {
            self
        }
    }

    /// The edit that puts the marker `m` around the selected text, or takes it away
    /// where the text is exactly so marked, and where the text is behind it.
    pub open spec fn wrap_edit(self, start: int, end: int, m: Seq<char>) -> (
        history::Delta,
        int,
        int,
    ) {
        let s = self.text;
        let t = s.subrange(start, end);
        let n = m.len() as int;
        if emphasis::wrapped(t, m) {
            let inner = t.subrange(n, t.len() - n);
            (splice(s, start, end, inner), start, start + inner.len())
        } else if emphasis::wrapped_outside(s, start, end, m) {
            (splice(s, start - n, end + n, t), start - n, start - n + t.len())
        } else {
            (splice(s, start, end, m + t + m), start + n, start + n + t.len())
        }
    }

    /// The state with the marker `m` put around the selection or taken away, and the
    /// text without markers selected. Nothing happens without a selection, and with
    /// one of several lines.
    #[verifier::opaque]
    pub open spec fn wrap_toggled(self, m: Seq<char>) -> EditorView {
        match self.selection {
            Some(sel) => {
                let start = sel.low() as int;
                let end = bounded(self.text, sel.high() as int);
                if self.readonly || start >= end || self.text.subrange(start, end).contains('\n') {
                    self
                } else {
                    let (d, from, to) = self.wrap_edit(start, end, m);
                    self.edited(d).selecting(
                        Some(Selection { anchor: from as usize, active: to as usize }),
                    ).at(to)
                }
            },
            None => self,
        }
    }

    /// The state that asks for the document if an edit within a line left it
    /// behind.
    pub open spec fn flushed(self) -> EditorView {
        if self.parsed_dirty {
            self.refreshed()
        } else {
            self
        }
    }

    /// An edit was made since the text had `len` characters and the history `depth`
    /// edits.
    pub open spec fn was_edited(self, len: int, depth: int) -> bool {
        self.text.len() != len || self.undo.len() != depth
    }

    /// The state with the upkeep after an action: list numbers are put right after
    /// an edit, and the cursor is put off list markers, both in the rendered view.
    pub open spec fn kept_up(self, edited: bool) -> EditorView {
        let v = if self.mode == Mode::Rendered && edited {
            self.list_renumbered()
        } else {
            self
        };
        if self.mode == Mode::Rendered {
            v.off_marker()
        } else {
            v
        }
    }

    /// The state after the upkeep, and the document asked for where an edit in the
    /// rendered view left it behind. `exact` keeps the text as it is: undoing must
    /// give back what was.
    #[verifier::opaque]
    pub open spec fn settled(self, len: int, depth: int, exact: bool) -> EditorView {
        let edited = self.was_edited(len, depth);
        let v = if exact {
            self
        } else {
            self.kept_up(edited)
        };
        if edited && self.mode == Mode::Rendered {
            v.flushed()
        } else {
            v
        }
    }
}

/// An edit that puts text in the place of a part fits.
pub proof fn lemma_splice_fits(s: Seq<char>, start: int, end: int, with: Seq<char>)
    requires
        0 <= start <= end <= s.len(),
    ensures
        splice(s, start, end, with).fits(s),
        splice(s, start, end, with).redone(s).len() == s.len() - (end - start) + with.len(),
{
}

/// The text after an edit.
pub proof fn lemma_edited_text(v: EditorView, d: history::Delta)
    ensures
        v.readonly ==> v.edited(d) == v,
        !v.readonly ==> v.edited(d).text == d.redone(v.text),
        v.edited(d).mode == v.mode,
        v.edited(d).readonly == v.readonly,
        v.edited(d).settings == v.settings,
        v.edited(d).parsed == v.parsed,
        v.edited(d).selection == v.selection,
        v.edited(d).scroll == v.scroll,
{
    reveal(EditorView::edited);
    reveal(EditorView::refreshed);
    reveal(EditorView::followed);
}

impl EditorState {
    /// Puts the cursor into the first block on the screen, unless its own block
    /// begins on the screen.
    pub fn sync_cursor_to_scroll(&mut self, viewport_height: usize)
        requires
            old(self).wf(),
        ensures
            final(self)@ == old(self)@.synced_to_scroll(viewport_height as int),
            final(self).wf(),
    {
        let scroll: usize = self.facts().scroll;
        let byte: usize = self.cursor_byte();
        let lines = self.parsed().source_map.rendered_lines_for_byte(byte);
        if lines.start < lines.end && lines.start >= scroll && lines.start - scroll
            < viewport_height {
            return ;
        }
        match self.parsed().source_map.original_byte_for_rendered_line(scroll) {
            Some(b) => {
                let offset: usize = self.char_at_byte(b);
                self.put_cursor(offset);
            },
            None => {},
        }
    }

    /// Leaves the preview for the rendered view: the one way out of it. A document
    /// that cannot be edited stays in the preview.
    pub fn enter_edit_if_preview(&mut self, viewport_height: usize)
        requires
            old(self).wf(),
        ensures
            final(self)@ == old(self)@.entered_edit(viewport_height as int),
            final(self).wf(),
    {
        let f = self.facts();
        if f.readonly || f.mode != Mode::Preview {
            return ;
        }
        self.sync_cursor_to_scroll(viewport_height);
        self.enter_mode(Mode::Rendered);
        self.show(None, None);
    }

    /// Aims at the column of the screen, where vertical movement goes by rows of the
    /// view.
    pub fn sync_preferred_visual(&mut self, layout: &Layout)
        requires
            old(self).wf(),
            layout.fits(old(self)@.text),
        ensures
            final(self)@ == old(self)@.aimed_on_screen(*layout),
            final(self).wf(),
    {
        if self.facts().settings.visual_line_nav && layout.width > 0 {
            let col: usize = self.current_visual_col(layout);
            self.aim_at(col);
        }
    }

    /// Puts `with` in the place of the characters `start..end`.
    pub fn splice(&mut self, start: usize, end: usize, with: String)
        requires
            old(self).wf(),
            start <= end <= old(self)@.text.len(),
        ensures
            final(self)@ == old(self)@.edited(
                splice(old(self)@.text, start as int, end as int, with@),
            ),
            final(self).wf(),
    {
        let removed: String = self.buffer().slice_to_string(start, end);
        let delta = EditDelta { offset: start, removed, inserted: with };
        proof {
            assert(delta@ == splice(self@.text, start as int, end as int, with@));
            lemma_splice_fits(self@.text, start as int, end as int, with@);
        }
        self.apply_delta(delta);
    }

    /// Puts `with` in the place of what `sel` covers.
    pub fn overwrite(&mut self, sel: Selection, with: String)
        requires
            old(self).wf(),
        ensures
            final(self)@ == old(self)@.overwritten(sel, with@),
            final(self).wf(),
    {
        let (low, high) = sel.range();
        let len: usize = self.buffer().len_chars();
        let start: usize = if low <= len {
            low
        } else {
            len
        };
        let end: usize = if high <= len {
            high
        } else {
            len
        };
        reveal(EditorView::at);
        self.put_cursor(start);
        self.splice(start, end, with);
    }

    /// Types `t`: in the place of the selection, if there is one, at the cursor
    /// otherwise.
    pub fn insert_text(&mut self, t: String)
        requires
            old(self).wf(),
        ensures
            final(self)@ == old(self)@.typed(t@),
            final(self).wf(),
    {
        match self.selection() {
            Some(sel) => {
                self.select(None);
                self.overwrite(sel, t);
            },
            None => {
                let offset: usize = self.cursor().offset;
                self.splice(offset, offset, t);
            },
        }
    }

    /// Deletes what `sel` covers.
    pub fn delete_selection(&mut self, sel: Selection)
        requires
            old(self).wf(),
        ensures
            final(self)@ == old(self)@.deleted(sel),
            final(self).wf(),
    {
        let (start, high) = sel.range();
        let len: usize = self.buffer().len_chars();
        let end: usize = if high <= len {
            high
        } else {
            len
        };
        if start < end {
            reveal(EditorView::at);
            self.put_cursor(start);
            self.splice(start, end, String::new());
        }
    }

    /// Puts `with` in the place of the characters `start..end`, and selects the
    /// `size` characters of it that come after the first `lead`.
    fn splice_selecting(
        &mut self,
        start: usize,
        end: usize,
        with: String,
        lead: usize,
        size: usize,
    )
        requires
            old(self).wf(),
            !old(self)@.readonly,
            start <= end <= old(self)@.text.len(),
            lead + size <= with@.len(),
        ensures
            final(self)@ == old(self)@.edited(
                splice(old(self)@.text, start as int, end as int, with@),
            ).selecting(
                Some(
                    Selection {
                        anchor: (start + lead) as usize,
                        active: (start + lead + size) as usize,
                    },
                ),
            ).at(start + lead + size),
            final(self).wf(),
    {
        let ghost v = self@;
        let ghost d = splice(v.text, start as int, end as int, with@);
        self.splice(start, end, with);
        assert(start + lead + size <= self@.text.len()) by {
            lemma_edited_text(v, d);
            lemma_splice_fits(v.text, start as int, end as int, d.inserted);
        }
        let len: usize = self.buffer().len_chars();
        let from: usize = start + lead;
        let to: usize = from + size;
        let ghost w = self@;
        self.select(Some(Selection { anchor: from, active: to }));
        assert(self@.text == w.text) by {
            reveal(EditorView::selecting);
        }
        self.put_cursor(to);
    }

    /// Puts `marker` around the selection, or takes it away where the selected text
    /// is exactly so marked; the text without markers is selected then. Emphasis
    /// cannot cross lines, so a selection of several lines is left alone.
    pub fn toggle_wrap(&mut self, marker: &[char])
        requires
            old(self).wf(),
            0 < marker@.len() <= 2,
        ensures
            final(self)@ == old(self)@.wrap_toggled(marker@),
            final(self).wf(),
    {
        reveal(EditorView::wrap_toggled);
        let sel: Selection = match self.selection() {
            Some(sel) => sel,
            None => {
                return ;
            },
        };
        let (start, high) = sel.range();
        let len: usize = self.buffer().len_chars();
        let end: usize = if high <= len {
            high
        } else {
            len
        };
        if self.facts().readonly || start >= end {
            return ;
        }
        let t: String = self.buffer().slice_to_string(start, end);
        if state::has_newline(t.as_str()) {
            return ;
        }
        let chars: Vec<char> = text::chars_of(t.as_str());
        let n: usize = chars.len();
        let m: usize = marker.len();
        if emphasis::is_marker_wrapped(chars.as_slice(), marker) {
            let inner: String = text::text_of_chars(chars.as_slice(), m, n - m);
            self.splice_selecting(start, end, inner, 0, n - m - m);
        } else if emphasis::outside_wrapped(self.buffer(), start, end, marker) {
            self.splice_selecting(start - m, end + m, t, 0, n);
        } else {
            let mut with: String = text::text_of_chars(marker, 0, m);
            with.append(t.as_str());
            let tail: String = text::text_of_chars(marker, 0, m);
            with.append(tail.as_str());
            assert(marker@.subrange(0, m as int) =~= marker@);
            self.splice_selecting(start, end, with, m, n);
        }
    }

    /// The upkeep after an action that began with `len` characters and `depth`
    /// edits; true iff an edit was made outside the preview, so that the cursor is
    /// to be kept visible. `exact` is for undoing.
    pub fn settle(&mut self, len: usize, depth: usize, exact: bool) -> (r: bool)
        requires
            old(self).wf(),
        ensures
            final(self)@ == old(self)@.settled(len as int, depth as int, exact),
            r == (old(self)@.was_edited(len as int, depth as int) && old(self)@.mode
                != Mode::Preview),
            final(self).wf(),
    {
        reveal(EditorView::settled);
        let mode: Mode = self.mode();
        let edited: bool = self.buffer().len_chars() != len || self.facts().undo_depth != depth;
        if mode == Mode::Rendered && !exact {
            if edited {
                self.list_renumber_at_cursor();
            }
            self.clamp_cursor_out_of_marker();
        }
        if edited && mode == Mode::Rendered {
            self.flush_parsed_if_dirty();
        }
        edited && mode != Mode::Preview
    }
}

} // verus!
