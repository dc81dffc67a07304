//! Reviews, searches, and putting what is in focus into view.

use crate::editor::mode::Mode;
use crate::editor::state;
use crate::editor::state::{EditorState, EditorView, SearchFlow};
use core::ops::Range;
use vstd::prelude::*;

verus! {

/// Rows of context that are kept above what is in focus.
pub const TOP_MARGIN: usize = 3;

/// The scroll position at which `row` of `total` rows is in view with its context.
pub open spec fn scroll_for(row: int, total: int) -> usize {
    let top = if row >= TOP_MARGIN {
        row - TOP_MARGIN
    } else {
        0
    };
    let last = if total >= 1 {
        total - 1
    } else {
        0
    };
    state::least(top, last) as usize
}

fn find_scroll(row: usize, total: usize) -> (r: usize)
    ensures
        r == scroll_for(row as int, total as int),
{
    let top: usize = if row >= TOP_MARGIN {
        row - TOP_MARGIN
    } else {
        0
    };
    let last: usize = if total >= 1 {
        total - 1
    } else {
        0
    };
    if top <= last {
        top
    } else {
        last
    }
}

impl EditorView {
    /// The cursor's paragraph is one flow and is shown by its source.
    pub open spec fn reflow_revealed(self, reflowed: bool) -> bool {
        self.mode == Mode::Rendered && self.revealed() && reflowed
    }

    /// The state with a review opened: the view is at the top of it, and the
    /// scroll position is kept for later.
    pub open spec fn reviewing(self) -> EditorView {
        let v = EditorView {
            pre_diff_scroll: self.scroll,
            diff_parse_dirty: true,
            ..self
        };
        EditorView {
            pending_focus_scroll: true,
            ..v.scrolled(0).in_mode(Mode::Diff).selecting(None).showing(None, None)
        }
    }

    /// The state with the review closed, and the view where it was before it.
    pub open spec fn reviewed(self) -> EditorView {
        let v = EditorView { pre_diff_scroll: 0, ..self.scrolled(self.pre_diff_scroll) };
        if self.mode == Mode::Diff {
            v.in_mode(Mode::Rendered)
        } else {
            v
        }
    }

    /// Row `row` is on a screen of `height` rows, below the rows of context.
    pub open spec fn comfortably_shows(self, row: int, height: int) -> bool {
        self.scroll + TOP_MARGIN <= row < self.scroll + height
    }

    /// The state with row `row` of `total` put into view, if it is not.
    pub open spec fn showing_row(self, row: int, total: int, height: int) -> EditorView {
        if self.comfortably_shows(row, height) {
            self
        } else {
            self.scrolled(scroll_for(row, total))
        }
    }

    /// The state with the cursor at `offset`, as far as the text goes.
    pub open spec fn placed(self, offset: int) -> EditorView {
        self.at(state::least(offset, self.text.len() as int)).aimed().followed()
    }

    /// The state with a search begun.
    pub open spec fn searching(self, flow: SearchFlow) -> EditorView {
        EditorView {
            pending_focus_scroll: true,
            ..EditorView { search: Some(flow), ..self }.selecting(None).showing(None, None)
        }
    }
}

impl EditorState {
    /// Opens a review of differences.
    pub fn enter_diff_mode(&mut self)
        requires
            old(self).wf(),
        ensures
            final(self)@ == old(self)@.reviewing(),
            final(self).wf(),
    {
        let scroll: usize = self.facts().scroll;
        self.set_review(scroll, true);
        self.scroll_to(0);
        self.enter_mode(Mode::Diff);
        self.select(None);
        self.show(None, None);
        self.set_focus_scroll(true);
    }

    /// Closes the review and goes back to the rendered view.
    pub fn exit_diff_mode(&mut self)
        requires
            old(self).wf(),
        ensures
            final(self)@ == old(self)@.reviewed(),
            final(self).wf(),
    {
        let f = self.facts();
        let ghost v = self@;
        self.scroll_to(f.pre_diff_scroll);
        let dirty: bool = self.diff_parse_dirty();
        self.set_review(0, dirty);
        assert(self@ == EditorView { pre_diff_scroll: 0, ..v.scrolled(v.pre_diff_scroll) });
        if f.mode == Mode::Diff {
            self.enter_mode(Mode::Rendered);
        }
    }

    /// Scrolls so that `row` of `total` rows is comfortably in view; where it is,
    /// nothing moves.
    fn scroll_row_comfortably_into_view(&mut self, row: usize, total: usize, viewport_height: usize)
        requires
            old(self).wf(),
        ensures
            final(self)@ == old(self)@.showing_row(
                row as int,
                total as int,
                viewport_height as int,
            ),
            final(self).wf(),
    {
        let scroll: usize = self.facts().scroll;
        let shown: bool = row >= scroll && row - scroll >= TOP_MARGIN && row - scroll
            < viewport_height;
        assert(shown == self@.comfortably_shows(row as int, viewport_height as int));
        if !shown {
            self.scroll_to(find_scroll(row, total));
        }
    }

    /// Puts the difference in focus, which is at `row` of the review's `total`
    /// rows, into view. Nothing happens without a review.
    pub fn scroll_focused_hunk_into_view(
        &mut self,
        row: usize,
        total: usize,
        viewport_height: usize,
    )
        requires
            old(self).wf(),
        ensures
            final(self)@ == if viewport_height == 0 || old(self)@.mode != Mode::Diff {
                old(self)@
            } else {
                old(self)@.showing_row(row as int, total as int, viewport_height as int)
            },
            final(self).wf(),
    {
        if viewport_height == 0 || self.mode() != Mode::Diff {
            return ;
        }
        self.scroll_row_comfortably_into_view(row, total, viewport_height);
    }

    /// Puts the cursor, which is at visual row `row` of `total`, into view.
    pub fn scroll_cursor_comfortably_into_view(
        &mut self,
        row: usize,
        total: usize,
        viewport_height: usize,
        viewport_width: usize,
    )
        requires
            old(self).wf(),
        ensures
            final(self)@ == if viewport_height == 0 || viewport_width == 0 {
                old(self)@
            } else {
                old(self)@.showing_row(row as int, total as int, viewport_height as int)
            },
            final(self).wf(),
    {
        if viewport_height == 0 || viewport_width == 0 {
            return ;
        }
        self.scroll_row_comfortably_into_view(row, total, viewport_height);
    }

    /// Puts the cursor to `offset`, as far as the text goes.
    pub fn place_cursor(&mut self, offset: usize)
        requires
            old(self).wf(),
        ensures
            final(self)@ == old(self)@.placed(offset as int),
            final(self).wf(),
    {
        let len: usize = self.buffer().len_chars();
        self.put_cursor(
            if offset <= len {
                offset
            } else {
                len
            },
        );
        self.aim();
        self.update_cursor_block();
    }

    /// Goes back to a place and, if it is given, a scroll position.
    pub fn restore_view(&mut self, cursor: usize, scroll: Option<usize>)
        requires
            old(self).wf(),
        ensures
            final(self)@ == (match scroll {
                Some(s) => old(self)@.placed(cursor as int).scrolled(s),
                None => old(self)@.placed(cursor as int),
            }),
            final(self).wf(),
    {
        self.place_cursor(cursor);
        match scroll {
            Some(s) => self.scroll_to(s),
            None => {},
        }
    }

    /// Begins a search. The mode stays as it is.
    pub fn enter_search(&mut self, flow: SearchFlow)
        requires
            old(self).wf(),
        ensures
            final(self)@ == old(self)@.searching(flow),
            final(self).wf(),
    {
        self.set_search(Some(flow));
        self.select(None);
        self.show(None, None);
        self.set_focus_scroll(true);
    }

    /// Ends the search and stays at the match that was reached.
    pub fn exit_search(&mut self)
        requires
            old(self).wf(),
        ensures
            final(self)@ == (EditorView { search: None, ..old(self)@ }),
            final(self).wf(),
    {
        self.set_search(None);
    }

    /// The text to search again, if a search is on and its matches are of another
    /// version of the text.
    pub fn ensure_search_fresh(&self) -> (r: Option<String>)
        ensures
            match r {
                Some(t) => t@ == self@.text && (self@.search matches Some(f) && f.version
                    != self@.version),
                None => !(self@.search matches Some(f) && f.version != self@.version),
            },
    {
        match self.facts().search {
            Some(f) => if f.version == self.buffer().version() {
                None
            } else {
                Some(self.buffer().contents())
            },
            None => None,
        }
    }

    /// Puts the cursor to the start of the match in focus.
    pub fn sync_cursor_to_search_focus(&mut self)
        requires
            old(self).wf(),
        ensures
            final(self)@ == (match old(self)@.search {
                Some(f) => match f.focused {
                    Some(byte) => old(self)@.placed(
                        state::char_at_byte(old(self)@.text, byte as int),
                    ),
                    None => old(self)@,
                },
                None => old(self)@,
            }),
            final(self).wf(),
    {
        match self.facts().search {
            Some(f) => match f.focused {
                Some(byte) => {
                    let offset: usize = self.char_at_byte(byte);
                    self.place_cursor(offset);
                },
                None => {},
            },
            None => {},
        }
    }

    /// Puts the match in focus, at which the cursor is, into view. Nothing happens
    /// without a search.
    pub fn scroll_focused_match_into_view(
        &mut self,
        row: usize,
        total: usize,
        viewport_height: usize,
        viewport_width: usize,
    )
        requires
            old(self).wf(),
        ensures
            final(self)@ == if old(self)@.search is None || viewport_height == 0
                || viewport_width == 0 {
                old(self)@
            } else {
                old(self)@.showing_row(row as int, total as int, viewport_height as int)
            },
            final(self).wf(),
    {
        if self.facts().search.is_none() {
            return ;
        }
        self.scroll_cursor_comfortably_into_view(row, total, viewport_height, viewport_width);
    }

    /// The rendered lines of the cursor's paragraph, and the cursor's byte, where the
    /// paragraph is shown by its source in the place of its flow; `reflowed` says that
    /// it is one flow. Only the rendered view shows sources.
    pub fn reflow_reveal_target(&self, reflowed: bool) -> (r: Option<(Range<usize>, usize)>)
        requires
            self.wf(),
        ensures
            match r {
                Some(t) => self@.reflow_revealed(reflowed) && t.0.start < t.0.end && (
                    t.0.start as int,
                    t.0.end as int,
                ) == self@.cursor_lines() && t.1 == self@.cursor_byte(),
                None => !self@.reflow_revealed(reflowed) || self@.cursor_lines().0
                    >= self@.cursor_lines().1,
            },
    {
        if self.mode() != Mode::Rendered || !self.cursor_block_revealed() || !reflowed {
            return None;
        }
        let byte: usize = self.cursor_byte();
        let lines = self.parsed().source_map.rendered_lines_for_byte(byte);
        if lines.start < lines.end {
            Some((lines, byte))
        } else {
            None
        }
    }

    /// Says whether the review's text is to be rendered again, and takes the note of
    /// that away.
    pub fn flush_diff_parse_if_dirty(&mut self) -> (r: bool)
        requires
            old(self).wf(),
        ensures
            r == (old(self)@.diff_parse_dirty && old(self)@.mode == Mode::Diff),
            final(self)@ == (EditorView { diff_parse_dirty: false, ..old(self)@ }),
            final(self).wf(),
    {
        let f = self.facts();
        let due: bool = self.diff_parse_dirty() && f.mode == Mode::Diff;
        self.set_review(f.pre_diff_scroll, false);
        due
    }

    /// Keeps the view steady where the cursor's paragraph changes between its flow
    /// and its source: true iff the cursor's visibility is to be looked at again,
    /// which is so in the frame of the change. `has_reveal` says that the paragraph
    /// is shown by its source at `width`.
    pub fn anchor_reflow_reveal(&mut self, width: usize, has_reveal: bool) -> (r: bool)
        requires
            old(self).wf(),
        ensures
            ({
                let eligible = old(self)@.mode == Mode::Rendered && old(
                    self,
                )@.settings.reflow && width != 0;
                let shown = eligible && has_reveal;
                &&& r == (eligible && has_reveal != old(self)@.prev_reflow_has_reveal)
                &&& final(self)@ == EditorView { prev_reflow_has_reveal: shown, ..old(self)@ }
            }),
    {
        let f = self.facts();
        if f.mode != Mode::Rendered || !f.settings.reflow || width == 0 {
            self.set_prev_reveal(false);
            return false;
        }
        self.set_prev_reveal(has_reveal);
        has_reveal != f.prev_reflow_has_reveal
    }
}

} // verus!
