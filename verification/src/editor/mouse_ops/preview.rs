//! The mouse in the preview.
//!
//! The preview is not left by the mouse: its text can be selected and copied as it
//! is shown, without the marks of its source.

use crate::document::parsed_doc::RenderedLine;
use crate::document::paths;
use crate::document::selection::{CellBand, VisualSelection};
use crate::editor::link::LinkTarget;
use crate::editor::mouse_ops::events;
use crate::editor::mouse_ops::events::{DragTarget, Moused, MouseAction, Pointer};
use crate::editor::mouse_ops::pick;
use crate::editor::mouse_ops::selection;
use crate::editor::state::{EditorState, EditorView};
use crate::text;
use std::path::Path;
use vstd::prelude::*;
use vstd::string::*;

verus! {

/// A drag that selects text in the preview, where only that there is one counts.
pub open spec fn preview_drag() -> Option<DragTarget> {
    Some(DragTarget::TextSelection { anchor: 0, cell: None })
}

/// The columns `from..to` of one rendered line.
pub open spec fn line_span(line: usize, from: int, to: int) -> VisualSelection {
    VisualSelection { anchor: (line, from as usize), active: (line, to as usize) }
}

/// The word at a column of a rendered line, or the one character there.
pub open spec fn word_shown(chars: Seq<char>, col: int) -> Option<(int, int)> {
    let at = if col <= chars.len() {
        col
    } else {
        chars.len() as int
    };
    if chars.len() == 0 {
        None
    } else {
        match selection::word_around(chars, at) {
            Some(w) => Some(w),
            None => if at < chars.len() {
                Some((at, at + 1))
            } else {
                None
            },
        }
    }
}

/// A whole cell of a table: from where it begins on its first line to where its text
/// ends on its last.
pub open spec fn cell_span(lines: Seq<RenderedLine>, band: CellBand) -> VisualSelection {
    let from = if band.lines.0 < lines.len() {
        band.columns(lines[band.lines.0 as int]@).0
    } else {
        0
    };
    let to = if band.lines.1 < lines.len() {
        let chars = lines[band.lines.1 as int]@;
        let (lo, hi) = band.columns(chars);
        if lo <= hi {
            lo + text::trimmed_end(chars.subrange(lo, hi)).len()
        } else {
            lo
        }
    } else {
        from
    };
    VisualSelection {
        anchor: (band.lines.0, from as usize),
        active: (band.lines.1, to as usize),
    }
}

impl EditorView {
    /// A place in the preview, moved into a cell of a table.
    pub open spec fn into_band(self, at: (usize, usize), band: CellBand) -> (usize, usize) {
        let line = events::clamped(at.0 as int, band.lines.0 as int, band.lines.1 as int);
        if line < self.parsed.lines@.len() {
            let (lo, hi) = band.columns(self.parsed.lines@[line]@);
            (line as usize, events::clamped(at.1 as int, lo, hi) as usize)
        } else {
            (line as usize, at.1)
        }
    }

    /// A click in the preview begins a selection, bound to the cell of a table that
    /// it is in.
    #[verifier::opaque]
    pub open spec fn preview_clicked(self, p: Pointer, drag: Option<DragTarget>) -> Moused {
        match p.shown {
            Some((line, col)) => {
                let c = match p.band {
                    Some(b) => if line < self.parsed.lines@.len() {
                        let (lo, hi) = b.columns(self.parsed.lines@[line as int]@);
                        events::clamped(col as int, lo, hi)
                    } else {
                        col as int
                    },
                    None => col as int,
                };
                Moused {
                    state: self.showing(Some(line_span(line, c, c)), p.band).dragging(true),
                    drag: preview_drag(),
                    keep_visible: false,
                }
            },
            None => Moused { state: self.showing(None, None), drag, keep_visible: false },
        }
    }

    /// A double click in the preview selects a word.
    #[verifier::opaque]
    pub open spec fn preview_word(self, p: Pointer) -> EditorView {
        match p.shown {
            Some((line, col)) => if line < self.parsed.lines@.len() {
                match word_shown(self.parsed.lines@[line as int]@, col as int) {
                    Some((from, to)) => self.showing(Some(line_span(line, from, to)), None),
                    None => self,
                }
            } else {
                self
            },
            None => self,
        }
    }

    /// A triple click in the preview selects a line, or a whole cell of a table.
    #[verifier::opaque]
    pub open spec fn preview_line(self, p: Pointer) -> EditorView {
        match p.shown {
            Some((line, _)) => match p.band {
                Some(b) => self.showing(Some(cell_span(self.parsed.lines@, b)), Some(b)),
                None => self.showing(
                    Some(
                        line_span(
                            line,
                            0,
                            if line < self.parsed.lines@.len() {
                                self.parsed.lines@[line as int]@.len() as int
                            } else {
                                0
                            },
                        ),
                    ),
                    None,
                ),
            },
            None => self,
        }
    }

    /// A drag in the preview moves the end of the selection.
    #[verifier::opaque]
    pub open spec fn preview_dragged(self, p: Pointer, drag: Option<DragTarget>) -> EditorView {
        if drag is None {
            self
        } else {
            match (p.shown, self.visual) {
                (Some(at), Some(sel)) => self.showing(
                    Some(
                        VisualSelection {
                            active: match self.band {
                                Some(b) => self.into_band(at, b),
                                None => at,
                            },
                            ..sel
                        },
                    ),
                    self.band,
                ),
                (Some(at), None) => self.showing(
                    Some(VisualSelection { anchor: at, active: at }),
                    None,
                ),
                (None, _) => self,
            }
        }
    }

    /// A release in the preview ends the selection; an empty one is none.
    #[verifier::opaque]
    pub open spec fn preview_released(self) -> EditorView {
        (if self.visual matches Some(sel) && sel.anchor == sel.active {
            self.showing(None, None)
        } else {
            self
        }).dragging(false)
    }

    /// What the mouse does in the preview. `link` is what a click follows, if it
    /// follows anything.
    pub open spec fn preview_moused(
        self,
        a: MouseAction,
        p: Pointer,
        drag: Option<DragTarget>,
        link: Option<LinkTarget>,
    ) -> Moused {
        match a {
            MouseAction::Click { .. } => if link is Some {
                Moused {
                    state: self.following(link).dragging(false),
                    drag: None,
                    keep_visible: false,
                }
            } else {
                self.preview_clicked(p, drag)
            },
            MouseAction::DoubleClick => Moused {
                state: self.preview_word(p).dragging(false),
                drag: None,
                keep_visible: false,
            },
            MouseAction::TripleClick => Moused {
                state: self.preview_line(p).dragging(false),
                drag: None,
                keep_visible: false,
            },
            MouseAction::Drag => Moused {
                state: self.preview_dragged(p, drag),
                drag,
                keep_visible: false,
            },
            MouseAction::Release => Moused {
                state: self.preview_released(),
                drag: None,
                keep_visible: false,
            },
            MouseAction::Scroll(delta) => Moused {
                state: self.wheeled(delta as int, p.total_rows as int),
                drag,
                keep_visible: false,
            },
        }
    }
}

impl EditorState {
    /// The characters of a rendered line.
    fn shown_chars(&self, line: usize) -> (r: Vec<char>)
        requires
            line < self@.parsed.lines@.len(),
        ensures
            r@ == self@.parsed.lines@[line as int]@,
    {
        text::chars_of(self.parsed().lines[line].text().as_str())
    }

    /// Begins a selection in the preview.
    fn click_preview(&mut self, p: &Pointer, drag: &mut Option<DragTarget>)
        requires
            old(self).wf(),
        ensures
            final(self)@ == old(self)@.preview_clicked(*p, *old(drag)).state,
            *final(drag) == old(self)@.preview_clicked(*p, *old(drag)).drag,
            final(self).wf(),
    {
        reveal(EditorView::preview_clicked);
        match p.shown {
            Some((line, col)) => {
                let c: usize = match &p.band {
                    Some(b) => if line < self.parsed().lines.len() {
                        let chars: Vec<char> = self.shown_chars(line);
                        let (lo, hi) = b.char_cols(chars.as_slice());
                        events::clamp(col, lo, hi)
                    } else {
                        col
                    },
                    None => col,
                };
                self.show(
                    Some(VisualSelection { anchor: (line, c), active: (line, c) }),
                    p.band,
                );
                self.drag(true);
                *drag = Some(DragTarget::TextSelection { anchor: 0, cell: None });
            },
            None => {
                self.show(None, None);
            },
        }
    }

    /// The word at a column of a rendered line, or the one character there.
    pub fn preview_word_range(&self, line: usize, col: usize) -> (r: Option<(usize, usize)>)
        ensures
            match r {
                Some(w) => line < self@.parsed.lines@.len() && word_shown(
                    self@.parsed.lines@[line as int]@,
                    col as int,
                ) == Some((w.0 as int, w.1 as int)),
                None => line >= self@.parsed.lines@.len() || word_shown(
                    self@.parsed.lines@[line as int]@,
                    col as int,
                ) is None,
            },
    {
        if line >= self.parsed().lines.len() {
            return None;
        }
        let chars: Vec<char> = self.shown_chars(line);
        let n: usize = chars.len();
        if n == 0 {
            return None;
        }
        let at: usize = if col <= n {
            col
        } else {
            n
        };
        match selection::word_range_around(chars.as_slice(), at) {
            Some(w) => Some(w),
            None => if at < n {
                Some((at, at + 1))
            } else {
                None
            },
        }
    }

    fn double_click_preview(&mut self, p: &Pointer)
        requires
            old(self).wf(),
        ensures
            final(self)@ == old(self)@.preview_word(*p),
            final(self).wf(),
    {
        reveal(EditorView::preview_word);
        match p.shown {
            Some((line, col)) => match self.preview_word_range(line, col) {
                Some((from, to)) => {
                    self.show(
                        Some(VisualSelection { anchor: (line, from), active: (line, to) }),
                        None,
                    );
                },
                None => {},
            },
            None => {},
        }
    }

    /// A whole cell of a table.
    fn find_cell_span(&self, b: &CellBand) -> (r: VisualSelection)
        ensures
            r == cell_span(self@.parsed.lines@, *b),
    {
        let n: usize = self.parsed().lines.len();
        let from: usize = if b.lines.0 < n {
            let chars: Vec<char> = self.shown_chars(b.lines.0);
            b.char_cols(chars.as_slice()).0
        } else {
            0
        };
        let to: usize = if b.lines.1 < n {
            let chars: Vec<char> = self.shown_chars(b.lines.1);
            let (lo, hi) = b.char_cols(chars.as_slice());
            let ghost cell = chars@.subrange(lo as int, hi as int);
            let mut end: usize = hi;
            while end > lo && text::is_whitespace(chars[end - 1])
                invariant
                    lo <= hi ==> lo <= end <= hi,
                    hi < lo ==> end == hi,
                    hi <= chars@.len(),
                    lo <= hi ==> cell == chars@.subrange(lo as int, hi as int),
                    lo <= hi ==> text::skip_whitespace_back(cell, 0, hi - lo)
                        == text::skip_whitespace_back(cell, 0, end - lo),
                decreases end,
            {
                assert(cell[end - lo - 1] == chars@[end - 1]);
                end -= 1;
            }
            proof {
                if lo <= hi {
                    if end > lo {
                        assert(cell[end - lo - 1] == chars@[end - 1]);
                    }
                    text::lemma_skip_whitespace_back(cell, 0, hi - lo);
                }
            }
            if lo <= hi {
                end
            } else {
                lo
            }
        } else {
            from
        };
        VisualSelection { anchor: (b.lines.0, from), active: (b.lines.1, to) }
    }

    fn triple_click_preview(&mut self, p: &Pointer)
        requires
            old(self).wf(),
        ensures
            final(self)@ == old(self)@.preview_line(*p),
            final(self).wf(),
    {
        reveal(EditorView::preview_line);
        match p.shown {
            Some((line, _)) => match &p.band {
                Some(b) => {
                    let sel: VisualSelection = self.find_cell_span(b);
                    self.show(Some(sel), Some(*b));
                },
                None => {
                    let end: usize = if line < self.parsed().lines.len() {
                        self.shown_chars(line).len()
                    } else {
                        0
                    };
                    self.show(
                        Some(VisualSelection { anchor: (line, 0), active: (line, end) }),
                        None,
                    );
                },
            },
            None => {},
        }
    }

    fn drag_preview(&mut self, p: &Pointer, drag: &Option<DragTarget>)
        requires
            old(self).wf(),
        ensures
            final(self)@ == old(self)@.preview_dragged(*p, *drag),
            final(self).wf(),
    {
        reveal(EditorView::preview_dragged);
        if drag.is_none() {
            return ;
        }
        let at: (usize, usize) = match p.shown {
            Some(at) => at,
            None => {
                return ;
            },
        };
        let f = self.facts();
        match f.visual {
            None => {
                self.show(Some(VisualSelection { anchor: at, active: at }), None);
            },
            Some(sel) => {
                let active: (usize, usize) = match &f.band {
                    None => at,
                    Some(b) => {
                        let line: usize = events::clamp(at.0, b.lines.0, b.lines.1);
                        if line < self.parsed().lines.len() {
                            let chars: Vec<char> = self.shown_chars(line);
                            let (lo, hi) = b.char_cols(chars.as_slice());
                            (line, events::clamp(at.1, lo, hi))
                        } else {
                            (line, at.1)
                        }
                    },
                };
                self.show(Some(VisualSelection { anchor: sel.anchor, active }), f.band);
            },
        }
    }

    /// What the mouse does in the preview.
    pub fn apply_preview_action(
        &mut self,
        action: MouseAction,
        p: Pointer,
        drag: &mut Option<DragTarget>,
        base_dir: Option<&Path>,
    )
        requires
            old(self).wf(),
            p.fits(old(self)@.text),
        ensures
            exists|link: Option<LinkTarget>|
                (link is Some) == (action is Click && old(self)@.follows(
                    p.offset,
                    p.link,
                    p.back,
                )) && (link matches Some(t) ==> old(self)@.leads_to(
                    p.offset,
                    p.link,
                    p.back,
                    paths::dir_bytes(base_dir),
                    t,
                )) && final(self)@ == (#[trigger] old(self)@.preview_moused(
                    action,
                    p,
                    *old(drag),
                    link,
                )).state && *final(drag) == old(self)@.preview_moused(
                    action,
                    p,
                    *old(drag),
                    link,
                ).drag && !old(self)@.preview_moused(action, p, *old(drag), link).keep_visible,
            final(self).wf(),
    {
        reveal(EditorView::preview_released);
        reveal(EditorView::preview_clicked);
        let ghost v = self@;
        let ghost d0 = *drag;
        let ghost none: Option<LinkTarget> = None;
        match action {
            MouseAction::Click { .. } => {
                let near = Pointer { link: None, back: None, ..p };
                let followed: bool = self.follow_link_at_click(p.offset, p.link, p.back, base_dir);
                if followed {
                    let ghost t = choose|t: LinkTarget| #[trigger]
                        v.leads_to(p.offset, p.link, p.back, paths::dir_bytes(base_dir), t) && self@
                            == v.following(Some(t));
                    *drag = None;
                    self.drag(false);
                    assert(self@ == v.preview_moused(action, p, d0, Some(t)).state);
                    return ;
                }
                self.click_preview(&near, drag);
                assert(v.preview_clicked(near, d0) == v.preview_clicked(p, d0));
            },
            MouseAction::DoubleClick => {
                self.double_click_preview(&p);
                *drag = None;
                self.drag(false);
            },
            MouseAction::TripleClick => {
                self.triple_click_preview(&p);
                *drag = None;
                self.drag(false);
            },
            MouseAction::Drag => {
                self.drag_preview(&p, drag);
            },
            MouseAction::Release => {
                match self.facts().visual {
                    Some(sel) => {
                        if sel.is_empty() {
                            self.show(None, None);
                        }
                    },
                    None => {},
                }
                self.drag(false);
                *drag = None;
            },
            MouseAction::Scroll(delta) => {
                pick::scroll_by_mouse(self, delta, p.total_rows);
            },
        }
        assert(self@ == v.preview_moused(action, p, d0, none).state);
    }
}

} // verus!
