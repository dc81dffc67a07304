//! The actions that change the mode, the cursor, the selection and the view.

use crate::document::selection::{Selection, VisualSelection};
use crate::editor::edit_ops::action;
use crate::editor::edit_ops::action::{Near, Outcome, OutcomeView};
use crate::editor::mode::Mode;
use crate::editor::motion::Motion;
use crate::editor::state_cursor_visual;
use crate::editor::state::{EditorState, EditorView};
use vstd::prelude::*;

verus! {

/// What comes of an action: the state, what is asked, and whether the upkeep
/// follows.
pub struct Done {
    pub state: EditorView,
    pub asks: OutcomeView,
    pub upkeep: bool,
}

/// The mode that the key for the source leads to.
pub open spec fn toggled(mode: Mode) -> Mode {
    match mode {
        Mode::Preview => Mode::Rendered,
        Mode::Rendered => Mode::Raw,
        Mode::Raw => Mode::Rendered,
        Mode::Diff => Mode::Diff,
    }
}

impl EditorView {
    /// The state back in the preview.
    pub open spec fn left_edit(self) -> EditorView {
        self.in_mode(Mode::Preview).selecting(None).showing(None, None)
    }

    /// What the key for the source does: from the preview to the rendered view,
    /// between the rendered view and the source otherwise. The cursor leaves a
    /// comment that the rendered view does not show, and stays on its row of the
    /// screen. A document that cannot be edited, and a review, stay as they are.
    #[verifier::opaque]
    pub open spec fn raw_toggled(self, near: Near) -> Done {
        if self.readonly || self.mode == Mode::Diff {
            Done { state: self, asks: action::quiet(), upkeep: false }
        } else if self.mode == Mode::Preview {
            Done {
                state: self.synced_to_scroll(near.height as int).showing(None, None).in_mode(
                    Mode::Rendered,
                ),
                asks: action::quiet(),
                upkeep: true,
            }
        } else {
            let row = if near.layout.width == 0 {
                0
            } else {
                self.screen_row(near.above as int, near.flat)
            };
            let v = self.showing(None, None).in_mode(toggled(self.mode));
            Done {
                state: if self.mode == Mode::Raw {
                    v.out_of_hidden(
                        true,
                        self.settings.visual_line_nav,
                        near.layout,
                        state_cursor_visual::HIDDEN_STEPS as nat,
                    ).followed()
                } else {
                    v
                },
                asks: (OutcomeView { keep_row: Some(row as usize), ..action::quiet() }),
                upkeep: true,
            }
        }
    }

    /// The cursor one step to the left or right: in a table to the place that the
    /// table gives, in a list past its markers, else by one character. In the
    /// source every character is a place.
    pub open spec fn stepped(self, forward: bool, cell: Option<usize>) -> EditorView {
        let how = if forward {
            Motion::Right
        } else {
            Motion::Left
        };
        if self.mode == Mode::Raw {
            self.moved(how)
        } else {
            match cell {
                Some(t) => self.at(t as int).aimed(),
                None => match self.list_step(forward) {
                    Some(w) => w,
                    None => self.moved(how),
                },
            }
        }
    }

    /// A movement to the left or right.
    #[verifier::opaque]
    pub open spec fn moved_sideways(self, forward: bool, near: Near) -> EditorView {
        self.entered_edit(near.height as int).selecting(None).stepped(
            forward,
            near.cell,
        ).aimed_on_screen(near.layout).followed()
    }

    /// A movement within the text that ends at a column of its own.
    #[verifier::opaque]
    pub open spec fn moved_along(self, how: Motion, near: Near) -> EditorView {
        self.entered_edit(near.height as int).selecting(None).moved(how).aimed_on_screen(
            near.layout,
        ).followed()
    }

    /// A movement up or down, outside the preview.
    #[verifier::opaque]
    pub open spec fn moved_vertically(self, down: bool, near: Near) -> EditorView {
        let v = self.selecting(None);
        (if v.mode == Mode::Raw {
            v.line_step(down, v.settings.visual_line_nav, near.layout)
        } else {
            match near.cell {
                Some(t) => v.at(t as int).followed(),
                None => v.line_moved(down, v.settings.visual_line_nav, near.layout),
            }
        }).followed()
    }

    /// The end of the selection that stays when it grows.
    pub open spec fn anchor(self) -> usize {
        match self.selection {
            Some(s) => s.anchor,
            None => self.cursor.offset,
        }
    }

    /// A movement that takes the selection with it.
    #[verifier::opaque]
    pub open spec fn selected_by(self, how: Motion, near: Near) -> EditorView {
        let e = self.entered_edit(near.height as int);
        let w = e.moved(how).followed();
        w.selecting(Some(Selection { anchor: e.anchor(), active: w.cursor.offset }))
    }

    /// Everything selected: the rendered text in the preview, the source otherwise.
    #[verifier::opaque]
    pub open spec fn selected_all(self) -> Done {
        if self.mode == Mode::Preview {
            let lines = self.parsed.lines@;
            Done {
                state: if lines.len() > 0 {
                    self.showing(
                        Some(
                            VisualSelection {
                                anchor: (0, 0),
                                active: (
                                    (lines.len() - 1) as usize,
                                    lines.last()@.len() as usize,
                                ),
                            },
                        ),
                        None,
                    )
                } else {
                    self
                },
                asks: action::quiet(),
                upkeep: false,
            }
        } else {
            Done {
                state: self.selecting(
                    Some(Selection { anchor: 0, active: self.text.len() as usize }),
                ).moved(Motion::DocEnd),
                asks: action::quiet(),
                upkeep: true,
            }
        }
    }
}

/// Neither entering the edit nor a selection changes the text.
pub proof fn lemma_entered_text(v: EditorView, height: int)
    ensures
        v.entered_edit(height).text == v.text,
        v.synced_to_scroll(height).text == v.text,
        v.entered_edit(height).settings == v.settings,
        v.entered_edit(height).readonly == v.readonly,
        v.entered_edit(height).undo == v.undo,
        v.entered_edit(height).redo == v.redo,
        v.readonly ==> v.entered_edit(height) == v,
        !v.readonly ==> v.entered_edit(height).mode != Mode::Preview,
        v.entered_edit(height).selection == v.selection,
        forall|s: Option<Selection>| #[trigger]
            v.entered_edit(height).selecting(s).text == v.text,
{
    reveal(EditorView::at);
    reveal(EditorView::in_mode);
    reveal(EditorView::showing);
    reveal(EditorView::selecting);
}

/// No step of the cursor changes the text.
pub proof fn lemma_steps_keep_text(v: EditorView, how: Motion, sel: Option<Selection>)
    ensures
        v.moved(how).text == v.text,
        v.aimed().text == v.text,
        v.selecting(sel).text == v.text,
        v.selecting(sel).mode == v.mode,
        v.selecting(sel).settings == v.settings,
        v.selecting(sel).readonly == v.readonly,
        v.followed().text == v.text,
        forall|t: int| #[trigger] v.at(t).text == v.text,
{
    reveal(EditorView::at);
    reveal(EditorView::moved);
    reveal(EditorView::aimed);
    reveal(EditorView::selecting);
    reveal(EditorView::followed);
}

/// A step through a list changes no text.
pub proof fn lemma_stepped_text(v: EditorView, forward: bool, cell: Option<usize>)
    ensures
        v.stepped(forward, cell).text == v.text,
{
    reveal(EditorView::at);
    reveal(EditorView::moved);
    reveal(EditorView::aimed);
}

impl EditorState {
    /// Goes back to the preview.
    pub fn exit_to_preview(&mut self)
        requires
            old(self).wf(),
        ensures
            final(self)@ == old(self)@.left_edit(),
            final(self).wf(),
    {
        self.enter_mode(Mode::Preview);
        self.select(None);
        self.show(None, None);
    }

    /// Changes between the rendered view and the source, or leaves the preview; true
    /// iff the upkeep follows.
    pub fn toggle_raw(&mut self, near: &Near) -> (r: (Outcome, bool))
        requires
            old(self).wf(),
            near.fits(old(self)@.text),
        ensures
            final(self)@ == old(self)@.raw_toggled(*near).state,
            r.0@ == old(self)@.raw_toggled(*near).asks,
            r.1 == old(self)@.raw_toggled(*near).upkeep,
            final(self).wf(),
    {
        reveal(EditorView::raw_toggled);
        let f = self.facts();
        if f.readonly || f.mode == Mode::Diff {
            return (Outcome::quiet(), false);
        }
        if f.mode == Mode::Preview {
            self.sync_cursor_to_scroll(near.height);
            self.show(None, None);
            self.enter_mode(Mode::Rendered);
            return (Outcome::quiet(), true);
        }
        let row: usize = self.cursor_screen_row(near.layout.width, near.above, &near.flat);
        let to: Mode = if f.mode == Mode::Raw {
            Mode::Rendered
        } else {
            Mode::Raw
        };
        let ghost v = self@;
        self.show(None, None);
        self.enter_mode(to);
        if f.mode == Mode::Raw {
            assert(self@.text == v.text) by {
                reveal(EditorView::showing);
                reveal(EditorView::in_mode);
            }
            self.leave_hidden_blocks(true, f.settings.visual_line_nav, &near.layout);
            self.update_cursor_block();
        }
        let mut out = Outcome::quiet();
        out.keep_row = Some(row);
        (out, true)
    }

    /// Puts the cursor one step to the left or right.
    pub fn step_sideways(&mut self, forward: bool, cell: Option<usize>)
        requires
            old(self).wf(),
            cell matches Some(t) ==> t <= old(self)@.text.len(),
        ensures
            final(self)@ == old(self)@.stepped(forward, cell),
            final(self).wf(),
    {
        let how: Motion = if forward {
            Motion::Right
        } else {
            Motion::Left
        };
        if self.mode() == Mode::Raw {
            self.step(how);
            return ;
        }
        if self.try_table_move_horizontal(cell) {
            return ;
        }
        if self.list_move_horizontal(forward) {
            return ;
        }
        self.step(how);
    }

    /// Moves the cursor to the left or right.
    pub fn move_sideways(&mut self, forward: bool, near: &Near)
        requires
            old(self).wf(),
            near.fits(old(self)@.text),
        ensures
            final(self)@ == old(self)@.moved_sideways(forward, *near),
            final(self).wf(),
    {
        reveal(EditorView::moved_sideways);
        let ghost v = self@;
        self.enter_edit_if_preview(near.height);
        self.select(None);
        proof {
            lemma_entered_text(v, near.height as int);
        }
        let ghost e = self@;
        self.step_sideways(forward, near.cell);
        proof {
            lemma_stepped_text(e, forward, near.cell);
        }
        self.sync_preferred_visual(&near.layout);
        self.update_cursor_block();
    }

    /// Moves the cursor along the text.
    pub fn move_along(&mut self, how: Motion, near: &Near)
        requires
            old(self).wf(),
            near.fits(old(self)@.text),
        ensures
            final(self)@ == old(self)@.moved_along(how, *near),
            final(self).wf(),
    {
        reveal(EditorView::moved_along);
        let ghost v = self@;
        self.enter_edit_if_preview(near.height);
        self.select(None);
        proof {
            lemma_entered_text(v, near.height as int);
            lemma_steps_keep_text(self@, how, None);
        }
        self.step(how);
        self.sync_preferred_visual(&near.layout);
        self.update_cursor_block();
    }

    /// Moves the cursor up or down.
    pub fn move_vertically(&mut self, down: bool, near: &Near)
        requires
            old(self).wf(),
            near.fits(old(self)@.text),
        ensures
            final(self)@ == old(self)@.moved_vertically(down, *near),
            final(self).wf(),
    {
        reveal(EditorView::moved_vertically);
        let visual: bool = self.facts().settings.visual_line_nav;
        proof {
            lemma_steps_keep_text(self@, Motion::Up, None);
        }
        self.select(None);
        if self.mode() == Mode::Raw {
            self.step_cursor_line(down, visual, &near.layout);
        } else if !self.try_table_move_vertical(near.cell) {
            self.move_cursor_line(down, visual, &near.layout);
        }
        self.update_cursor_block();
    }

    /// Moves the cursor and the selection's end with it.
    pub fn select_by(&mut self, how: Motion, near: &Near)
        requires
            old(self).wf(),
        ensures
            final(self)@ == old(self)@.selected_by(how, *near),
            final(self).wf(),
    {
        reveal(EditorView::selected_by);
        self.enter_edit_if_preview(near.height);
        let anchor: usize = match self.selection() {
            Some(s) => s.anchor,
            None => self.cursor().offset,
        };
        self.step(how);
        self.update_cursor_block();
        let active: usize = self.cursor().offset;
        self.select(Some(Selection { anchor, active }));
    }

    /// Selects everything; true iff the upkeep follows.
    pub fn select_all(&mut self) -> (r: bool)
        requires
            old(self).wf(),
        ensures
            final(self)@ == old(self)@.selected_all().state,
            r == old(self)@.selected_all().upkeep,
            old(self)@.selected_all().asks == action::quiet(),
            final(self).wf(),
    {
        reveal(EditorView::selected_all);
        if self.mode() == Mode::Preview {
            let n: usize = self.parsed().lines.len();
            if n > 0 {
                let last_col: usize = self.parsed().lines[n - 1].text().as_str().unicode_len();
                self.show(
                    Some(VisualSelection { anchor: (0, 0), active: (n - 1, last_col) }),
                    None,
                );
            }
            return false;
        }
        let len: usize = self.buffer().len_chars();
        self.select(Some(Selection { anchor: 0, active: len }));
        self.step(Motion::DocEnd);
        true
    }
}

} // verus!
