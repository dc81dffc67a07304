//! The dispatch of the actions, and edits that come in runs.

use crate::document::buffer;
use crate::document::graphemes;
use crate::editor::edit_ops::action;
use crate::editor::edit_ops::action::{Action, Near, Outcome, OutcomeView, Scrolling, TableCommand};
use crate::editor::edit_ops::edits;
use crate::editor::edit_ops::moves;
use crate::editor::mode::Mode;
use crate::editor::motion::Motion;
use crate::editor::state::{EditorState, EditorView};
use vstd::prelude::*;
use vstd::string::*;

verus! {

/// An action that asks for nothing, with the upkeep after it.
pub open spec fn plain(v: EditorView) -> moves::Done {
    moves::Done { state: v, asks: action::quiet(), upkeep: true }
}

/// An action after which the cursor is kept on the screen.
pub open spec fn watched(v: EditorView) -> moves::Done {
    moves::Done { state: v, asks: action::watchful(), upkeep: true }
}

/// An action that only scrolls.
pub open spec fn scrolls(v: EditorView, s: Scrolling, cursor_to_top: bool) -> moves::Done {
    moves::Done { state: v, asks: action::scrolling(s, cursor_to_top), upkeep: true }
}

/// An action that is the table's.
pub open spec fn tabled(v: EditorView, command: TableCommand) -> moves::Done {
    moves::Done {
        state: v,
        asks: (OutcomeView { table: Some(command), ..action::quiet() }),
        upkeep: false,
    }
}

/// An action that is the table's where the cursor is in one.
pub open spec fn tabled_inside(v: EditorView, near: Near, command: TableCommand) -> moves::Done {
    let e = v.entered_edit(near.height as int);
    if near.in_table {
        tabled(e, command)
    } else {
        plain(e)
    }
}

/// The action changes the mode, the cursor, the selection or the view.
pub open spec fn is_move(a: Action) -> bool {
    match a {
        Action::Quit | Action::EnterEditMode | Action::ExitToPreview | Action::ToggleRawMode
        | Action::MoveLeft | Action::MoveRight | Action::MoveUp | Action::MoveDown
        | Action::MoveWordLeft | Action::MoveWordRight | Action::MoveLineStart
        | Action::MoveLineEnd | Action::MoveDocStart | Action::MoveDocEnd | Action::SelectLeft
        | Action::SelectRight | Action::SelectUp | Action::SelectDown | Action::SelectAll
        | Action::ScrollUp | Action::ScrollDown | Action::ScrollPageUp | Action::ScrollPageDown
        | Action::ScrollToTop | Action::ScrollToBottom => true,
        _ => false,
    }
}

/// The action is one of a table, or the key of one.
pub open spec fn is_table(a: Action) -> bool {
    match a {
        Action::TableNextCell | Action::TablePrevCell | Action::TableNextRow
        | Action::TablePrevRow | Action::TableMoveRowUp | Action::TableMoveRowDown
        | Action::TableMoveColumnLeft | Action::TableMoveColumnRight
        | Action::TableInsertRowAbove | Action::TableInsertRowBelow
        | Action::TableInsertColumnLeft | Action::TableInsertColumnRight
        | Action::TableDeleteRow | Action::TableDeleteColumn | Action::TableInsertBreak => true,
        _ => false,
    }
}

impl EditorView {
    /// What an action does that changes the mode, the cursor, the selection or the
    /// view.
    #[verifier::opaque]
    pub open spec fn move_made(self, a: Action, near: Near) -> moves::Done {
        match a {
            Action::Quit => moves::Done {
                state: self,
                asks: (OutcomeView { quit: true, ..action::quiet() }),
                upkeep: false,
            },
            Action::EnterEditMode => plain(self.entered_edit(near.height as int)),
            Action::ExitToPreview => plain(self.left_edit()),
            Action::ToggleRawMode => self.raw_toggled(near),
            Action::MoveLeft => watched(self.moved_sideways(false, near)),
            Action::MoveRight => watched(self.moved_sideways(true, near)),
            Action::MoveUp => if self.mode == Mode::Preview {
                moves::Done { upkeep: false, ..scrolls(self, Scrolling::Up(1), false) }
            } else {
                watched(self.moved_vertically(false, near))
            },
            Action::MoveDown => if self.mode == Mode::Preview {
                moves::Done { upkeep: false, ..scrolls(self, Scrolling::Down(1), false) }
            } else {
                watched(self.moved_vertically(true, near))
            },
            Action::MoveWordLeft => watched(self.moved_along(Motion::WordLeft, near)),
            Action::MoveWordRight => watched(self.moved_along(Motion::WordRight, near)),
            Action::MoveLineStart => watched(self.moved_along(Motion::LineStart, near)),
            Action::MoveLineEnd => watched(self.moved_along(Motion::LineEnd, near)),
            Action::MoveDocStart => scrolls(
                self.selecting(None).moved(Motion::DocStart).followed(),
                Scrolling::ToTop,
                false,
            ),
            Action::MoveDocEnd => moves::Done {
                state: self.selecting(None).moved(Motion::DocEnd).followed(),
                asks: (OutcomeView { scrolling: Scrolling::ToBottom, ..action::watchful() }),
                upkeep: true,
            },
            Action::SelectLeft => watched(self.selected_by(Motion::Left, near)),
            Action::SelectRight => watched(self.selected_by(Motion::Right, near)),
            Action::SelectUp => watched(self.selected_by(Motion::Up, near)),
            Action::SelectDown => watched(self.selected_by(Motion::Down, near)),
            Action::SelectAll => self.selected_all(),
            Action::ScrollUp => scrolls(self, Scrolling::Up(1), false),
            Action::ScrollDown => scrolls(self, Scrolling::Down(1), true),
            Action::ScrollPageUp => scrolls(self, Scrolling::Up(near.height), false),
            Action::ScrollPageDown => scrolls(self, Scrolling::Down(near.height), true),
            Action::ScrollToTop => scrolls(self, Scrolling::ToTop, false),
            Action::ScrollToBottom => scrolls(self, Scrolling::ToBottom, false),
            _ => plain(self),
        }
    }

    /// What an action of a table does.
    #[verifier::opaque]
    pub open spec fn table_asked(self, a: Action, near: Near) -> moves::Done {
        match a {
            Action::TableNextCell => tabled_inside(self, near, TableCommand::NextCell),
            Action::TablePrevCell => {
                let e = self.entered_edit(near.height as int);
                if near.in_table {
                    tabled(e, TableCommand::PrevCell)
                } else {
                    plain(
                        match e.list_outdent_edit() {
                            Some(x) => e.list_edited(x),
                            None => e,
                        },
                    )
                }
            },
            Action::TableNextRow => tabled_inside(self, near, TableCommand::NextRow),
            Action::TablePrevRow => tabled_inside(self, near, TableCommand::PrevRow),
            Action::TableMoveRowUp => tabled(self, TableCommand::MoveRowUp),
            Action::TableMoveRowDown => tabled(self, TableCommand::MoveRowDown),
            Action::TableMoveColumnLeft => tabled(self, TableCommand::MoveColumnLeft),
            Action::TableMoveColumnRight => tabled(self, TableCommand::MoveColumnRight),
            Action::TableInsertRowAbove => tabled(self, TableCommand::InsertRowAbove),
            Action::TableInsertRowBelow => tabled(self, TableCommand::InsertRowBelow),
            Action::TableInsertColumnLeft => tabled(self, TableCommand::InsertColumnLeft),
            Action::TableInsertColumnRight => tabled(self, TableCommand::InsertColumnRight),
            Action::TableDeleteRow => tabled(self, TableCommand::DeleteRow),
            Action::TableDeleteColumn => tabled(self, TableCommand::DeleteColumn),
            Action::TableInsertBreak => plain(self.broken(near)),
            _ => plain(self),
        }
    }

    /// What an action does that edits the text or uses the clipboard.
    #[verifier::opaque]
    pub open spec fn edit_made(self, a: Action, near: Near) -> moves::Done {
        match a {
            Action::InsertChar(c) => self.char_typed(c, near),
            Action::InsertTab => self.tab_typed(near),
            Action::Newline => self.newline_typed(near),
            Action::DeleteCharBack => plain(self.erased_back(near)),
            Action::DeleteCharForward => plain(self.erased_forward(near)),
            Action::DeleteWordBack => plain(self.word_erased_back(near)),
            Action::DeleteWordForward => plain(self.word_erased_forward(near)),
            Action::DeleteLine => plain(self.line_erased(near)),
            Action::Undo => if self.undo.len() > 0 {
                watched(self.undone())
            } else {
                plain(self)
            },
            Action::Redo => if self.redo.len() > 0 {
                watched(self.redone())
            } else {
                plain(self)
            },
            Action::Copy => self.copying(self.copied_text()),
            Action::Cut => self.cut(),
            Action::Paste => plain(self.pasted(near)),
            Action::BoldSelection => plain(self.wrap_toggled(seq!['*', '*'])),
            Action::ItalicizeSelection => plain(self.wrap_toggled(seq!['*'])),
            Action::InlineCodeSelection => plain(self.wrap_toggled(seq!['`'])),
            Action::StrikethroughSelection => plain(self.wrap_toggled(seq!['~', '~'])),
            Action::HighlightSelection => plain(self.wrap_toggled(seq!['=', '='])),
            Action::ToggleCheckbox => {
                let e = self.entered_edit(near.height as int);
                plain(
                    match e.list_toggle_edit() {
                        Some(x) => e.list_edited(x),
                        None => e,
                    },
                )
            },
            _ => plain(self),
        }
    }

    /// What an action does, before the upkeep.
    pub open spec fn action_made(self, a: Action, near: Near) -> moves::Done {
        if is_move(a) {
            self.move_made(a, near)
        } else if is_table(a) {
            self.table_asked(a, near)
        } else {
            self.edit_made(a, near)
        }
    }

    /// The state after an action.
    pub open spec fn acted(self, a: Action, near: Near) -> EditorView {
        let d = self.action_made(a, near);
        if d.upkeep {
            d.state.settled(
                self.text.len() as int,
                self.undo.len() as int,
                a is Undo || a is Redo,
            )
        } else {
            d.state
        }
    }

    /// What an action asks of the layers around the editor.
    pub open spec fn asked(self, a: Action, near: Near) -> OutcomeView {
        let d = self.action_made(a, near);
        if d.upkeep && d.state.was_edited(self.text.len() as int, self.undo.len() as int)
            && d.state.mode != Mode::Preview {
            OutcomeView { keep_visible: true, ..d.asks }
        } else {
            d.asks
        }
    }

    /// The offset `n` characters, as the user sees them, before or behind `i`.
    pub open spec fn graphemes_from(self, i: int, n: nat, backward: bool) -> int
        decreases n,
    {
        if n == 0 || (backward && i <= 0) || (!backward && i >= self.text.len()) {
            i
        } else {
            self.graphemes_from(
                if backward {
                    graphemes::prev_boundary(self.text, i)
                } else {
                    graphemes::next_boundary(self.text, i)
                },
                (n - 1) as nat,
                backward,
            )
        }
    }

    /// The upkeep after a run of edits.
    pub open spec fn run_settled(self) -> EditorView {
        let v = self.kept_up(true);
        if self.mode != Mode::Raw {
            v.flushed()
        } else {
            v
        }
    }

    /// A run of characters typed as one edit.
    pub open spec fn run_typed(self, chars: Seq<char>, in_table: bool) -> EditorView {
        if chars.len() == 0 {
            self
        } else {
            self.typed(run_text(chars, in_table)).run_settled()
        }
    }

    /// A run of deletions as one edit.
    pub open spec fn run_erased(self, count: nat, backward: bool) -> EditorView {
        let c = self.cursor.offset as int;
        let far = self.graphemes_from(c, count, backward);
        let (start, end) = if backward {
            (far, c)
        } else {
            (c, far)
        };
        if start < end {
            self.without(start, end).run_settled()
        } else {
            self
        }
    }

    /// A text pasted by the terminal.
    pub open spec fn text_pasted(self, t: Seq<char>, height: int) -> EditorView {
        let v = self.entered_edit(height).typed(buffer::normalized(t));
        if t.len() == 0 {
            self
        } else {
            v.kept_up(v.was_edited(self.text.len() as int, self.undo.len() as int))
        }
    }
}

/// The text for a run of typed characters.
pub open spec fn run_text(chars: Seq<char>, in_table: bool) -> Seq<char>
    decreases chars.len(),
{
    if chars.len() == 0 {
        Seq::empty()
    } else {
        run_text(chars.drop_last(), in_table) + edits::typed_char(chars.last(), in_table)
    }
}

impl EditorState {
    /// An action that changes the mode, the cursor, the selection or the view; true
    /// iff the upkeep follows.
    fn make_move(&mut self, a: Action, near: &Near) -> (r: (Outcome, bool))
        requires
            old(self).wf(),
            near.fits(old(self)@.text),
            is_move(a),
        ensures
            final(self)@ == old(self)@.move_made(a, *near).state,
            r.0@ == old(self)@.move_made(a, *near).asks,
            r.1 == old(self)@.move_made(a, *near).upkeep,
            final(self).wf(),
    {
        reveal(EditorView::move_made);
        let preview: bool = self.mode() == Mode::Preview;
        match a {
            Action::Quit => {
                let mut out = Outcome::quiet();
                out.quit = true;
                return (out, false);
            },
            Action::EnterEditMode => {
                self.enter_edit_if_preview(near.height);
                return (Outcome::quiet(), true);
            },
            Action::ExitToPreview => {
                self.exit_to_preview();
                return (Outcome::quiet(), true);
            },
            Action::ToggleRawMode => {
                return self.toggle_raw(near);
            },
            Action::MoveLeft => self.move_sideways(false, near),
            Action::MoveRight => self.move_sideways(true, near),
            Action::MoveUp => {
                if preview {
                    return (Outcome::scrolling(Scrolling::Up(1), false), false);
                }
                self.move_vertically(false, near)
            },
            Action::MoveDown => {
                if preview {
                    return (Outcome::scrolling(Scrolling::Down(1), false), false);
                }
                self.move_vertically(true, near)
            },
            Action::MoveWordLeft => self.move_along(Motion::WordLeft, near),
            Action::MoveWordRight => self.move_along(Motion::WordRight, near),
            Action::MoveLineStart => self.move_along(Motion::LineStart, near),
            Action::MoveLineEnd => self.move_along(Motion::LineEnd, near),
            Action::MoveDocStart => {
                self.select(None);
                self.step(Motion::DocStart);
                self.update_cursor_block();
                return (Outcome::scrolling(Scrolling::ToTop, false), true);
            },
            Action::MoveDocEnd => {
                self.select(None);
                self.step(Motion::DocEnd);
                self.update_cursor_block();
                let mut out = Outcome::watchful();
                out.scrolling = Scrolling::ToBottom;
                return (out, true);
            },
            Action::SelectLeft => self.select_by(Motion::Left, near),
            Action::SelectRight => self.select_by(Motion::Right, near),
            Action::SelectUp => self.select_by(Motion::Up, near),
            Action::SelectDown => self.select_by(Motion::Down, near),
            Action::SelectAll => {
                let upkeep: bool = self.select_all();
                return (Outcome::quiet(), upkeep);
            },
            Action::ScrollUp => {
                return (Outcome::scrolling(Scrolling::Up(1), false), true);
            },
            Action::ScrollDown => {
                return (Outcome::scrolling(Scrolling::Down(1), true), true);
            },
            Action::ScrollPageUp => {
                return (Outcome::scrolling(Scrolling::Up(near.height), false), true);
            },
            Action::ScrollPageDown => {
                return (Outcome::scrolling(Scrolling::Down(near.height), true), true);
            },
            Action::ScrollToTop => {
                return (Outcome::scrolling(Scrolling::ToTop, false), true);
            },
            _ => {
                return (Outcome::scrolling(Scrolling::ToBottom, false), true);
            },
        }
        (Outcome::watchful(), true)
    }

    /// An action of a table where the cursor is in one; true iff the upkeep follows.
    fn ask_table_inside(&mut self, near: &Near, command: TableCommand) -> (r: (Outcome, bool))
        requires
            old(self).wf(),
        ensures
            final(self)@ == tabled_inside(old(self)@, *near, command).state,
            r.0@ == tabled_inside(old(self)@, *near, command).asks,
            r.1 == tabled_inside(old(self)@, *near, command).upkeep,
            final(self).wf(),
    {
        self.enter_edit_if_preview(near.height);
        if near.in_table {
            (Outcome::table(command), false)
        } else {
            (Outcome::quiet(), true)
        }
    }

    /// An action of a table; true iff the upkeep follows.
    fn ask_table(&mut self, a: Action, near: &Near) -> (r: (Outcome, bool))
        requires
            old(self).wf(),
            is_table(a),
        ensures
            final(self)@ == old(self)@.table_asked(a, *near).state,
            r.0@ == old(self)@.table_asked(a, *near).asks,
            r.1 == old(self)@.table_asked(a, *near).upkeep,
            final(self).wf(),
    {
        reveal(EditorView::table_asked);
        match a {
            Action::TableNextCell => self.ask_table_inside(near, TableCommand::NextCell),
            Action::TablePrevCell => {
                self.enter_edit_if_preview(near.height);
                if near.in_table {
                    (Outcome::table(TableCommand::PrevCell), false)
                } else {
                    self.list_outdent();
                    (Outcome::quiet(), true)
                }
            },
            Action::TableNextRow => self.ask_table_inside(near, TableCommand::NextRow),
            Action::TablePrevRow => self.ask_table_inside(near, TableCommand::PrevRow),
            Action::TableMoveRowUp => (Outcome::table(TableCommand::MoveRowUp), false),
            Action::TableMoveRowDown => (Outcome::table(TableCommand::MoveRowDown), false),
            Action::TableMoveColumnLeft => (Outcome::table(TableCommand::MoveColumnLeft), false),
            Action::TableMoveColumnRight => (Outcome::table(TableCommand::MoveColumnRight), false),
            Action::TableInsertRowAbove => (Outcome::table(TableCommand::InsertRowAbove), false),
            Action::TableInsertRowBelow => (Outcome::table(TableCommand::InsertRowBelow), false),
            Action::TableInsertColumnLeft => (
                Outcome::table(TableCommand::InsertColumnLeft),
                false,
            ),
            Action::TableInsertColumnRight => (
                Outcome::table(TableCommand::InsertColumnRight),
                false,
            ),
            Action::TableDeleteRow => (Outcome::table(TableCommand::DeleteRow), false),
            Action::TableDeleteColumn => (Outcome::table(TableCommand::DeleteColumn), false),
            _ => {
                self.insert_break(near);
                (Outcome::quiet(), true)
            },
        }
    }

    /// Puts the marker of one or two characters `c` around the selection, or takes it
    /// away.
    fn toggle_marker(&mut self, c: char, twice: bool)
        requires
            old(self).wf(),
        ensures
            final(self)@ == old(self)@.wrap_toggled(
                if twice {
                    seq![c, c]
                } else {
                    seq![c]
                },
            ),
            final(self).wf(),
    {
        let mut marker: Vec<char> = Vec::new();
        marker.push(c);
        if twice {
            marker.push(c);
            assert(marker@ =~= seq![c, c]);
        } else {
            assert(marker@ =~= seq![c]);
        }
        self.toggle_wrap(marker.as_slice());
    }

    /// An action that edits the text or uses the clipboard; true iff the upkeep
    /// follows.
    fn make_edit(&mut self, a: Action, near: &Near) -> (r: (Outcome, bool))
        requires
            old(self).wf(),
            old(self)@.mode != Mode::Preview ==> old(self)@.list_cursors_fit(),
            !is_move(a),
            !is_table(a),
        ensures
            final(self)@ == old(self)@.edit_made(a, *near).state,
            r.0@ == old(self)@.edit_made(a, *near).asks,
            r.1 == old(self)@.edit_made(a, *near).upkeep,
            final(self).wf(),
    {
        reveal(EditorView::edit_made);
        match a {
            Action::InsertChar(c) => {
                let upkeep: bool = self.type_char(c, near);
                return (Outcome::quiet(), upkeep);
            },
            Action::InsertTab => {
                return self.type_tab(near);
            },
            Action::Newline => {
                return self.type_newline(near);
            },
            Action::DeleteCharBack => self.erase_back(near),
            Action::DeleteCharForward => self.erase_forward(near),
            Action::DeleteWordBack => self.erase_word_back(near),
            Action::DeleteWordForward => self.erase_word_forward(near),
            Action::DeleteLine => self.erase_line(near),
            Action::Undo => {
                if self.undo() {
                    return (Outcome::watchful(), true);
                }
            },
            Action::Redo => {
                if self.redo() {
                    return (Outcome::watchful(), true);
                }
            },
            Action::Copy => {
                let t: String = self.text_to_copy();
                let out = self.copy_text(t);
                return (out, true);
            },
            Action::Cut => {
                let out = self.cut_text();
                return (out, true);
            },
            Action::Paste => self.paste(near),
            Action::BoldSelection => self.toggle_marker('*', true),
            Action::ItalicizeSelection => self.toggle_marker('*', false),
            Action::InlineCodeSelection => self.toggle_marker('`', false),
            Action::StrikethroughSelection => self.toggle_marker('~', true),
            Action::HighlightSelection => self.toggle_marker('=', true),
            Action::ToggleCheckbox => {
                self.enter_edit_if_preview(near.height);
                self.list_toggle_checkbox();
            },
            _ => {},
        }
        (Outcome::quiet(), true)
    }

    /// The kind of an action: whether it is a movement, whether it is a table's.
    fn kind_of(a: Action) -> (r: (bool, bool))
        ensures
            r.0 == is_move(a),
            r.1 == is_table(a),
    {
        match a {
            Action::Quit | Action::EnterEditMode | Action::ExitToPreview | Action::ToggleRawMode
            | Action::MoveLeft | Action::MoveRight | Action::MoveUp | Action::MoveDown
            | Action::MoveWordLeft | Action::MoveWordRight | Action::MoveLineStart
            | Action::MoveLineEnd | Action::MoveDocStart | Action::MoveDocEnd
            | Action::SelectLeft | Action::SelectRight | Action::SelectUp | Action::SelectDown
            | Action::SelectAll | Action::ScrollUp | Action::ScrollDown | Action::ScrollPageUp
            | Action::ScrollPageDown | Action::ScrollToTop | Action::ScrollToBottom => (true, false),
            Action::TableNextCell | Action::TablePrevCell | Action::TableNextRow
            | Action::TablePrevRow | Action::TableMoveRowUp | Action::TableMoveRowDown
            | Action::TableMoveColumnLeft | Action::TableMoveColumnRight
            | Action::TableInsertRowAbove | Action::TableInsertRowBelow
            | Action::TableInsertColumnLeft | Action::TableInsertColumnRight
            | Action::TableDeleteRow | Action::TableDeleteColumn | Action::TableInsertBreak => (
                false,
                true,
            ),
            _ => (false, false),
        }
    }

    /// The upkeep after a run of edits.
    fn settle_run(&mut self)
        requires
            old(self).wf(),
        ensures
            final(self)@ == old(self)@.run_settled(),
            final(self).wf(),
    {
        let mode: Mode = self.mode();
        if mode == Mode::Rendered {
            self.list_renumber_at_cursor();
            self.clamp_cursor_out_of_marker();
        }
        if mode != Mode::Raw {
            self.flush_parsed_if_dirty();
        }
    }
}

/// Does what an action asks. All but typing need the document as it is rendered
/// from the text at hand.
///
/// What the action asks of others is in the result. After a change of a table
/// [`EditorState::settle`] does the upkeep.
pub fn apply(state: &mut EditorState, action: Action, near: &Near) -> (r: Outcome)
    requires
        old(state).wf(),
        near.fits(old(state)@.text),
        action.hot() || (!old(state)@.parsed_dirty && !old(state)@.reparse_due),
        old(state)@.mode != Mode::Preview ==> old(state)@.list_cursors_fit(),
    ensures
        final(state)@ == old(state)@.acted(action, *near),
        r@ == old(state)@.asked(action, *near),
        final(state).wf(),
{
    let len: usize = state.buffer().len_chars();
    let depth: usize = state.facts().undo_depth;
    let exact: bool = match action {
        Action::Undo => true,
        Action::Redo => true,
        _ => false,
    };
    let (is_move, is_table) = EditorState::kind_of(action);
    let (mut out, upkeep) = if is_move {
        state.make_move(action, near)
    } else if is_table {
        state.ask_table(action, near)
    } else {
        state.make_edit(action, near)
    };
    if upkeep {
        if state.settle(len, depth, exact) {
            out.keep_visible = true;
        }
    }
    out
}

/// Types a run of characters, as a held key gives them, as one edit that is
/// undone at once. True iff the cursor is to be kept on the screen.
pub fn apply_insert_run(state: &mut EditorState, chars: &[char], in_table: bool) -> (r: bool)
    requires
        old(state).wf(),
        old(state)@.mode != Mode::Preview,
        old(state)@.selection is None,
    ensures
        final(state)@ == old(state)@.run_typed(chars@, in_table),
        r == (chars@.len() > 0),
        final(state).wf(),
{
    if chars.len() == 0 {
        return false;
    }
    let mut t: String = String::new();
    let mut i: usize = 0;
    assert(chars@.subrange(0, 0) =~= Seq::<char>::empty());
    while i < chars.len()
        invariant
            i <= chars@.len(),
            t@ == run_text(chars@.subrange(0, i as int), in_table),
        decreases chars@.len() - i,
    {
        let piece: String = edits::text_for_char(chars[i], in_table);
        t.append(piece.as_str());
        assert(chars@.subrange(0, i + 1).drop_last() =~= chars@.subrange(0, i as int));
        assert(chars@.subrange(0, i + 1).last() == chars@[i as int]);
        i += 1;
    }
    assert(chars@.subrange(0, i as int) =~= chars@);
    state.insert_text(t);
    state.settle_run();
    true
}

/// Deletes a run of `count` characters, as the user sees them, as one edit. True
/// iff there was one to delete, so that the cursor is to be kept on the screen.
pub fn apply_delete_run(state: &mut EditorState, count: usize, backward: bool) -> (r: bool)
    requires
        old(state).wf(),
        old(state)@.mode != Mode::Preview,
        old(state)@.selection is None,
    ensures
        final(state)@ == old(state)@.run_erased(count as nat, backward),
        r == (old(state)@.graphemes_from(
            old(state)@.cursor.offset as int,
            count as nat,
            backward,
        ) != old(state)@.cursor.offset),
        final(state).wf(),
{
    let ghost v = state@;
    let c: usize = state.cursor().offset;
    let len: usize = state.buffer().len_chars();
    let mut off: usize = c;
    let mut left: usize = count;
    while left > 0 && !(backward && off == 0) && !(!backward && off >= len)
        invariant
            state@ == v,
            len == v.text.len(),
            off <= len,
            backward ==> off <= c,
            !backward ==> c <= off,
            v.graphemes_from(c as int, count as nat, backward) == v.graphemes_from(
                off as int,
                left as nat,
                backward,
            ),
        decreases left,
    {
        off = if backward {
            graphemes::prev_grapheme_offset(state.buffer(), off)
        } else {
            graphemes::next_grapheme_offset(state.buffer(), off)
        };
        left -= 1;
    }
    let (start, end) = if backward {
        (off, c)
    } else {
        (c, off)
    };
    if start >= end {
        return false;
    }
    state.take_out(start, end);
    state.settle_run();
    true
}

/// Puts in a text that the terminal pastes, with line feeds only. True iff there
/// is any, so that the cursor is to be kept on the screen.
pub fn paste_text(state: &mut EditorState, text: &str, viewport_height: usize) -> (r: bool)
    requires
        old(state).wf(),
    ensures
        final(state)@ == old(state)@.text_pasted(text@, viewport_height as int),
        r == (text@.len() > 0),
        final(state).wf(),
{
    if text.unicode_len() == 0 {
        return false;
    }
    let ghost v = state@;
    let t: String = buffer::normalize_newlines(text.to_string());
    let len: usize = state.buffer().len_chars();
    let depth: usize = state.facts().undo_depth;
    state.enter_edit_if_preview(viewport_height);
    state.insert_text(t);
    let edited: bool = state.buffer().len_chars() != len || state.facts().undo_depth != depth;
    if state.mode() == Mode::Rendered {
        if edited {
            state.list_renumber_at_cursor();
        }
        state.clamp_cursor_out_of_marker();
    }
    true
}

} // verus!
