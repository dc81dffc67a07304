//! What holds of the editor as a whole.

use crate::document::buffer;
use crate::document::buffer::LineEnding;
use crate::document::history;
use crate::document::rope;
use crate::document::selection::{CellBand, Selection, VisualSelection};
use crate::editor::edit_ops::action;
use crate::editor::edit_ops::action::{Action, Near};
use crate::editor::edit_ops::apply;
use crate::editor::edit_ops::basic;
use crate::editor::edit_ops::edits;
use crate::editor::edit_ops::emphasis;
use crate::editor::edit_ops::moves;
use crate::editor::link::LinkTarget;
use crate::editor::list_edit::edit;
use crate::editor::list_edit::edit::ListEdit;
use crate::editor::list_edit::laws as list_laws;
use crate::editor::list_edit::parse;
use crate::editor::list_edit::parse::ListInfo;
use crate::editor::list_edit::room;
use crate::editor::list_edit::toggle;
use crate::editor::mode::Mode;
use crate::editor::motion::Motion;
use crate::editor::mouse_ops::events::{DragTarget, MouseAction, Pointer};
use crate::editor::state;
use crate::editor::state::EditorView;
use crate::editor::state_cursor_visual;
use crate::editor::table_edit::TableMetrics;
use crate::editor::wrap::Layout;
use crate::text;
use vstd::prelude::*;
use vstd::utf8::*;

verus! {

/// The parts of the state that an edit changes, and those that say whether one can.
pub struct Kernel {
    pub text: Seq<char>,
    pub undo: Seq<history::Delta>,
    pub redo: Seq<history::Delta>,
    pub version: u64,
    pub dirty: bool,
    pub readonly: bool,
    pub mode: Mode,
}

/// The parts of a state that an edit changes, and those that say whether one can.
pub open spec fn kernel(v: EditorView) -> Kernel {
    Kernel {
        text: v.text,
        undo: v.undo,
        redo: v.redo,
        version: v.version,
        dirty: v.dirty,
        readonly: v.readonly,
        mode: v.mode,
    }
}

broadcast proof fn lemma_at(v: EditorView, offset: int)
    ensures
        kernel(#[trigger] v.at(offset)) == kernel(v),
{
    reveal(EditorView::at);
}

broadcast proof fn lemma_aimed(v: EditorView)
    ensures
        kernel(#[trigger] v.aimed()) == kernel(v),
{
    reveal(EditorView::aimed);
}

broadcast proof fn lemma_aimed_at(v: EditorView, col: usize)
    ensures
        kernel(#[trigger] v.aimed_at(col)) == kernel(v),
{
    reveal(EditorView::aimed_at);
}

broadcast proof fn lemma_moved(v: EditorView, how: Motion)
    ensures
        kernel(#[trigger] v.moved(how)) == kernel(v),
{
    reveal(EditorView::moved);
}

broadcast proof fn lemma_followed(v: EditorView)
    ensures
        kernel(#[trigger] v.followed()) == kernel(v),
{
    reveal(EditorView::followed);
}

broadcast proof fn lemma_refreshed(v: EditorView)
    ensures
        kernel(#[trigger] v.refreshed()) == kernel(v),
{
    reveal(EditorView::refreshed);
}

broadcast proof fn lemma_selecting(v: EditorView, sel: Option<Selection>)
    ensures
        kernel(#[trigger] v.selecting(sel)) == kernel(v),
{
    reveal(EditorView::selecting);
}

broadcast proof fn lemma_showing(
    v: EditorView,
    sel: Option<VisualSelection>,
    band: Option<CellBand>,
)
    ensures
        kernel(#[trigger] v.showing(sel, band)) == kernel(v),
{
    reveal(EditorView::showing);
}

broadcast proof fn lemma_in_mode(v: EditorView, mode: Mode)
    ensures
        kernel(#[trigger] v.in_mode(mode)) == (Kernel { mode, ..kernel(v) }),
{
    reveal(EditorView::in_mode);
}

broadcast proof fn lemma_scrolled(v: EditorView, scroll: usize)
    ensures
        kernel(#[trigger] v.scrolled(scroll)) == kernel(v),
{
    reveal(EditorView::scrolled);
}

broadcast proof fn lemma_dragging(v: EditorView, drag: bool)
    ensures
        kernel(#[trigger] v.dragging(drag)) == kernel(v),
{
    reveal(EditorView::dragging);
}

broadcast proof fn lemma_holding(v: EditorView, t: Seq<char>)
    ensures
        kernel(#[trigger] v.holding(t)) == kernel(v),
{
    reveal(EditorView::holding);
}

broadcast proof fn lemma_following(v: EditorView, link: Option<LinkTarget>)
    ensures
        kernel(#[trigger] v.following(link)) == kernel(v),
{
    reveal(EditorView::following);
}

broadcast proof fn lemma_refused(v: EditorView, d: history::Delta)
    ensures
        v.readonly ==> #[trigger] v.edited(d) == v,
{
    reveal(EditorView::edited);
}

broadcast group group_steps {
    lemma_at,
    lemma_aimed,
    lemma_aimed_at,
    lemma_moved,
    lemma_followed,
    lemma_refreshed,
    lemma_selecting,
    lemma_showing,
    lemma_in_mode,
    lemma_scrolled,
    lemma_dragging,
    lemma_holding,
    lemma_following,
    lemma_refused,
}

proof fn lemma_stepped(v: EditorView, forward: bool, cell: Option<usize>)
    ensures
        kernel(v.stepped(forward, cell)) == kernel(v),
{
    broadcast use group_steps;

}

proof fn lemma_line_step(v: EditorView, down: bool, visual: bool, layout: Layout)
    ensures
        kernel(v.line_step(down, visual, layout)) == kernel(v),
{
    broadcast use group_steps;

}

proof fn lemma_out_of_hidden(v: EditorView, down: bool, visual: bool, layout: Layout, n: nat)
    ensures
        kernel(v.out_of_hidden(down, visual, layout, n)) == kernel(v),
    decreases n,
{
    lemma_line_step(v, down, visual, layout);
    if n > 0 {
        lemma_out_of_hidden(
            v.line_step(down, visual, layout),
            down,
            visual,
            layout,
            (n - 1) as nat,
        );
    }
}

proof fn lemma_line_moved(v: EditorView, down: bool, visual: bool, layout: Layout)
    ensures
        kernel(v.line_moved(down, visual, layout)) == kernel(v),
{
    let s = v.line_step(down, visual, layout);
    lemma_line_step(v, down, visual, layout);
    lemma_line_step(s, down, visual, layout);
    lemma_out_of_hidden(s, down, visual, layout, state_cursor_visual::HIDDEN_STEPS as nat);
    lemma_out_of_hidden(
        s.line_step(down, visual, layout),
        down,
        visual,
        layout,
        state_cursor_visual::HIDDEN_STEPS as nat,
    );
}

proof fn lemma_entered(v: EditorView, height: int)
    ensures
        kernel(v.synced_to_scroll(height)) == kernel(v),
        v.readonly || v.mode != Mode::Preview ==> v.entered_edit(height) == v,
        !v.readonly && v.mode == Mode::Preview ==> kernel(v.entered_edit(height)) == (Kernel {
            mode: Mode::Rendered,
            ..kernel(v)
        }),
{
    broadcast use group_steps;

}

proof fn lemma_moved_sideways(v: EditorView, forward: bool, near: Near)
    ensures
        kernel(v.moved_sideways(forward, near)) == kernel(v.entered_edit(near.height as int)),
{
    reveal(EditorView::moved_sideways);
    broadcast use group_steps;

    let e = v.entered_edit(near.height as int).selecting(None);
    lemma_stepped(e, forward, near.cell);
    let s = e.stepped(forward, near.cell);
    assert(kernel(s.aimed_on_screen(near.layout)) == kernel(s));
}

proof fn lemma_moved_along(v: EditorView, how: Motion, near: Near)
    ensures
        kernel(v.moved_along(how, near)) == kernel(v.entered_edit(near.height as int)),
{
    reveal(EditorView::moved_along);
    broadcast use group_steps;

    let s = v.entered_edit(near.height as int).selecting(None).moved(how);
    assert(kernel(s.aimed_on_screen(near.layout)) == kernel(s));
}

proof fn lemma_moved_vertically(v: EditorView, down: bool, near: Near)
    ensures
        kernel(v.moved_vertically(down, near)) == kernel(v),
{
    reveal(EditorView::moved_vertically);
    broadcast use group_steps;

    let u = v.selecting(None);
    lemma_line_step(u, down, u.settings.visual_line_nav, near.layout);
    lemma_line_moved(u, down, u.settings.visual_line_nav, near.layout);
}

proof fn lemma_selected_by(v: EditorView, how: Motion, near: Near)
    ensures
        kernel(v.selected_by(how, near)) == kernel(v.entered_edit(near.height as int)),
{
    reveal(EditorView::selected_by);
    broadcast use group_steps;

}

proof fn lemma_raw_toggled(v: EditorView, near: Near)
    ensures
        ({
            let w = v.raw_toggled(near).state;
            &&& kernel(w) == Kernel { mode: w.mode, ..kernel(v) }
            &&& v.readonly ==> w == v
        }),
{
    reveal(EditorView::raw_toggled);
    broadcast use group_steps;

    lemma_entered(v, near.height as int);
    lemma_out_of_hidden(
        v.showing(None, None).in_mode(Mode::Rendered),
        true,
        v.settings.visual_line_nav,
        near.layout,
        state_cursor_visual::HIDDEN_STEPS as nat,
    );
}

proof fn lemma_other_moves(v: EditorView)
    ensures
        kernel(v.selecting(None).moved(Motion::DocStart).followed()) == kernel(v),
        kernel(v.selecting(None).moved(Motion::DocEnd).followed()) == kernel(v),
        kernel(v.selected_all().state) == kernel(v),
        kernel(v.left_edit()) == (Kernel { mode: Mode::Preview, ..kernel(v) }),
{
    reveal(EditorView::selected_all);
    broadcast use group_steps;

}

/// The upkeep where nothing was edited moves the cursor at most.
proof fn lemma_unedited_upkeep(v: EditorView, len: int, depth: int, exact: bool)
    ensures
        v.text.len() == len && v.undo.len() == depth ==> kernel(v.settled(len, depth, exact))
            == kernel(v),
{
    reveal(EditorView::settled);
    broadcast use group_steps;

}

/// Movements, selections and scrolling change no text, and a document that cannot be
/// edited stays in the preview.
pub proof fn law_moves_keep_text(v: EditorView, a: Action, near: Near)
    ensures
        ({
            let w = v.move_made(a, near).state;
            &&& kernel(w) == Kernel { mode: w.mode, ..kernel(v) }
            &&& v.readonly && v.mode == Mode::Preview ==> w.mode == Mode::Preview
            &&& apply::is_move(a) ==> kernel(v.acted(a, near)) == kernel(w)
        }),
{
    reveal(EditorView::move_made);
    lemma_entered(v, near.height as int);
    lemma_unedited_upkeep(
        v.move_made(a, near).state,
        v.text.len() as int,
        v.undo.len() as int,
        a is Undo || a is Redo,
    );
    match a {
        Action::ToggleRawMode => lemma_raw_toggled(v, near),
        Action::MoveLeft => lemma_moved_sideways(v, false, near),
        Action::MoveRight => lemma_moved_sideways(v, true, near),
        Action::MoveUp => lemma_moved_vertically(v, false, near),
        Action::MoveDown => lemma_moved_vertically(v, true, near),
        Action::MoveWordLeft => lemma_moved_along(v, Motion::WordLeft, near),
        Action::MoveWordRight => lemma_moved_along(v, Motion::WordRight, near),
        Action::MoveLineStart => lemma_moved_along(v, Motion::LineStart, near),
        Action::MoveLineEnd => lemma_moved_along(v, Motion::LineEnd, near),
        Action::SelectLeft => lemma_selected_by(v, Motion::Left, near),
        Action::SelectRight => lemma_selected_by(v, Motion::Right, near),
        Action::SelectUp => lemma_selected_by(v, Motion::Up, near),
        Action::SelectDown => lemma_selected_by(v, Motion::Down, near),
        _ => lemma_other_moves(v),
    }
}

/// In the preview the first key begins to edit, and changes no text.
pub proof fn law_first_key_begins(v: EditorView, a: Action, near: Near)
    requires
        v.mode == Mode::Preview,
        !v.readonly,
        a is InsertChar || a is InsertTab || a is Newline,
    ensures
        kernel(v.acted(a, near)) == (Kernel { mode: Mode::Rendered, ..kernel(v) }),
{
    reveal(EditorView::edit_made);
    reveal(EditorView::char_typed);
    reveal(EditorView::tab_typed);
    reveal(EditorView::newline_typed);
    lemma_entered(v, near.height as int);
}

/// Leaving an editing view leads to the preview, with nothing selected, and changes no
/// text.
pub proof fn law_leaving_leads_to_preview(v: EditorView, near: Near)
    ensures
        ({
            let w = v.acted(Action::ExitToPreview, near);
            &&& kernel(w) == (Kernel { mode: Mode::Preview, ..kernel(v) })
            &&& w.selection is None
            &&& w.visual is None
        }),
{
    law_moves_keep_text(v, Action::ExitToPreview, near);
    reveal(EditorView::move_made);
    reveal(EditorView::settled);
    reveal(EditorView::selecting);
    reveal(EditorView::showing);
    reveal(EditorView::in_mode);
    lemma_other_moves(v);
}

/// From an editing view, showing the source and back leads to the view it began in.
pub proof fn law_source_and_back(v: EditorView, near: Near, next: Near)
    requires
        v.mode != Mode::Preview,
    ensures
        kernel(v.acted(Action::ToggleRawMode, near).acted(Action::ToggleRawMode, next)) == kernel(
            v,
        ),
{
    let w = v.acted(Action::ToggleRawMode, near);
    law_moves_keep_text(v, Action::ToggleRawMode, near);
    law_moves_keep_text(w, Action::ToggleRawMode, next);
    lemma_toggled_mode(v, near);
    lemma_toggled_mode(w, next);
}

proof fn lemma_toggled_mode(v: EditorView, near: Near)
    requires
        v.mode != Mode::Preview,
    ensures
        v.move_made(Action::ToggleRawMode, near).state.mode == if v.readonly {
            v.mode
        } else {
            moves::toggled(v.mode)
        },
{
    reveal(EditorView::move_made);
    reveal(EditorView::raw_toggled);
    broadcast use group_steps;

    lemma_out_of_hidden(
        v.showing(None, None).in_mode(Mode::Rendered),
        true,
        v.settings.visual_line_nav,
        near.layout,
        state_cursor_visual::HIDDEN_STEPS as nat,
    );
    let w = v.move_made(Action::ToggleRawMode, near).state;
    assert(kernel(w).mode == w.mode);
}

proof fn lemma_typed_refused(v: EditorView, t: Seq<char>)
    requires
        v.readonly,
    ensures
        kernel(v.typed(t)) == kernel(v),
{
    broadcast use group_steps;

}

proof fn lemma_deleted_refused(v: EditorView, sel: Selection)
    requires
        v.readonly,
    ensures
        kernel(v.deleted(sel)) == kernel(v),
{
    broadcast use group_steps;

}

proof fn lemma_list_edit_refused(v: EditorView, e: ListEdit)
    requires
        v.readonly,
    ensures
        kernel(v.list_edited(e)) == kernel(v),
{
    broadcast use group_steps;

}

proof fn lemma_typing_refused(v: EditorView, c: char, near: Near)
    requires
        v.readonly,
    ensures
        kernel(v.char_typed(c, near).state) == kernel(v),
        kernel(v.tab_typed(near).state) == kernel(v),
        kernel(v.newline_typed(near).state) == kernel(v),
        kernel(v.broken(near)) == kernel(v),
        kernel(v.pasted(near)) == kernel(v),
{
    reveal(EditorView::char_typed);
    reveal(EditorView::tab_typed);
    reveal(EditorView::newline_typed);
    reveal(EditorView::broken);
    reveal(EditorView::pasted);
    lemma_entered(v, near.height as int);
    lemma_typed_refused(v, edits::typed_char(c, near.in_table));
    lemma_typed_refused(v, edits::blanks(v.settings.indent_width as nat));
    lemma_typed_refused(v, seq!['\n']);
    lemma_typed_refused(v, seq!['<', 'b', 'r', '>']);
    lemma_typed_refused(
        v,
        v.pasted_text(
            match near.clipboard {
                Some(c) => Some(c@),
                None => None,
            },
        ),
    );
    if v.list_indent_edit() is Some {
        lemma_list_edit_refused(v, v.list_indent_edit()->0);
    }
    if v.list_newline_edit() is Some {
        lemma_list_edit_refused(v, v.list_newline_edit()->0);
    }
}

proof fn lemma_erasing_refused(v: EditorView, near: Near)
    requires
        v.readonly,
    ensures
        kernel(v.erased_back(near)) == kernel(v),
        kernel(v.erased_forward(near)) == kernel(v),
        kernel(v.word_erased_back(near)) == kernel(v),
        kernel(v.word_erased_forward(near)) == kernel(v),
        kernel(v.line_erased(near)) == kernel(v),
{
    reveal(EditorView::erased_back);
    reveal(EditorView::erased_forward);
    reveal(EditorView::word_erased_back);
    reveal(EditorView::word_erased_forward);
    reveal(EditorView::line_erased);
    broadcast use group_steps;

    lemma_entered(v, near.height as int);
    if v.selection is Some {
        lemma_deleted_refused(v.selecting(None), v.selection->0);
    }
    if v.list_backspace_edit() is Some {
        lemma_list_edit_refused(v, v.list_backspace_edit()->0);
    }
}

proof fn lemma_cut_refused(v: EditorView)
    requires
        v.readonly,
    ensures
        kernel(v.cut().state) == kernel(v),
        kernel(v.copying(v.copied_text()).state) == kernel(v),
{
    reveal(EditorView::cut);
    broadcast use group_steps;

    if v.selection is Some {
        let sel = v.selection->0;
        lemma_deleted_refused(v.holding(sel.text_of(v.text)).selecting(None), sel);
    }
}

proof fn lemma_upkeep_refused(v: EditorView, len: int, depth: int, exact: bool)
    requires
        v.readonly,
    ensures
        kernel(v.settled(len, depth, exact)) == kernel(v),
{
    broadcast use group_steps;

    reveal(EditorView::settled);
    let w = v.list_renumbered();
    match edit::block_at(v.bytes(), v.cursor_byte()) {
        Some((start, end)) => {
            lemma_list_edit_refused(
                v,
                ListEdit {
                    offset: start,
                    removed: v.bytes().subrange(start, end),
                    inserted: edit::renumber_lines(v.bytes(), start, end, Seq::empty()),
                    cursor: v.cursor_byte(),
                },
            );
        },
        None => {},
    }
    assert(kernel(w) == kernel(v));
    assert(kernel(w.off_marker()) == kernel(v));
    assert(kernel(v.off_marker()) == kernel(v));
}

proof fn lemma_edits_refused(v: EditorView, a: Action, near: Near)
    requires
        v.readonly,
        v.undo.len() == 0,
        v.redo.len() == 0,
    ensures
        kernel(v.edit_made(a, near).state) == kernel(v),
{
    reveal(EditorView::wrap_toggled);
    reveal(EditorView::edit_made);
    lemma_entered(v, near.height as int);
    match a {
        Action::InsertChar(c) => lemma_typing_refused(v, c, near),
        Action::InsertTab => lemma_typing_refused(v, ' ', near),
        Action::Newline => lemma_typing_refused(v, ' ', near),
        Action::Paste => lemma_typing_refused(v, ' ', near),
        Action::DeleteCharBack => lemma_erasing_refused(v, near),
        Action::DeleteCharForward => lemma_erasing_refused(v, near),
        Action::DeleteWordBack => lemma_erasing_refused(v, near),
        Action::DeleteWordForward => lemma_erasing_refused(v, near),
        Action::DeleteLine => lemma_erasing_refused(v, near),
        Action::Copy => lemma_cut_refused(v),
        Action::Cut => lemma_cut_refused(v),
        Action::ToggleCheckbox => {
            if v.list_toggle_edit() is Some {
                lemma_list_edit_refused(v, v.list_toggle_edit()->0);
            }
        },
        _ => {},
    }
}

proof fn lemma_table_refused(v: EditorView, a: Action, near: Near)
    requires
        v.readonly,
    ensures
        kernel(v.table_asked(a, near).state) == kernel(v),
{
    reveal(EditorView::table_asked);
    lemma_entered(v, near.height as int);
    match a {
        Action::TableInsertBreak => lemma_typing_refused(v, ' ', near),
        Action::TablePrevCell => {
            if v.list_outdent_edit() is Some {
                lemma_list_edit_refused(v, v.list_outdent_edit()->0);
            }
        },
        _ => {},
    }
}

/// A document that cannot be edited keeps its text, and stays in the preview,
/// whatever action comes. It has no history: one that was edited before can still be
/// taken back.
pub proof fn law_readonly_keeps_text(v: EditorView, a: Action, near: Near)
    requires
        v.readonly,
        v.undo.len() == 0,
        v.redo.len() == 0,
    ensures
        ({
            let w = v.acted(a, near);
            &&& w.text == v.text
            &&& w.version == v.version
            &&& w.dirty == v.dirty
            &&& w.undo.len() == 0 && w.redo.len() == 0
            &&& w.readonly
            &&& v.mode == Mode::Preview ==> w.mode == Mode::Preview
        }),
{
    let d = v.action_made(a, near);
    if apply::is_move(a) {
        law_moves_keep_text(v, a, near);
    } else if apply::is_table(a) {
        lemma_table_refused(v, a, near);
    } else {
        lemma_edits_refused(v, a, near);
    }
    lemma_upkeep_refused(
        d.state,
        v.text.len() as int,
        v.undo.len() as int,
        a is Undo || a is Redo,
    );
}

/// Taking an edit back and making it again gives the text that was there.
pub proof fn law_redo_undoes_undo(v: EditorView)
    requires
        v.wf(),
        v.undo.len() > 0,
    ensures
        v.undone().redone().text == v.text,
        v.undone().redone().undo == v.undo,
{
    reveal(state::sound);
    reveal(EditorView::undo_made);
    reveal(EditorView::redo_made);
    reveal(EditorView::refreshed);
    history::law_undo_keeps_history(v.text, v.undo, v.redo);
    let w = v.undone();
    assert(w.redo.last() == v.undo.last());
    assert(v.undo.drop_last().push(v.undo.last()) =~= v.undo);
}

/// Making an edit again and taking it back gives the text that was there.
pub proof fn law_undo_undoes_redo(v: EditorView)
    requires
        v.wf(),
        v.redo.len() > 0,
    ensures
        v.redone().undone().text == v.text,
        v.redone().undone().redo == v.redo,
{
    reveal(state::sound);
    reveal(EditorView::undo_made);
    reveal(EditorView::redo_made);
    reveal(EditorView::refreshed);
    let d = v.redo.last();
    assert(d.fits(v.text));
    history::law_undo_restores(d, v.text);
    let w = v.redone();
    assert(w.undo.last() == d);
    assert(v.redo.drop_last().push(d) =~= v.redo);
}

/// An edit that joins no other can be taken back: the text is as it was before it.
pub proof fn law_undo_undoes_edit(v: EditorView, d: history::Delta)
    requires
        v.wf(),
        !v.readonly,
        d.fits(v.text),
        v.undo.len() > 0 ==> history::merged(v.undo.last(), d) is None,
    ensures
        v.edited(d).undone().text == v.text,
        v.edited(d).undone().undo == v.undo,
{
    reveal(EditorView::edited);
    reveal(EditorView::followed);
    reveal(EditorView::refreshed);
    reveal(EditorView::undo_made);
    history::law_undo_restores(d, v.text);
    let w = v.edited(d);
    assert(w.undo == v.undo.push(d));
    assert(w.undo.last() == d);
    assert(v.undo.push(d).drop_last() =~= v.undo);
}

/// An edit that takes something out or puts something in gives the text another
/// version.
pub proof fn law_edit_changes_version(v: EditorView, d: history::Delta)
    requires
        !v.readonly,
        d.removed.len() > 0 || d.inserted.len() > 0,
    ensures
        v.edited(d).version != v.version,
{
    reveal(EditorView::edited);
    reveal(EditorView::followed);
    reveal(EditorView::refreshed);
}

/// What was copied is what a paste puts in, both by the editor's own clipboard and by
/// that of the system, whatever the line breaks of the file are.
pub proof fn law_copy_comes_back(v: EditorView, t: Seq<char>)
    requires
        v.ending == LineEnding::Lf ==> buffer::no_crlf(t),
    ensures
        v.copying(t).state.pasted_text(None) == t,
        v.copying(t).state.pasted_text(v.copying(t).asks.copy) == t,
{
    reveal(EditorView::holding);
    match v.ending {
        LineEnding::Lf => buffer::law_lf_round_trip(t),
        LineEnding::Crlf => buffer::law_crlf_round_trip(t),
    }
}

proof fn lemma_preview_clicks(v: EditorView, p: Pointer, drag: Option<DragTarget>)
    ensures
        kernel(v.preview_clicked(p, drag).state) == kernel(v),
        kernel(v.preview_word(p)) == kernel(v),
        kernel(v.preview_line(p)) == kernel(v),
{
    broadcast use group_steps;

    reveal(EditorView::preview_clicked);
    reveal(EditorView::preview_word);
    reveal(EditorView::preview_line);
}

proof fn lemma_preview_drags(v: EditorView, p: Pointer, drag: Option<DragTarget>)
    ensures
        kernel(v.preview_dragged(p, drag)) == kernel(v),
        kernel(v.preview_released()) == kernel(v),
{
    broadcast use group_steps;

    reveal(EditorView::preview_dragged);
    reveal(EditorView::preview_released);
}

proof fn lemma_wheeled(v: EditorView, delta: int, total: int)
    ensures
        kernel(v.wheeled(delta, total)) == kernel(v),
{
    broadcast use group_steps;

}

/// The mouse leaves the preview as it is: nothing it does there changes the text or
/// the mode.
pub proof fn law_preview_mouse_keeps_text(
    v: EditorView,
    a: MouseAction,
    p: Pointer,
    drag: Option<DragTarget>,
    metrics: TableMetrics,
    link: Option<LinkTarget>,
)
    requires
        v.mode == Mode::Preview,
    ensures
        kernel(v.moused(a, p, drag, metrics, link).state) == kernel(v),
{
    lemma_preview_clicks(v, p, drag);
    lemma_preview_drags(v, p, drag);
    let word = v.preview_word(p);
    let line = v.preview_line(p);
    lemma_dragging(word, false);
    lemma_dragging(line, false);
    lemma_following(v, link);
    lemma_dragging(v.following(link), false);
    match a {
        MouseAction::Scroll(delta) => lemma_wheeled(v, delta as int, p.total_rows as int),
        _ => {},
    }
}

/// A drag that began in a cell of a table selects nothing outside it.
pub proof fn law_drag_stays_in_cell(
    v: EditorView,
    p: Pointer,
    anchor: usize,
    lo: usize,
    hi: usize,
    metrics: TableMetrics,
)
    requires
        lo <= anchor <= hi,
    ensures
        ({
            let drag = Some(DragTarget::TextSelection { anchor, cell: Some((lo, hi)) });
            let w = v.mouse_dragged(p, drag, metrics).state;
            p.offset is Some ==> (w.selection matches Some(sel) && lo <= sel.low() && sel.high()
                <= hi)
        }),
{
    reveal(EditorView::selecting);
    reveal(EditorView::followed);
}

/// A review leaves the view where it was, in the rendered view.
pub proof fn law_review_restores_view(v: EditorView)
    ensures
        v.reviewing().reviewed().scroll == v.scroll,
        v.reviewing().mode == Mode::Diff,
        v.reviewing().reviewed().mode == Mode::Rendered,
        v.reviewing().reviewed().text == v.text,
{
    reveal(EditorView::scrolled);
    reveal(EditorView::selecting);
    reveal(EditorView::showing);
    reveal(EditorView::in_mode);
}

/// A review is left by no key for the source: nothing changes, and nothing is asked.
pub proof fn law_review_keeps_its_mode(v: EditorView, near: Near)
    requires
        v.mode == Mode::Diff,
    ensures
        v.raw_toggled(near).state == v,
        v.raw_toggled(near).asks == action::quiet(),
        !v.raw_toggled(near).upkeep,
{
    reveal(EditorView::raw_toggled);
}

/// A click in a review leads nowhere in the text: but for tables, images and links that
/// are drawn there, the state stays as it is, and so does the drag.
pub proof fn law_review_takes_no_clicks(
    v: EditorView,
    a: MouseAction,
    p: Pointer,
    drag: Option<DragTarget>,
    metrics: TableMetrics,
)
    requires
        v.mode == Mode::Diff,
        p.offset is None,
        p.table is None,
        p.image is None,
        a is Click || a is DoubleClick || a is TripleClick,
    ensures
        v.moused(a, p, drag, metrics, None).state == v,
        v.moused(a, p, drag, metrics, None).drag == drag,
        !v.moused(a, p, drag, metrics, None).keep_visible,
{
    reveal(EditorView::edit_moused);
}

/// A marker that was put around a selection is taken away by the same command, and
/// the same text is selected.
pub proof fn law_wrap_comes_off(v: EditorView, m: Seq<char>)
    requires
        !v.readonly,
        m.len() > 0,
        v.text.len() + 2 * m.len() <= usize::MAX,
        v.selection matches Some(sel) && {
            let start = sel.low() as int;
            let end = sel.high() as int;
            &&& start < end <= v.text.len()
            &&& !v.text.subrange(start, end).contains('\n')
            &&& !emphasis::wrapped(v.text.subrange(start, end), m)
            &&& !emphasis::wrapped_outside(v.text, start, end, m)
            &&& m == seq!['*'] ==> !(start >= 1 && v.text[start - 1] == '*') && !(end < v.text.len()
                && v.text[end] == '*')
        },
    ensures
        v.wrap_toggled(m).wrap_toggled(m).text == v.text,
        v.wrap_toggled(m).wrap_toggled(m).selection matches Some(sel) && sel.low()
            == v.selection->0.low() && sel.high() == v.selection->0.high(),
{
    reveal(EditorView::wrap_toggled);
    reveal(EditorView::selecting);
    reveal(EditorView::at);
    let sel = v.selection->0;
    let start = sel.low() as int;
    let end = sel.high() as int;
    let n = m.len() as int;
    let s = v.text;
    let t = s.subrange(start, end);
    let d = basic::splice(s, start, end, m + t + m);
    basic::lemma_edited_text(v, d);
    let w = v.wrap_toggled(m);
    let s2 = w.text;
    assert(s2 =~= s.subrange(0, start) + (m + t + m) + s.subrange(end, s.len() as int));
    let a = start + n;
    let b = start + n + t.len();
    assert(w.selection == Some(Selection { anchor: a as usize, active: b as usize }));
    assert(s2.subrange(a, b) =~= t);
    assert(s2.subrange(a - n, a) =~= m);
    assert(s2.subrange(b, b + n) =~= m);
    assert(emphasis::wrapped_outside(s2, a, b, m)) by {
        if m == seq!['*'] {
            assert(n == 1);
            if a >= 2 {
                assert(s2[a - 2] == s[start - 1]);
            }
            if b + 2 <= s2.len() {
                assert(s2[b + 1] == s[end]);
            }
        }
    }
    let d2 = basic::splice(s2, a - n, b + n, t);
    basic::lemma_edited_text(w, d2);
    assert(d2.redone(s2) =~= s);
}

/// Where the text has room to spare, list edits put the cursor to offsets.
pub proof fn law_lists_have_room(v: EditorView)
    requires
        v.wf(),
        room::roomy(v.bytes().len(), v.settings.indent_width as nat),
    ensures
        v.list_cursors_fit(),
{
    let c = v.cursor_byte();
    rope::lemma_part_bytes(v.text, 0, v.cursor.offset as int);
    match v.list() {
        Some(info) => {
            assert(parse::is_list_at(info, v.bytes(), c));
            room::law_list_cursors_fit(v.bytes(), info, c, v.settings.indent_width as nat);
        },
        None => {},
    }
}

/// Items of a list hold no offset in common.
proof fn lemma_items_apart(b: Seq<u8>, info: ListInfo, i: int, j: int)
    requires
        info.wf(b),
        0 <= i < j < info.items@.len(),
    ensures
        info.items@[i].end <= info.items@[j].start,
    decreases j - i,
{
    assert(info.items@[i].end == info.items@[i + 1].start);
    assert(parse::item_wf(b, info.items@[i + 1]));
    if i + 1 < j {
        lemma_items_apart(b, info, i + 1, j);
    }
}

/// The list is the same from any offset of one line.
proof fn lemma_list_of_line(b: Seq<u8>, info: ListInfo, x: int, y: int)
    requires
        parse::is_list_at(info, b, x),
        0 <= x <= y <= b.len(),
        forall|k: int| x <= k < y ==> b[k] != text::NEWLINE,
    ensures
        parse::is_list_at(info, b, y),
{
    text::lemma_line_start(b, x);
    text::lemma_line_start_unique(b, text::line_start(b, x), y);
}

/// No item of the list has its marker over the offset that text of item `i`
/// begins at.
proof fn lemma_content_is_off_marker(b: Seq<u8>, info: ListInfo, i: int)
    requires
        info.wf(b),
        0 <= i < info.items@.len(),
        forall|k: int|
            info.items@[i].start <= k < info.items@[i].line_end ==> b[k] != text::NEWLINE,
    ensures
        parse::item_index(info, info.items@[i].content_start as int) matches Some(j)
            ==> info.items@[i].content_start >= info.items@[j].content_start
            || info.items@[i].content_start < info.items@[j].start,
{
    let c = info.items@[i].content_start as int;
    edit::lemma_item_index(info, c);
    match parse::item_index(info, c) {
        Some(j) => {
            assert(parse::item_wf(b, info.items@[i]));
            assert(parse::item_wf(b, info.items@[j]));
            if i < j {
                lemma_items_apart(b, info, i, j);
                assert(info.items@[i].end == info.items@[i + 1].start);
                assert(parse::item_wf(b, info.items@[i + 1]));
            } else if j < i {
                lemma_items_apart(b, info, j, i);
            }
        },
        None => {},
    }
}

/// After the upkeep of a list the cursor is not on a marker of that list: it is in
/// the text of the item, or outside.
pub proof fn law_cursor_is_off_marker(v: EditorView)
    requires
        v.wf(),
        v.bytes().len() <= usize::MAX,
    ensures
        v.off_marker().text == v.text,
        v.off_marker().list() matches Some(info) ==> (v.off_marker().list_item() matches Some(i)
            ==> !(info.items@[i].start <= v.off_marker().cursor_byte()
            < info.items@[i].content_start)),
{
    let b = v.bytes();
    let c = v.cursor_byte();
    let w = v.off_marker();
    rope::lemma_part_bytes(v.text, 0, v.cursor.offset as int);
    match (v.list(), v.list_item()) {
        (Some(info), Some(i)) => {
            let item = info.items@[i];
            if item.start <= c < item.content_start {
                reveal(EditorView::at);
                assert(parse::is_list_at(info, b, c));
                edit::lemma_item_index(info, c);
                edit::lemma_items_in_list(b, info, i);
                assert(parse::item_wf(b, item));
                assert(parse::item_wf(b, info.items@[0]));
                assert(parse::item_wf(b, info.items@[info.items@.len() - 1]));
                let to = item.content_start as int;
                rope::lemma_boundary_is_offset(v.text, to);
                rope::lemma_encode_len(v.text);
                assert(w.cursor_byte() == to);
                toggle::lemma_items_are(
                    b,
                    info.start as int,
                    info.end as int,
                    encode_utf8(info.indent@),
                    info.kind,
                    i,
                );
                text::lemma_line_end(b, item.start as int);
                lemma_list_of_line(b, info, c, to);
                let other = w.list()->0;
                assert(parse::is_list_at(other, b, to));
                list_laws::lemma_same_edits(info, other, b, to, to, 0);
                list_laws::lemma_same_list(info, other, b, to);
                lemma_content_is_off_marker(b, info, i);
            }
        },
        _ => {},
    }
}

} // verus!
