//! What the keys for movement do in the rendered view.

use crate::document::graphemes;
use crate::document::rope;
use crate::editor::edit_ops::action::{Action, Near};
use crate::editor::edit_ops::apply;
use crate::editor::edit_ops::move_laws;
use crate::editor::list_edit::edit;
use crate::editor::list_edit::parse;
use crate::editor::list_edit::toggle;
use crate::editor::mode::Mode;
use crate::editor::state::EditorView;
use crate::text;
use vstd::prelude::*;
use vstd::utf8::*;

verus! {

/// Outside lists and tables the keys for left and right lead to the start of the character
/// before the cursor and behind the one at it, as the user sees characters, in every
/// editing view; at the ends of the text they lead nowhere.
pub proof fn law_sideways_by_one_character(v: EditorView, near: Near)
    requires
        v.wf(),
        v.mode == Mode::Rendered || v.mode == Mode::Raw,
        v.mode == Mode::Rendered ==> near.cell is None && v.list() is None,
        v.text.len() <= usize::MAX,
    ensures
        ({
            let left = v.action_made(Action::MoveLeft, near).state;
            let right = v.action_made(Action::MoveRight, near).state;
            let c = v.cursor.offset as int;
            &&& c > 0 ==> left.cursor.offset < c && left.cursor.offset == graphemes::prev_boundary(
                v.text,
                c,
            )
            &&& c == 0 ==> left.cursor.offset == 0
            &&& c < v.text.len() ==> c < right.cursor.offset <= v.text.len()
                && right.cursor.offset == graphemes::next_boundary(v.text, c)
            &&& c == v.text.len() ==> right.cursor.offset == c
            &&& left.selection is None && right.selection is None
        }),
{
    let e = v.selecting(None);
    assert(e.text == v.text && e.cursor == v.cursor && e.mode == v.mode && e.list() == v.list()
        && e.selection is None) by {
        reveal(EditorView::selecting);
    }
    assert(e.list_step(false) is None && e.list_step(true) is None);
    lemma_plain_step(v, e, near, false);
    lemma_plain_step(v, e, near, true);
}

proof fn lemma_plain_step(v: EditorView, e: EditorView, near: Near, forward: bool)
    requires
        v.mode == Mode::Rendered || v.mode == Mode::Raw,
        e == v.selecting(None),
        e.text == v.text && e.cursor == v.cursor && e.mode == v.mode,
        e.mode == Mode::Rendered ==> near.cell is None && e.list_step(forward) is None,
    ensures
        ({
            let a = if forward {
                Action::MoveRight
            } else {
                Action::MoveLeft
            };
            let w = v.action_made(a, near).state;
            let c = v.cursor.offset as int;
            &&& w.selection == e.selection
            &&& w.text == v.text
            &&& w.cursor.offset == (if forward {
                if c == v.text.len() {
                    c
                } else {
                    graphemes::next_boundary(v.text, c)
                }
            } else if c == 0 {
                0
            } else {
                graphemes::prev_boundary(v.text, c)
            }) as usize
        }),
{
    reveal(EditorView::move_made);
    reveal(EditorView::moved_sideways);
    reveal(EditorView::moved);
    reveal(EditorView::aimed_at);
    reveal(EditorView::followed);
}

/// In a cell of a table the arrow keys lead where the table says.
pub proof fn law_arrows_follow_table(v: EditorView, near: Near, t: usize)
    requires
        v.wf(),
        v.mode == Mode::Rendered,
        near.cell == Some(t),
    ensures
        v.action_made(Action::MoveLeft, near).state.cursor.offset == t,
        v.action_made(Action::MoveRight, near).state.cursor.offset == t,
        v.action_made(Action::MoveUp, near).state.cursor.offset == t,
        v.action_made(Action::MoveDown, near).state.cursor.offset == t,
{
    reveal(EditorView::move_made);
    reveal(EditorView::moved_sideways);
    reveal(EditorView::moved_vertically);
    reveal(EditorView::selecting);
    reveal(EditorView::at);
    reveal(EditorView::aimed);
    reveal(EditorView::aimed_at);
    reveal(EditorView::followed);
}

/// After a movement the upkeep changes nothing but the place of a cursor on a list's
/// marker: it goes on to the item's text, on the same line.
pub proof fn law_upkeep_of_moves_stays_on_line(m: EditorView, len: int, depth: int)
    requires
        m.cursor.offset <= m.text.len(),
        m.text.len() == len,
        m.undo.len() == depth,
        m.text.len() <= usize::MAX,
        m.bytes().len() <= usize::MAX,
    ensures
        ({
            let w = m.settled(len, depth, false);
            &&& w.text == m.text
            &&& m.cursor_byte() <= w.cursor_byte() <= m.bytes().len()
            &&& forall|k: int|
                m.cursor_byte() <= k < w.cursor_byte() ==> #[trigger] m.bytes()[k] != text::NEWLINE
            &&& m.mode != Mode::Rendered ==> w.cursor == m.cursor
        }),
{
    reveal(EditorView::settled);
    reveal(EditorView::at);
    let b = m.bytes();
    let c = m.cursor_byte();
    encode_utf8_valid_utf8(m.text);
    rope::lemma_part_bytes(m.text, 0, m.cursor.offset as int);
    rope::lemma_part_bytes(m.text, m.cursor.offset as int, m.text.len() as int);
    match (m.list(), m.list_item()) {
        (Some(info), Some(i)) => {
            let item = info.items@[i];
            assert(parse::is_list_at(info, b, c));
            edit::lemma_item_index(info, c);
            edit::lemma_items_in_list(b, info, i);
            assert(parse::item_wf(b, item));
            assert(parse::item_wf(b, info.items@[0]));
            assert(parse::item_wf(b, info.items@[info.items@.len() - 1]));
            toggle::lemma_items_are(
                b,
                info.start as int,
                info.end as int,
                encode_utf8(info.indent@),
                info.kind,
                i,
            );
            text::lemma_line_end(b, item.start as int);
            rope::lemma_boundary_is_offset(m.text, item.content_start as int);
        },
        _ => {},
    }
}

/// The keys for down and up lead on and back in lists too: after the upkeep the cursor is
/// behind where it was from every line but the last, and on a line above from every line
/// but the first, where movement goes by lines.
pub proof fn law_vertical_moves_in_lists(v: EditorView, near: Near)
    requires
        v.wf(),
        v.mode == Mode::Rendered,
        near.cell is None,
        move_laws::walkable(v, near.layout),
        !v.settings.visual_line_nav,
        v.text.len() <= usize::MAX,
        v.bytes().len() <= usize::MAX,
    ensures
        ({
            let down = v.acted(Action::MoveDown, near);
            let up = v.acted(Action::MoveUp, near);
            let m = v.action_made(Action::MoveUp, near).state;
            &&& v.line() + 1 < rope::line_total(v.text) ==> down.cursor_byte() > v.cursor_byte()
            &&& down.text == v.text && up.text == v.text
            &&& m.cursor_byte() <= up.cursor_byte()
            &&& forall|k: int|
                m.cursor_byte() <= k < up.cursor_byte() ==> #[trigger] v.bytes()[k] != text::NEWLINE
            &&& v.line() > 0 ==> m.cursor_byte() < v.cursor_byte()
        }),
{
    move_laws::law_down_leads_on(v, near);
    move_laws::law_up_leads_back(v, near);
    crate::editor::laws::law_moves_keep_text(v, Action::MoveDown, near);
    crate::editor::laws::law_moves_keep_text(v, Action::MoveUp, near);
    let m = v.action_made(Action::MoveDown, near).state;
    let n = v.action_made(Action::MoveUp, near).state;
    reveal(EditorView::move_made);
    law_upkeep_of_moves_stays_on_line(m, v.text.len() as int, v.undo.len() as int);
    law_upkeep_of_moves_stays_on_line(n, v.text.len() as int, v.undo.len() as int);
    if v.line() + 1 < rope::line_total(v.text) {
        rope::lemma_part_bytes(v.text, v.cursor.offset as int, m.cursor.offset as int);
    }
    if v.line() > 0 {
        rope::lemma_part_bytes(v.text, n.cursor.offset as int, v.cursor.offset as int);
    }
    assert(apply::is_move(Action::MoveDown) && apply::is_move(Action::MoveUp));
}

} // verus!
