//! What typing, pasting and deleting do to the text.

use crate::document::buffer;
use crate::document::cursor;
use crate::document::graphemes;
use crate::document::selection::Selection;
use crate::editor::edit_ops::action::{Action, Near};
use crate::editor::edit_ops::apply;
use crate::editor::edit_ops::basic;
use crate::editor::edit_ops::edits;
use crate::editor::list_edit::edit;
use crate::editor::mode::Mode;
use crate::editor::state::EditorView;
use crate::text;
use vstd::prelude::*;

verus! {

/// The cursor is outside the lists that the rendered view keeps up.
pub open spec fn outside_lists(v: EditorView) -> bool {
    v.mode == Mode::Rendered ==> v.list() is None && edit::block_at(v.bytes(), v.cursor_byte())
        is None
}

/// What an edit does to a state that can be edited.
pub proof fn lemma_edit(v: EditorView, start: int, end: int, with: Seq<char>)
    requires
        !v.readonly,
        0 <= start <= end <= v.text.len(),
        start + with.len() <= usize::MAX,
    ensures
        ({
            let w = v.edited(basic::splice(v.text, start, end, with));
            &&& w.text == v.text.subrange(0, start) + with + v.text.subrange(
                end,
                v.text.len() as int,
            )
            &&& w.cursor.offset == start + with.len()
            &&& w.selection == v.selection
            &&& w.mode == v.mode
            &&& w.kill_ring == v.kill_ring
            &&& w.dirty
            &&& w.redo.len() == 0
            &&& w.undo.len() > 0
        }),
{
    reveal(EditorView::edited);
    reveal(EditorView::followed);
    reveal(EditorView::refreshed);
    let d = basic::splice(v.text, start, end, with);
    assert(d.redone(v.text) =~= v.text.subrange(0, start) + with + v.text.subrange(
        end,
        v.text.len() as int,
    ));
}

/// Outside lists the upkeep after an action changes neither the text nor the cursor nor
/// the selection.
pub proof fn law_upkeep_outside_lists(v: EditorView, a: Action, near: Near)
    requires
        outside_lists(v.action_made(a, near).state),
    ensures
        ({
            let m = v.action_made(a, near).state;
            let w = v.acted(a, near);
            &&& w.text == m.text
            &&& w.cursor == m.cursor
            &&& w.selection == m.selection
            &&& w.mode == m.mode
            &&& w.undo == m.undo
            &&& w.kill_ring == m.kill_ring
        }),
{
    reveal(EditorView::settled);
    reveal(EditorView::refreshed);
}

/// In an editing view, what is typed takes the place of the selection, and stands at the
/// cursor where nothing is selected. Nothing is selected then, and the cursor is behind
/// it.
proof fn lemma_typed(v: EditorView, t: Seq<char>)
    requires
        v.wf(),
        !v.readonly,
        v.text.len() + t.len() <= usize::MAX,
    ensures
        v.typed(t).mode == v.mode,
        v.typed(t).kill_ring == v.kill_ring,
        v.typed(t).selection is None,
        v.selection is None ==> v.typed(t).text == v.text.subrange(0, v.cursor.offset as int) + t
            + v.text.subrange(v.cursor.offset as int, v.text.len() as int)
            && v.typed(t).cursor.offset == v.cursor.offset + t.len(),
        v.selection matches Some(sel) ==> sel.anchor <= v.text.len() && sel.active <= v.text.len()
            ==> {
            let start = if sel.anchor <= sel.active {
                sel.anchor as int
            } else {
                sel.active as int
            };
            let end = if sel.anchor <= sel.active {
                sel.active as int
            } else {
                sel.anchor as int
            };
            &&& v.typed(t).text == v.text.subrange(0, start) + t + v.text.subrange(
                end,
                v.text.len() as int,
            )
            &&& v.typed(t).cursor.offset == start + t.len()
        },
{
    reveal(EditorView::at);
    reveal(EditorView::selecting);
    match v.selection {
        Some(sel) => {
            let start = basic::bounded(v.text, sel.low() as int);
            let end = basic::bounded(v.text, sel.high() as int);
            lemma_edit(v.selecting(None).at(start), start, end, t);
        },
        None => {
            lemma_edit(v, v.cursor.offset as int, v.cursor.offset as int, t);
        },
    }
}

/// A typed character takes the place of the selection: what stood before and behind it
/// stays, and nothing is selected any more. In a table a bar is put in behind a
/// backslash.
pub proof fn law_typing_replaces_selection(v: EditorView, c: char, near: Near, sel: Selection)
    requires
        v.wf(),
        !v.readonly,
        v.mode != Mode::Preview,
        v.selection == Some(sel),
        sel.anchor <= v.text.len(),
        sel.active <= v.text.len(),
        v.text.len() + 2 <= usize::MAX,
    ensures
        ({
            let w = v.action_made(Action::InsertChar(c), near).state;
            let start = if sel.anchor <= sel.active {
                sel.anchor as int
            } else {
                sel.active as int
            };
            let end = if sel.anchor <= sel.active {
                sel.active as int
            } else {
                sel.anchor as int
            };
            let t = if c == '|' && near.in_table {
                seq!['\\', c]
            } else {
                seq![c]
            };
            &&& w.text == v.text.subrange(0, start) + t + v.text.subrange(
                end,
                v.text.len() as int,
            )
            &&& w.cursor.offset == start + t.len()
            &&& w.selection is None
            &&& w.mode == v.mode
            &&& outside_lists(w) ==> v.acted(Action::InsertChar(c), near).text == w.text
        }),
{
    reveal(EditorView::edit_made);
    reveal(EditorView::char_typed);
    lemma_typed(v, edits::typed_char(c, near.in_table));
    assert(edits::typed_char(c, near.in_table) =~= if c == '|' && near.in_table {
        seq!['\\', c]
    } else {
        seq![c]
    });
    if outside_lists(v.action_made(Action::InsertChar(c), near).state) {
        law_upkeep_outside_lists(v, Action::InsertChar(c), near);
    }
}

/// A typed character stands at the cursor, where nothing is selected, and the cursor goes
/// behind it.
pub proof fn law_typing_stands_at_cursor(v: EditorView, c: char, near: Near)
    requires
        v.wf(),
        !v.readonly,
        v.mode != Mode::Preview,
        v.selection is None,
        v.text.len() + 2 <= usize::MAX,
    ensures
        ({
            let w = v.action_made(Action::InsertChar(c), near).state;
            let at = v.cursor.offset as int;
            let t = if c == '|' && near.in_table {
                seq!['\\', c]
            } else {
                seq![c]
            };
            &&& w.text == v.text.subrange(0, at) + t + v.text.subrange(at, v.text.len() as int)
            &&& w.cursor.offset == at + t.len()
            &&& w.selection is None
            &&& w.mode == v.mode
            &&& outside_lists(w) ==> v.acted(Action::InsertChar(c), near).text == w.text
        }),
{
    reveal(EditorView::edit_made);
    reveal(EditorView::char_typed);
    lemma_typed(v, edits::typed_char(c, near.in_table));
    assert(edits::typed_char(c, near.in_table) =~= if c == '|' && near.in_table {
        seq!['\\', c]
    } else {
        seq![c]
    });
    if outside_lists(v.action_made(Action::InsertChar(c), near).state) {
        law_upkeep_outside_lists(v, Action::InsertChar(c), near);
    }
}

/// A text without carriage returns is its own normal form.
proof fn lemma_normal(t: Seq<char>)
    requires
        forall|i: int| 0 <= i < t.len() ==> #[trigger] t[i] != '\r',
    ensures
        buffer::normalized(t) == t,
    decreases t.len(),
{
    if t.len() > 0 {
        let rest = t.drop_first();
        assert forall|i: int| 0 <= i < rest.len() implies #[trigger] rest[i] != '\r' by {
            assert(rest[i] == t[i + 1]);
        }
        lemma_normal(rest);
        assert(seq![t[0]] + rest =~= t);
    }
}

/// A paste puts the clipboard's text in the place of the selection, and nothing is
/// selected any more: the text of the system where that can be read, else the editor's
/// own. Without a selection it stands at the cursor. An empty clipboard changes nothing.
pub proof fn law_paste_replaces_selection(v: EditorView, near: Near, t: Seq<char>)
    requires
        v.wf(),
        !v.readonly,
        v.mode != Mode::Preview,
        match near.clipboard {
            Some(c) => c@ == t,
            None => v.kill_ring == t,
        },
        forall|i: int| 0 <= i < t.len() ==> #[trigger] t[i] != '\r',
        v.selection matches Some(sel) ==> sel.anchor <= v.text.len() && sel.active <= v.text.len(),
        v.text.len() + t.len() <= usize::MAX,
    ensures
        ({
            let w = v.action_made(Action::Paste, near).state;
            let start = match v.selection {
                Some(sel) => if sel.anchor <= sel.active {
                    sel.anchor as int
                } else {
                    sel.active as int
                },
                None => v.cursor.offset as int,
            };
            let end = match v.selection {
                Some(sel) => if sel.anchor <= sel.active {
                    sel.active as int
                } else {
                    sel.anchor as int
                },
                None => v.cursor.offset as int,
            };
            &&& t.len() == 0 ==> w.text == v.text && w.cursor == v.cursor
            &&& t.len() > 0 ==> {
                &&& w.text == v.text.subrange(0, start) + t + v.text.subrange(
                    end,
                    v.text.len() as int,
                )
                &&& w.cursor.offset == start + t.len()
                &&& w.selection is None
            }
            &&& w.kill_ring == v.kill_ring
            &&& outside_lists(w) ==> v.acted(Action::Paste, near).text == w.text
        }),
{
    reveal(EditorView::edit_made);
    reveal(EditorView::pasted);
    lemma_normal(t);
    lemma_typed(v, t);
    if outside_lists(v.action_made(Action::Paste, near).state) {
        law_upkeep_outside_lists(v, Action::Paste, near);
    }
}

/// A text that the terminal pastes takes the place of the selection, or stands at the
/// cursor, as a paste from the clipboard does.
pub proof fn law_terminal_paste_replaces_selection(v: EditorView, height: int, t: Seq<char>)
    requires
        v.wf(),
        !v.readonly,
        v.mode == Mode::Raw,
        t.len() > 0,
        forall|i: int| 0 <= i < t.len() ==> #[trigger] t[i] != '\r',
        v.selection matches Some(sel) ==> sel.anchor <= v.text.len() && sel.active <= v.text.len(),
        v.text.len() + t.len() <= usize::MAX,
    ensures
        ({
            let w = v.text_pasted(t, height);
            let start = match v.selection {
                Some(sel) => if sel.anchor <= sel.active {
                    sel.anchor as int
                } else {
                    sel.active as int
                },
                None => v.cursor.offset as int,
            };
            let end = match v.selection {
                Some(sel) => if sel.anchor <= sel.active {
                    sel.active as int
                } else {
                    sel.anchor as int
                },
                None => v.cursor.offset as int,
            };
            &&& w.text == v.text.subrange(0, start) + t + v.text.subrange(end, v.text.len() as int)
            &&& w.cursor.offset == start + t.len()
            &&& w.selection is None
        }),
{
    lemma_normal(t);
    lemma_typed(v, t);
}

/// The enter key outside lists and tables breaks the line: one line feed, in the place of
/// the selection or at the cursor.
pub proof fn law_enter_breaks_line(v: EditorView, near: Near)
    requires
        v.wf(),
        !v.readonly,
        v.mode != Mode::Preview,
        !near.in_table,
        v.list() is None,
        v.selection matches Some(sel) ==> sel.anchor <= v.text.len() && sel.active <= v.text.len(),
        v.text.len() + 1 <= usize::MAX,
    ensures
        ({
            let w = v.action_made(Action::Newline, near).state;
            let start = match v.selection {
                Some(sel) => if sel.anchor <= sel.active {
                    sel.anchor as int
                } else {
                    sel.active as int
                },
                None => v.cursor.offset as int,
            };
            let end = match v.selection {
                Some(sel) => if sel.anchor <= sel.active {
                    sel.active as int
                } else {
                    sel.anchor as int
                },
                None => v.cursor.offset as int,
            };
            &&& w.text == v.text.subrange(0, start) + seq!['\n'] + v.text.subrange(
                end,
                v.text.len() as int,
            )
            &&& w.cursor.offset == start + 1
            &&& w.selection is None
            &&& outside_lists(w) ==> v.acted(Action::Newline, near).text == w.text
        }),
{
    reveal(EditorView::edit_made);
    reveal(EditorView::newline_typed);
    lemma_typed(v, seq!['\n']);
    if outside_lists(v.action_made(Action::Newline, near).state) {
        law_upkeep_outside_lists(v, Action::Newline, near);
    }
}

/// The tab key outside lists and tables puts in as many spaces as one level of
/// indentation takes, and nothing else.
pub proof fn law_tab_puts_spaces(v: EditorView, near: Near)
    requires
        v.wf(),
        !v.readonly,
        v.mode != Mode::Preview,
        !near.in_table,
        v.list() is None,
        v.selection is None,
        v.text.len() + v.settings.indent_width <= usize::MAX,
    ensures
        ({
            let w = v.action_made(Action::InsertTab, near).state;
            let at = v.cursor.offset as int;
            let n = v.settings.indent_width as int;
            &&& w.text.len() == v.text.len() + n
            &&& w.text.subrange(0, at) == v.text.subrange(0, at)
            &&& forall|i: int| at <= i < at + n ==> #[trigger] w.text[i] == ' '
            &&& w.text.subrange(at + n, w.text.len() as int) == v.text.subrange(
                at,
                v.text.len() as int,
            )
            &&& w.cursor.offset == at + n
            &&& outside_lists(w) ==> v.acted(Action::InsertTab, near).text == w.text
        }),
{
    reveal(EditorView::edit_made);
    reveal(EditorView::tab_typed);
    let n = v.settings.indent_width as nat;
    lemma_typed(v, edits::blanks(n));
    let w = v.action_made(Action::InsertTab, near).state;
    let at = v.cursor.offset as int;
    assert(w.text.subrange(0, at) =~= v.text.subrange(0, at));
    assert(w.text.subrange(at + n, w.text.len() as int) =~= v.text.subrange(
        at,
        v.text.len() as int,
    ));
    if outside_lists(w) {
        law_upkeep_outside_lists(v, Action::InsertTab, near);
    }
}

/// A break in a table's cell is the tag for one, and elsewhere a line feed.
pub proof fn law_table_break(v: EditorView, near: Near)
    requires
        v.wf(),
        !v.readonly,
        v.mode != Mode::Preview,
        v.selection is None,
        v.text.len() + 4 <= usize::MAX,
    ensures
        ({
            let w = v.action_made(Action::TableInsertBreak, near).state;
            let at = v.cursor.offset as int;
            w.text == v.text.subrange(0, at) + (if near.in_table {
                seq!['<', 'b', 'r', '>']
            } else {
                seq!['\n']
            }) + v.text.subrange(at, v.text.len() as int)
        }),
{
    reveal(EditorView::table_asked);
    reveal(EditorView::broken);
    lemma_typed(v, seq!['<', 'b', 'r', '>']);
    lemma_typed(v, seq!['\n']);
}

proof fn lemma_run_text(chars: Seq<char>, in_table: bool)
    requires
        !in_table || forall|i: int| 0 <= i < chars.len() ==> #[trigger] chars[i] != '|',
    ensures
        apply::run_text(chars, in_table) == chars,
    decreases chars.len(),
{
    if chars.len() > 0 {
        let rest = chars.drop_last();
        assert forall|i: int| in_table && 0 <= i < rest.len() implies #[trigger] rest[i] != '|' by {
            assert(rest[i] == chars[i]);
        }
        lemma_run_text(rest, in_table);
        assert(chars.last() == chars[chars.len() - 1]);
        assert(rest + seq![chars.last()] =~= chars);
    }
}

/// A run of typed characters stands in the text as it was typed, one after the other, in
/// the place of the selection or at the cursor.
pub proof fn law_run_is_typed_in_order(v: EditorView, chars: Seq<char>, in_table: bool)
    requires
        v.wf(),
        !v.readonly,
        v.mode == Mode::Raw,
        chars.len() > 0,
        !in_table || forall|i: int| 0 <= i < chars.len() ==> #[trigger] chars[i] != '|',
        v.selection matches Some(sel) ==> sel.anchor <= v.text.len() && sel.active <= v.text.len(),
        v.text.len() + chars.len() <= usize::MAX,
    ensures
        ({
            let w = v.run_typed(chars, in_table);
            let start = match v.selection {
                Some(sel) => if sel.anchor <= sel.active {
                    sel.anchor as int
                } else {
                    sel.active as int
                },
                None => v.cursor.offset as int,
            };
            let end = match v.selection {
                Some(sel) => if sel.anchor <= sel.active {
                    sel.active as int
                } else {
                    sel.anchor as int
                },
                None => v.cursor.offset as int,
            };
            &&& w.text == v.text.subrange(0, start) + chars + v.text.subrange(
                end,
                v.text.len() as int,
            )
            &&& w.cursor.offset == start + chars.len()
            &&& w.selection is None
        }),
{
    lemma_run_text(chars, in_table);
    lemma_typed(v, chars);
}

/// In a table every bar of a run stands behind a backslash, so that no cell is split.
pub proof fn law_run_bars_are_escaped(chars: Seq<char>, k: int)
    requires
        0 <= k < apply::run_text(chars, true).len(),
        apply::run_text(chars, true)[k] == '|',
    ensures
        k > 0,
        apply::run_text(chars, true)[k - 1] == '\\',
    decreases chars.len(),
{
    if chars.len() > 0 {
        let rest = apply::run_text(chars.drop_last(), true);
        if k < rest.len() {
            law_run_bars_are_escaped(chars.drop_last(), k);
        }
    }
}

// ── Deleting ─────────────────────────────────────────────────────────────
/// What is deleted is the selection, where there is one: what stood before and behind it
/// stays, the cursor is where it was, and nothing is selected any more.
pub proof fn law_deleting_takes_selection(v: EditorView, near: Near, sel: Selection, a: Action)
    requires
        v.wf(),
        !v.readonly,
        v.mode != Mode::Preview,
        v.selection == Some(sel),
        sel.anchor != sel.active,
        sel.anchor <= v.text.len(),
        sel.active <= v.text.len(),
        a is DeleteCharBack || a is DeleteCharForward || a is Cut,
        v.text.len() <= usize::MAX,
    ensures
        ({
            let w = v.action_made(a, near).state;
            let start = if sel.anchor <= sel.active {
                sel.anchor as int
            } else {
                sel.active as int
            };
            let end = if sel.anchor <= sel.active {
                sel.active as int
            } else {
                sel.anchor as int
            };
            &&& w.text == v.text.subrange(0, start) + v.text.subrange(end, v.text.len() as int)
            &&& w.cursor.offset == start
            &&& w.selection is None
            &&& a is Cut ==> w.kill_ring == v.text.subrange(start, end)
            &&& !(a is Cut) ==> w.kill_ring == v.kill_ring
            &&& outside_lists(w) ==> v.acted(a, near).text == w.text
        }),
{
    reveal(EditorView::edit_made);
    reveal(EditorView::erased_back);
    reveal(EditorView::erased_forward);
    reveal(EditorView::cut);
    reveal(EditorView::at);
    reveal(EditorView::selecting);
    reveal(EditorView::holding);
    let start = sel.low() as int;
    let end = sel.high() as int;
    lemma_edit(v.selecting(None).at(start), start, end, Seq::empty());
    lemma_edit(
        v.holding(sel.text_of(v.text)).selecting(None).at(start),
        start,
        end,
        Seq::empty(),
    );
    assert(v.text.subrange(0, start) + Seq::<char>::empty() =~= v.text.subrange(0, start));
    if outside_lists(v.action_made(a, near).state) {
        law_upkeep_outside_lists(v, a, near);
    }
}

/// In the source view the upkeep changes neither the text nor the cursor.
pub proof fn lemma_settled_raw(m: EditorView, v: EditorView)
    ensures
        m.mode == Mode::Raw ==> {
            let w = m.settled(v.text.len() as int, v.undo.len() as int, false);
            w.text == m.text && w.cursor == m.cursor && w.selection == m.selection
        },
{
    reveal(EditorView::settled);
}

/// Where the movements to the sides lead in the source view.
pub proof fn lemma_sideways(v: EditorView, near: Near)
    requires
        v.mode == Mode::Raw,
    ensures
        v.acted(Action::MoveLeft, near).cursor.offset == (if v.cursor.offset == 0 {
            0
        } else {
            graphemes::prev_boundary(v.text, v.cursor.offset as int)
        }) as usize,
        v.acted(Action::MoveRight, near).cursor.offset == (if v.cursor.offset == v.text.len() {
            v.cursor.offset as int
        } else {
            graphemes::next_boundary(v.text, v.cursor.offset as int)
        }) as usize,
{
    reveal(EditorView::move_made);
    reveal(EditorView::moved_sideways);
    reveal(EditorView::moved);
    reveal(EditorView::selecting);
    reveal(EditorView::aimed_at);
    reveal(EditorView::followed);
    lemma_settled_raw(v.action_made(Action::MoveLeft, near).state, v);
    lemma_settled_raw(v.action_made(Action::MoveRight, near).state, v);
}

/// Where the movements by a word lead in the source view.
pub proof fn lemma_by_word(v: EditorView, near: Near)
    requires
        v.mode == Mode::Raw,
    ensures
        v.acted(Action::MoveWordLeft, near).cursor.offset == cursor::skip_back(
            v.text,
            cursor::skip_back(v.text, v.cursor.offset as int, true),
            false,
        ) as usize,
        v.acted(Action::MoveWordRight, near).cursor.offset == cursor::skip_forward(
            v.text,
            cursor::skip_forward(v.text, v.cursor.offset as int, false),
            true,
        ) as usize,
{
    reveal(EditorView::move_made);
    reveal(EditorView::moved_along);
    reveal(EditorView::moved);
    reveal(EditorView::selecting);
    reveal(EditorView::aimed_at);
    reveal(EditorView::followed);
    lemma_settled_raw(v.action_made(Action::MoveWordLeft, near).state, v);
    lemma_settled_raw(v.action_made(Action::MoveWordRight, near).state, v);
}

/// Deleting backwards takes what stands directly before the cursor, and puts the cursor
/// where that began: there the key for the left leads as well. At the start of the text
/// nothing happens.
pub proof fn law_backspace_takes_what_left_passes(v: EditorView, near: Near)
    requires
        v.wf(),
        !v.readonly,
        v.mode == Mode::Raw,
        v.selection is None,
        v.text.len() <= usize::MAX,
    ensures
        ({
            let w = v.acted(Action::DeleteCharBack, near);
            let c = v.cursor.offset as int;
            let k = v.acted(Action::MoveLeft, near).cursor.offset as int;
            &&& c > 0 ==> k < c
            &&& c == 0 ==> k == 0
            &&& w.text == v.text.subrange(0, k) + v.text.subrange(c, v.text.len() as int)
            &&& w.cursor.offset == k
        }),
{
    let c = v.cursor.offset as int;
    let k = graphemes::prev_boundary(v.text, c);
    lemma_sideways(v, near);
    if c > 0 {
        lemma_edit(v, k, c, Seq::empty());
        assert(v.text.subrange(0, k) + Seq::<char>::empty() =~= v.text.subrange(0, k));
    } else {
        assert(v.text.subrange(0, 0) + v.text.subrange(0, v.text.len() as int) =~= v.text);
    }
    reveal(EditorView::edit_made);
    reveal(EditorView::erased_back);
    lemma_settled_raw(v.action_made(Action::DeleteCharBack, near).state, v);
}

/// Deleting forwards takes what stands directly behind the cursor, as far as the key for
/// the right leads, and leaves the cursor where it is.
pub proof fn law_delete_takes_what_right_passes(v: EditorView, near: Near)
    requires
        v.wf(),
        !v.readonly,
        v.mode == Mode::Raw,
        v.selection is None,
        v.text.len() <= usize::MAX,
    ensures
        ({
            let w = v.acted(Action::DeleteCharForward, near);
            let c = v.cursor.offset as int;
            let k = v.acted(Action::MoveRight, near).cursor.offset as int;
            &&& c < v.text.len() ==> k > c
            &&& c == v.text.len() ==> k == c
            &&& w.cursor.offset == c
            &&& w.text == v.text.subrange(0, c) + v.text.subrange(k, v.text.len() as int)
        }),
{
    let c = v.cursor.offset as int;
    let k = graphemes::next_boundary(v.text, c);
    lemma_sideways(v, near);
    if c < v.text.len() {
        lemma_edit(v, c, k, Seq::empty());
        assert(v.text.subrange(0, c) + Seq::<char>::empty() =~= v.text.subrange(0, c));
    } else {
        assert(v.text.subrange(0, c) + v.text.subrange(c, v.text.len() as int) =~= v.text);
    }
    reveal(EditorView::edit_made);
    reveal(EditorView::erased_forward);
    lemma_settled_raw(v.action_made(Action::DeleteCharForward, near).state, v);
}

/// Deleting the word before the cursor takes what the movement by a word to the left
/// passes.
pub proof fn law_word_back_takes_what_move_passes(v: EditorView, near: Near)
    requires
        v.wf(),
        !v.readonly,
        v.mode == Mode::Raw,
        v.text.len() <= usize::MAX,
    ensures
        ({
            let c = v.cursor.offset as int;
            let w = v.acted(Action::DeleteWordBack, near);
            let k = v.acted(Action::MoveWordLeft, near).cursor.offset as int;
            &&& c > 0 ==> k < c
            &&& c == 0 ==> k == 0
            &&& w.text == v.text.subrange(0, k) + v.text.subrange(c, v.text.len() as int)
            &&& w.cursor.offset == k
        }),
{
    let c = v.cursor.offset as int;
    let len = v.text.len() as int;
    lemma_by_word(v, near);
    let mid = cursor::skip_back(v.text, c, true);
    let left = cursor::skip_back(v.text, mid, false);
    lemma_skip_back(v.text, c, true);
    lemma_skip_back(v.text, mid, false);
    let e = v.selecting(None);
    assert(e.text == v.text && e.cursor == v.cursor && !e.readonly && e.mode == v.mode) by {
        reveal(EditorView::selecting);
    }
    let f = e.at(left).aimed();
    assert(f.text == v.text && !f.readonly && f.mode == v.mode) by {
        reveal(EditorView::at);
        reveal(EditorView::aimed);
    }
    if left < c {
        lemma_edit(f, left, c, Seq::empty());
        assert(v.text.subrange(0, left) + Seq::<char>::empty() =~= v.text.subrange(0, left));
    }
    reveal(EditorView::edit_made);
    reveal(EditorView::word_erased_back);
    lemma_settled_raw(v.action_made(Action::DeleteWordBack, near).state, v);
    assert(v.text.subrange(0, c) + v.text.subrange(c, len) =~= v.text);
}

/// Deleting the word behind the cursor takes what the movement by a word to the right
/// passes.
pub proof fn law_word_forward_takes_what_move_passes(v: EditorView, near: Near)
    requires
        v.wf(),
        !v.readonly,
        v.mode == Mode::Raw,
        v.text.len() <= usize::MAX,
    ensures
        ({
            let c = v.cursor.offset as int;
            let w = v.acted(Action::DeleteWordForward, near);
            let k = v.acted(Action::MoveWordRight, near).cursor.offset as int;
            &&& c < v.text.len() ==> k > c
            &&& c == v.text.len() ==> k == c
            &&& w.text == v.text.subrange(0, c) + v.text.subrange(k, v.text.len() as int)
            &&& w.cursor.offset == c
        }),
{
    let c = v.cursor.offset as int;
    let len = v.text.len() as int;
    lemma_by_word(v, near);
    let far = cursor::skip_forward(v.text, c, false);
    let right = cursor::skip_forward(v.text, far, true);
    lemma_skip_forward(v.text, c, false);
    lemma_skip_forward(v.text, far, true);
    let e = v.selecting(None);
    assert(e.text == v.text && e.cursor == v.cursor && !e.readonly && e.mode == v.mode) by {
        reveal(EditorView::selecting);
    }
    if c < right {
        lemma_edit(e, c, right, Seq::empty());
        assert(v.text.subrange(0, c) + Seq::<char>::empty() =~= v.text.subrange(0, c));
    }
    reveal(EditorView::edit_made);
    reveal(EditorView::word_erased_forward);
    lemma_settled_raw(v.action_made(Action::DeleteWordForward, near).state, v);
    assert(v.text.subrange(0, c) + v.text.subrange(c, len) =~= v.text);
}

/// Where a movement by a word ends: to the left before a word, that is at the start of the
/// text or behind a blank; to the right at the start of the next word, or at the end.
pub proof fn law_word_moves_end_at_words(v: EditorView, near: Near)
    requires
        v.wf(),
        v.mode == Mode::Raw,
        v.text.len() <= usize::MAX,
    ensures
        ({
            let left = v.acted(Action::MoveWordLeft, near).cursor.offset as int;
            let right = v.acted(Action::MoveWordRight, near).cursor.offset as int;
            &&& 0 <= left <= v.cursor.offset <= right <= v.text.len()
            &&& left > 0 ==> text::is_whitespace_char(v.text[left - 1])
            &&& right < v.text.len() ==> !text::is_whitespace_char(v.text[right])
        }),
{
    let c = v.cursor.offset as int;
    lemma_by_word(v, near);
    lemma_skip_back(v.text, c, true);
    lemma_skip_back(v.text, cursor::skip_back(v.text, c, true), false);
    lemma_skip_forward(v.text, c, false);
    lemma_skip_forward(v.text, cursor::skip_forward(v.text, c, false), true);
}

/// Where a backward skip stops.
pub proof fn lemma_skip_back(s: Seq<char>, i: int, ws: bool)
    requires
        0 <= i <= s.len(),
    ensures
        ({
            let k = cursor::skip_back(s, i, ws);
            &&& 0 <= k <= i
            &&& k == 0 || text::is_whitespace_char(s[k - 1]) != ws
            &&& i > 0 && text::is_whitespace_char(s[i - 1]) == ws ==> k < i
        }),
    decreases i,
{
    if 0 < i && text::is_whitespace_char(s[i - 1]) == ws {
        lemma_skip_back(s, graphemes::prev_boundary(s, i), ws);
    }
}

/// Where a forward skip stops.
pub proof fn lemma_skip_forward(s: Seq<char>, i: int, ws: bool)
    requires
        0 <= i <= s.len(),
    ensures
        ({
            let k = cursor::skip_forward(s, i, ws);
            &&& i <= k <= s.len()
            &&& k == s.len() || text::is_whitespace_char(s[k]) != ws
            &&& i < s.len() && text::is_whitespace_char(s[i]) == ws ==> k > i
        }),
    decreases s.len() - i,
{
    if i < s.len() && text::is_whitespace_char(s[i]) == ws {
        lemma_skip_forward(s, graphemes::next_boundary(s, i), ws);
    }
}

proof fn lemma_skip_back_plain(s: Seq<char>, i: int, ws: bool)
    requires
        0 <= i <= s.len(),
        forall|k: int| 0 < k <= s.len() ==> #[trigger] graphemes::prev_boundary(s, k) == k - 1,
    ensures
        forall|j: int|
            cursor::skip_back(s, i, ws) <= j < i ==> text::is_whitespace_char(#[trigger] s[j])
                == ws,
    decreases i,
{
    if 0 < i && text::is_whitespace_char(s[i - 1]) == ws {
        assert(graphemes::prev_boundary(s, i) == i - 1);
        lemma_skip_back_plain(s, i - 1, ws);
    }
}

proof fn lemma_skip_forward_plain(s: Seq<char>, i: int, ws: bool)
    requires
        0 <= i <= s.len(),
        forall|k: int| 0 <= k < s.len() ==> #[trigger] graphemes::next_boundary(s, k) == k + 1,
    ensures
        forall|j: int|
            i <= j < cursor::skip_forward(s, i, ws) ==> text::is_whitespace_char(#[trigger] s[j])
                == ws,
    decreases s.len() - i,
{
    if i < s.len() && text::is_whitespace_char(s[i]) == ws {
        assert(graphemes::next_boundary(s, i) == i + 1);
        lemma_skip_forward_plain(s, i + 1, ws);
    }
}

/// In a text of plain characters a movement by a word passes one word and the blanks beside
/// it: to the left the blanks first and then the word before them, to the right the rest
/// of the word and then the blanks behind it. `r` tells where the blanks and the word meet.
pub proof fn law_word_moves_pass_one_word(v: EditorView, near: Near) -> (r: (int, int))
    requires
        v.wf(),
        v.mode == Mode::Raw,
        v.text.len() <= usize::MAX,
        forall|k: int|
            0 < k <= v.text.len() ==> #[trigger] graphemes::prev_boundary(v.text, k) == k - 1,
        forall|k: int|
            0 <= k < v.text.len() ==> #[trigger] graphemes::next_boundary(v.text, k) == k + 1,
    ensures
        ({
            let left = v.acted(Action::MoveWordLeft, near).cursor.offset as int;
            let right = v.acted(Action::MoveWordRight, near).cursor.offset as int;
            let c = v.cursor.offset as int;
            &&& 0 <= left <= r.0 <= c <= r.1 <= right <= v.text.len()
            &&& forall|j: int| r.0 <= j < c ==> text::is_whitespace_char(#[trigger] v.text[j])
            &&& forall|j: int| left <= j < r.0 ==> !text::is_whitespace_char(#[trigger] v.text[j])
            &&& left > 0 ==> text::is_whitespace_char(v.text[left - 1])
            &&& forall|j: int| c <= j < r.1 ==> !text::is_whitespace_char(#[trigger] v.text[j])
            &&& forall|j: int| r.1 <= j < right ==> text::is_whitespace_char(#[trigger] v.text[j])
            &&& right < v.text.len() ==> !text::is_whitespace_char(v.text[right])
        }),
{
    let c = v.cursor.offset as int;
    let s = v.text;
    lemma_by_word(v, near);
    let mid = cursor::skip_back(s, c, true);
    lemma_skip_back(s, c, true);
    lemma_skip_back(s, mid, false);
    lemma_skip_back_plain(s, c, true);
    lemma_skip_back_plain(s, mid, false);
    let far = cursor::skip_forward(s, c, false);
    lemma_skip_forward(s, c, false);
    lemma_skip_forward(s, far, true);
    lemma_skip_forward_plain(s, c, false);
    lemma_skip_forward_plain(s, far, true);
    (mid, far)
}

} // verus!
