//! What undo takes back, and what runs of keys do at once.

use crate::document::graphemes;
use crate::document::history;
use crate::editor::edit_ops::action::{Action, Near};
use crate::editor::edit_ops::basic;
use crate::editor::edit_ops::command_laws;
use crate::editor::edit_ops::typing_laws;
use crate::editor::mode::Mode;
use crate::editor::state::EditorView;
use vstd::prelude::*;

verus! {

/// Insertions in a row make one edit, and so do deletions in a row, backwards or forwards;
/// an insertion elsewhere, or one after a deletion, makes an edit of its own.
pub proof fn law_rows_of_edits_are_one(top: history::Delta, new: history::Delta)
    requires
        new.removed.len() > 0 || new.inserted.len() > 0,
    ensures
        top.removed.len() == 0 && new.removed.len() == 0 && new.offset == top.offset
            + top.inserted.len() ==> (history::merged(top, new) matches Some(m) && m.offset
            == top.offset && m.removed.len() == 0 && m.inserted == top.inserted + new.inserted),
        top.inserted.len() == 0 && new.inserted.len() == 0 && top.removed.len() > 0 && new.offset
            + new.removed.len() == top.offset ==> (history::merged(top, new) matches Some(m)
            && m.offset == new.offset && m.inserted.len() == 0 && m.removed == new.removed
            + top.removed),
        top.inserted.len() == 0 && new.inserted.len() == 0 && top.removed.len() > 0
            && new.removed.len() > 0 && new.offset == top.offset ==> (history::merged(
            top,
            new,
        ) matches Some(m) && m.offset == top.offset && m.inserted.len() == 0 && m.removed
            == top.removed + new.removed),
        top.inserted.len() > 0 && new.inserted.len() > 0 && new.offset != top.offset
            + top.inserted.len() ==> history::merged(top, new) is None,
        top.removed.len() > 0 && new.inserted.len() > 0 ==> history::merged(top, new) is None,
        top.inserted.len() > 0 && new.removed.len() > 0 ==> history::merged(top, new) is None,
{
}

/// The state after a character was typed in the source view, with its history.
proof fn lemma_typed_char(v: EditorView, c: char, near: Near)
    requires
        v.cursor.offset <= v.text.len(),
        !v.readonly,
        v.mode == Mode::Raw,
        v.selection is None,
        !near.in_table,
        v.text.len() + 1 <= usize::MAX,
    ensures
        ({
            let w = v.acted(Action::InsertChar(c), near);
            let at = v.cursor.offset as int;
            let d = basic::splice(v.text, at, at, seq![c]);
            &&& w.text == v.text.subrange(0, at) + seq![c] + v.text.subrange(
                at,
                v.text.len() as int,
            )
            &&& w.text == d.redone(v.text)
            &&& w.cursor.offset == at + 1
            &&& w.selection is None
            &&& w.mode == Mode::Raw
            &&& w.undo == history::recorded(v.undo, d)
            &&& w.readonly == v.readonly
        }),
{
    let at = v.cursor.offset as int;
    let d = basic::splice(v.text, at, at, seq![c]);
    typing_laws::lemma_edit(v, at, at, seq![c]);
    let m = v.action_made(Action::InsertChar(c), near).state;
    assert(m == v.edited(d)) by {
        reveal(EditorView::edit_made);
        reveal(EditorView::char_typed);
    }
    assert(m.undo == history::recorded(v.undo, d) && m.text == d.redone(v.text) && m.readonly
        == v.readonly) by {
        reveal(EditorView::edited);
        reveal(EditorView::followed);
        reveal(EditorView::refreshed);
    }
    assert(v.action_made(Action::InsertChar(c), near).upkeep) by {
        reveal(EditorView::edit_made);
        reveal(EditorView::char_typed);
    }
    reveal(EditorView::settled);
}

/// Two characters typed one after the other are taken back by one undo, and the text is as
/// it was before the first, unless the first itself went on with an edit before it.
pub proof fn law_typing_is_undone_at_once(v: EditorView, near: Near, c: char, d: char)
    requires
        v.wf(),
        !v.readonly,
        v.mode == Mode::Raw,
        v.selection is None,
        !near.in_table,
        v.text.len() + 2 <= usize::MAX,
        v.undo.len() > 0 ==> (v.undo.last().removed.len() > 0 || v.undo.last().offset
            + v.undo.last().inserted.len() != v.cursor.offset),
    ensures
        ({
            let w = v.acted(Action::InsertChar(c), near);
            let x = w.acted(Action::InsertChar(d), near);
            &&& x.undo.len() == v.undo.len() + 1
            &&& x.acted(Action::Undo, near).text == v.text
        }),
{
    let w = v.acted(Action::InsertChar(c), near);
    let at = v.cursor.offset as int;
    lemma_typed_char(v, c, near);
    lemma_typed_char(w, d, near);
    let x = w.acted(Action::InsertChar(d), near);
    let first = basic::splice(v.text, at, at, seq![c]);
    let second = basic::splice(w.text, at + 1, at + 1, seq![d]);
    assert(v.text.subrange(at, at) =~= Seq::<char>::empty());
    assert(w.text.subrange(at + 1, at + 1) =~= Seq::<char>::empty());
    assert(history::recorded(v.undo, first) == v.undo.push(first));
    assert(w.undo.last() == first);
    history::law_merge_keeps_text(first, second, v.text);
    let m = history::merged(first, second)->0;
    assert(x.undo == w.undo.drop_last().push(m));
    assert(x.undo.last() == m);
    command_laws::lemma_history(x, near);
    assert(x.undone().text == m.undone(x.text)) by {
        reveal(EditorView::undo_made);
        reveal(EditorView::refreshed);
    }
}

proof fn lemma_graphemes_from(v: EditorView, i: int, n: nat, backward: bool)
    requires
        0 <= i <= v.text.len(),
    ensures
        backward ==> 0 <= v.graphemes_from(i, n, true) <= i,
        !backward ==> i <= v.graphemes_from(i, n, false) <= v.text.len(),
        backward && n > 0 && i > 0 ==> v.graphemes_from(i, n, true) < i,
        !backward && n > 0 && i < v.text.len() ==> i < v.graphemes_from(i, n, false),
    decreases n,
{
    if n > 0 {
        if backward && i > 0 {
            lemma_graphemes_from(
                v,
                graphemes::prev_boundary(v.text, i),
                (n - 1) as nat,
                backward,
            );
        }
        if !backward && i < v.text.len() {
            lemma_graphemes_from(
                v,
                graphemes::next_boundary(v.text, i),
                (n - 1) as nat,
                backward,
            );
        }
    }
}

/// A run of deletions takes out what stands directly before the cursor, or directly behind
/// it, up to where as many steps to the left or the right lead, and nothing else. One
/// deletion takes one character as the user sees it; none takes nothing.
pub proof fn law_run_of_deletions(v: EditorView, count: nat, backward: bool) -> (k: int)
    requires
        v.wf(),
        !v.readonly,
        v.mode == Mode::Raw,
        v.text.len() <= usize::MAX,
    ensures
        ({
            let w = v.run_erased(count, backward);
            let c = v.cursor.offset as int;
            let len = v.text.len() as int;
            &&& backward ==> 0 <= k <= c && w.text == v.text.subrange(0, k) + v.text.subrange(
                c,
                len,
            ) && w.cursor.offset == k
            &&& !backward ==> c <= k <= len && w.text == v.text.subrange(0, c) + v.text.subrange(
                k,
                len,
            ) && w.cursor.offset == c
            &&& count == 0 ==> k == c
            &&& count > 0 && backward && c > 0 ==> k < c
            &&& count > 0 && !backward && c < len ==> k > c
            &&& count == 1 && backward && c > 0 ==> k == graphemes::prev_boundary(v.text, c)
            &&& count == 1 && !backward && c < len ==> k == graphemes::next_boundary(v.text, c)
        }),
{
    let c = v.cursor.offset as int;
    let len = v.text.len() as int;
    let k = v.graphemes_from(c, count, backward);
    lemma_graphemes_from(v, c, count, backward);
    reveal_with_fuel(EditorView::graphemes_from, 2);
    let (start, end) = if backward {
        (k, c)
    } else {
        (c, k)
    };
    assert(v.text.subrange(0, c) + v.text.subrange(c, len) =~= v.text);
    if start < end {
        typing_laws::lemma_edit(v, start, end, Seq::empty());
        assert(v.text.subrange(0, start) + Seq::<char>::empty() =~= v.text.subrange(0, start));
    }
    k
}

} // verus!
