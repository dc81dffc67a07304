//! What the commands of the editor do and ask for.

use crate::document::buffer;
use crate::document::buffer::LineEnding;
use crate::document::cursor;
use crate::document::rope;
use crate::document::selection::{Selection, VisualSelection};
use crate::editor::edit_ops::action::{Action, Near, Scrolling, TableCommand};
use crate::editor::edit_ops::edits;
use crate::editor::edit_ops::emphasis;
use crate::editor::edit_ops::move_laws;
use crate::editor::edit_ops::typing_laws;
use crate::editor::mode::Mode;
use crate::editor::motion::Motion;
use crate::editor::state;
use crate::editor::state::EditorView;
use vstd::prelude::*;

verus! {

// ── Lines ────────────────────────────────────────────────────────────────
/// `k..e` is the whole line that index `c` is on, with its line break.
pub open spec fn is_whole_line(s: Seq<char>, k: int, c: int, e: int) -> bool {
    &&& 0 <= k <= c <= e <= s.len()
    &&& k == 0 || rope::ends_line(s, k - 1)
    &&& forall|j: int| k <= j < c ==> !rope::ends_line(s, j)
    &&& e == s.len() || rope::ends_line(s, e - 1)
    &&& forall|j: int| k <= j && j + 1 < e ==> !#[trigger] rope::ends_line(s, j)
    &&& e == c ==> c == s.len()
}

/// The line of an offset is the stretch between two line breaks around it.
pub proof fn lemma_whole_line(s: Seq<char>, c: int)
    requires
        0 <= c <= s.len(),
    ensures
        is_whole_line(
            s,
            rope::line_begin(s, cursor::line_of(s, c)),
            c,
            edits::line_past(s, cursor::line_of(s, c)),
        ),
        edits::line_past(s, cursor::line_of(s, c)) == rope::line_begin(
            s,
            cursor::line_of(s, c) + 1,
        ),
{
    let line = cursor::line_of(s, c);
    let k = rope::line_begin(s, line);
    let e = rope::line_begin(s, line + 1);
    rope::lemma_line_of(s, c);
    rope::lemma_line_begin(s, line);
    rope::lemma_line_begin(s, line + 1);
    if k > 0 {
        assert(rope::lines_before(s, k - 1) < line);
    }
    assert forall|j: int| k <= j < c implies !rope::ends_line(s, j) by {
        rope::lemma_lines_before_monotone(s, k, j);
        rope::lemma_lines_before_monotone(s, j + 1, c);
    }
    if line + 1 < rope::line_total(s) {
        rope::lemma_line_begin_monotone(s, line, line + 1);
        assert(rope::lines_before(s, e - 1) < line + 1);
        assert forall|j: int| k <= j && j + 1 < e implies !#[trigger] rope::ends_line(s, j) by {
            rope::lemma_lines_before_monotone(s, k, j);
            assert(rope::lines_before(s, j + 1) < line + 1);
        }
    } else {
        assert forall|j: int| k <= j && j + 1 < e implies !#[trigger] rope::ends_line(s, j) by {
            rope::lemma_lines_before_monotone(s, k, j);
            rope::lemma_lines_before_monotone(s, j + 1, s.len() as int);
        }
    }
}

/// A line is told by its breaks.
pub proof fn lemma_line_unique(s: Seq<char>, c: int, k: int, e: int, k2: int, e2: int)
    requires
        is_whole_line(s, k, c, e),
        is_whole_line(s, k2, c, e2),
    ensures
        k == k2,
        e == e2,
{
    if k < k2 {
        assert(rope::ends_line(s, k2 - 1));
    }
    if k2 < k {
        assert(rope::ends_line(s, k - 1));
    }
    if e < e2 {
        assert(rope::ends_line(s, e - 1));
    }
    if e2 < e {
        assert(rope::ends_line(s, e2 - 1));
    }
}

/// Deleting a line takes out the line that the cursor is on, with its line break, and
/// nothing else; the cursor is where the line began.
pub proof fn law_delete_line_takes_the_line(v: EditorView, near: Near, k: int, e: int)
    requires
        v.wf(),
        !v.readonly,
        v.mode == Mode::Raw,
        v.text.len() <= usize::MAX,
        is_whole_line(v.text, k, v.cursor.offset as int, e),
    ensures
        ({
            let w = v.acted(Action::DeleteLine, near);
            &&& w.text == v.text.subrange(0, k) + v.text.subrange(e, v.text.len() as int)
            &&& k < e ==> w.cursor.offset == k
            &&& w.selection is None
        }),
{
    let c = v.cursor.offset as int;
    lemma_whole_line(v.text, c);
    lemma_line_unique(
        v.text,
        c,
        k,
        e,
        rope::line_begin(v.text, v.line()),
        edits::line_past(v.text, v.line()),
    );
    let f = v.selecting(None);
    assert(f.text == v.text && f.cursor == v.cursor && !f.readonly && f.mode == v.mode
        && f.selection is None) by {
        reveal(EditorView::selecting);
    }
    let g = f.at(k);
    assert(g.text == v.text && !g.readonly && g.mode == v.mode && g.selection is None) by {
        reveal(EditorView::at);
    }
    if k < e {
        typing_laws::lemma_edit(g, k, e, Seq::empty());
        assert(v.text.subrange(0, k) + Seq::<char>::empty() =~= v.text.subrange(0, k));
    } else {
        assert(v.text.subrange(0, k) + v.text.subrange(e, v.text.len() as int) =~= v.text);
    }
    reveal(EditorView::edit_made);
    reveal(EditorView::line_erased);
    typing_laws::lemma_settled_raw(v.action_made(Action::DeleteLine, near).state, v);
}

/// With line feeds for line breaks a text is written as it is.
proof fn lemma_encoded_as_is(t: Seq<char>)
    ensures
        buffer::encoded(t, LineEnding::Lf) == t,
    decreases t.len(),
{
    if t.len() > 0 {
        lemma_encoded_as_is(t.drop_first());
        assert(seq![t[0]] + t.drop_first() =~= t);
    }
}

/// A copy outside the preview takes the selection, and without one the line that the
/// cursor is on with its line break. The editor keeps it as it is; the system gets it with
/// the line breaks of the file. The text stays.
pub proof fn law_copy_takes_selection_or_line(v: EditorView, near: Near, k: int, e: int)
    requires
        v.wf(),
        v.mode == Mode::Raw,
        v.text.len() <= usize::MAX,
        v.selection matches Some(sel) ==> sel.anchor <= v.text.len() && sel.active <= v.text.len(),
        match v.selection {
            Some(sel) => if sel.anchor <= sel.active {
                k == sel.anchor && e == sel.active
            } else {
                k == sel.active && e == sel.anchor
            },
            None => is_whole_line(v.text, k, v.cursor.offset as int, e),
        },
    ensures
        ({
            let w = v.acted(Action::Copy, near);
            let t = v.text.subrange(k, e);
            &&& w.kill_ring == t
            &&& w.text == v.text
            &&& w.cursor == v.cursor
            &&& w.selection == v.selection
            &&& v.ending == LineEnding::Lf ==> v.asked(Action::Copy, near).copy == Some(t)
            &&& v.asked(Action::Copy, near).copy == Some(buffer::encoded(t, v.ending))
        }),
{
    lemma_encoded_as_is(v.text.subrange(k, e));
    reveal(EditorView::edit_made);
    reveal(EditorView::holding);
    typing_laws::lemma_settled_raw(v.action_made(Action::Copy, near).state, v);
    reveal(EditorView::settled);
    if v.selection is None {
        let c = v.cursor.offset as int;
        lemma_whole_line(v.text, c);
        lemma_line_unique(
            v.text,
            c,
            k,
            e,
            rope::line_begin(v.text, v.line()),
            edits::line_past(v.text, v.line()),
        );
    } else if k == e {
        assert(v.text.subrange(k, e) =~= Seq::empty());
    }
}

/// A cut without a selection takes the line that the cursor is on, and keeps it for a
/// paste.
pub proof fn law_cut_takes_the_line(v: EditorView, near: Near, k: int, e: int)
    requires
        v.wf(),
        !v.readonly,
        v.mode == Mode::Raw,
        v.selection is None,
        v.text.len() <= usize::MAX,
        is_whole_line(v.text, k, v.cursor.offset as int, e),
        k < e,
    ensures
        ({
            let w = v.action_made(Action::Cut, near).state;
            &&& w.text == v.text.subrange(0, k) + v.text.subrange(e, v.text.len() as int)
            &&& w.cursor.offset == k
            &&& w.kill_ring == v.text.subrange(k, e)
            &&& v.acted(Action::Cut, near).text == w.text
            &&& v.asked(Action::Cut, near).copy == Some(
                buffer::encoded(v.text.subrange(k, e), v.ending),
            )
        }),
{
    let c = v.cursor.offset as int;
    lemma_whole_line(v.text, c);
    lemma_line_unique(
        v.text,
        c,
        k,
        e,
        rope::line_begin(v.text, v.line()),
        edits::line_past(v.text, v.line()),
    );
    let g = v.holding(v.text.subrange(k, e)).at(k);
    assert(g.text == v.text && !g.readonly && g.mode == v.mode && g.kill_ring == v.text.subrange(
        k,
        e,
    )) by {
        reveal(EditorView::at);
        reveal(EditorView::holding);
    }
    typing_laws::lemma_edit(g, k, e, Seq::empty());
    assert(v.text.subrange(0, k) + Seq::<char>::empty() =~= v.text.subrange(0, k));
    reveal(EditorView::edit_made);
    reveal(EditorView::cut);
    typing_laws::lemma_settled_raw(v.action_made(Action::Cut, near).state, v);
}

// ── History ──────────────────────────────────────────────────────────────
/// What the actions for undo and redo do.
pub proof fn lemma_history(v: EditorView, near: Near)
    ensures
        ({
            let u = v.acted(Action::Undo, near);
            let r = v.acted(Action::Redo, near);
            &&& u.text == v.undone().text && u.undo == v.undone().undo && u.redo == v.undone().redo
                && u.cursor == v.undone().cursor
            &&& r.text == v.redone().text && r.undo == v.redone().undo && r.redo == v.redone().redo
                && r.cursor == v.redone().cursor
        }),
{
    reveal(EditorView::edit_made);
    reveal(EditorView::settled);
    reveal(EditorView::refreshed);
}

/// Making the last undone edit again gives the same text in states with the same text.
proof fn lemma_same_history(v: EditorView, w: EditorView)
    requires
        v.text == w.text,
        v.undo == w.undo,
        v.redo == w.redo,
    ensures
        v.redone().text == w.redone().text,
        v.undone().text == w.undone().text,
{
    reveal(EditorView::refreshed);
    reveal(EditorView::undo_made);
    reveal(EditorView::redo_made);
}

/// Undo and then redo, or redo and then undo, give back the text; with nothing to undo or
/// redo it stays.
pub proof fn law_undo_and_redo(v: EditorView, near: Near)
    requires
        v.wf(),
    ensures
        v.undo.len() > 0 ==> v.acted(Action::Undo, near).acted(Action::Redo, near).text == v.text,
        v.redo.len() > 0 ==> v.acted(Action::Redo, near).acted(Action::Undo, near).text == v.text,
        v.undo.len() == 0 ==> v.acted(Action::Undo, near).text == v.text,
        v.redo.len() == 0 ==> v.acted(Action::Redo, near).text == v.text,
{
    let u = v.acted(Action::Undo, near);
    let r = v.acted(Action::Redo, near);
    lemma_history(v, near);
    lemma_history(u, near);
    lemma_history(r, near);
    lemma_same_history(u, v.undone());
    lemma_same_history(r, v.redone());
    if v.undo.len() > 0 {
        crate::editor::laws::law_redo_undoes_undo(v);
    }
    if v.redo.len() > 0 {
        crate::editor::laws::law_undo_undoes_redo(v);
    }
}

/// Undo takes out what the last edit put in and puts back what it took out, and leaves the
/// cursor behind that.
pub proof fn law_undo_puts_back(v: EditorView, near: Near)
    requires
        v.wf(),
        v.undo.len() > 0,
    ensures
        ({
            let d = v.undo.last();
            let w = v.acted(Action::Undo, near);
            let from = d.offset;
            let to = d.offset + d.inserted.len();
            &&& w.undo == v.undo.drop_last()
            &&& w.cursor.offset == (from + d.removed.len()) as usize
            &&& 0 <= from && to <= v.text.len() ==> w.text == v.text.subrange(0, from) + d.removed
                + v.text.subrange(to, v.text.len() as int)
        }),
{
    lemma_history(v, near);
    reveal(EditorView::refreshed);
    reveal(EditorView::undo_made);
}

// ── Markers ──────────────────────────────────────────────────────────────
/// What a command for markers puts around a selection.
proof fn lemma_wrapped(v: EditorView, m: Seq<char>, start: int, end: int)
    requires
        v.wf(),
        !v.readonly,
        m.len() > 0,
        v.text.len() + 2 * m.len() <= usize::MAX,
        v.selection matches Some(sel) && (sel.anchor == start && sel.active == end || sel.anchor
            == end && sel.active == start),
        0 <= start < end <= v.text.len(),
        !v.text.subrange(start, end).contains('\n'),
        !emphasis::wrapped(v.text.subrange(start, end), m),
        !emphasis::wrapped_outside(v.text, start, end, m),
    ensures
        ({
            let w = v.wrap_toggled(m);
            &&& w.text == v.text.subrange(0, start) + m + v.text.subrange(start, end) + m
                + v.text.subrange(end, v.text.len() as int)
            &&& w.selection == Some(
                (Selection {
                    anchor: (start + m.len()) as usize,
                    active: (end + m.len()) as usize,
                }),
            )
            &&& w.cursor.offset == end + m.len()
            &&& w.mode == v.mode
        }),
{
    reveal(EditorView::wrap_toggled);
    reveal(EditorView::selecting);
    reveal(EditorView::at);
    let t = v.text.subrange(start, end);
    typing_laws::lemma_edit(v, start, end, m + t + m);
    assert(v.text.subrange(0, start) + (m + t + m) + v.text.subrange(end, v.text.len() as int)
        =~= v.text.subrange(0, start) + m + t + m + v.text.subrange(end, v.text.len() as int));
}

/// The commands for markers put them around the selected part of a line, each its own:
/// two stars for bold text, one for text in italics, a backtick for code, two tildes for
/// text that is struck out and two equals signs for a highlight. The text between is
/// selected then.
pub proof fn law_markers_go_around(
    v: EditorView,
    near: Near,
    a: Action,
    m: Seq<char>,
    start: int,
    end: int,
)
    requires
        v.wf(),
        !v.readonly,
        v.mode == Mode::Raw,
        ({
            ||| a is BoldSelection && m == seq!['*', '*']
            ||| a is ItalicizeSelection && m == seq!['*']
            ||| a is InlineCodeSelection && m == seq!['`']
            ||| a is StrikethroughSelection && m == seq!['~', '~']
            ||| a is HighlightSelection && m == seq!['=', '=']
        }),
        v.text.len() + 2 * m.len() <= usize::MAX,
        v.selection matches Some(sel) && (sel.anchor == start && sel.active == end || sel.anchor
            == end && sel.active == start),
        0 <= start < end <= v.text.len(),
        !v.text.subrange(start, end).contains('\n'),
        forall|j: int| start <= j < end ==> #[trigger] v.text[j] != m[0],
        start > 0 ==> v.text[start - 1] != m[0],
    ensures
        ({
            let w = v.acted(a, near);
            &&& w.text == v.text.subrange(0, start) + m + v.text.subrange(start, end) + m
                + v.text.subrange(end, v.text.len() as int)
            &&& w.selection == Some(
                (Selection {
                    anchor: (start + m.len()) as usize,
                    active: (end + m.len()) as usize,
                }),
            )
        }),
{
    let t = v.text.subrange(start, end);
    if emphasis::wrapped(t, m) {
        assert(t.subrange(0, m.len() as int)[0] == t[0]);
        assert(t[0] == v.text[start]);
    }
    if emphasis::wrapped_outside(v.text, start, end, m) {
        let n = m.len() as int;
        assert(v.text.subrange(start - n, start)[n - 1] == v.text[start - 1]);
        assert(m[n - 1] == m[0]);
    }
    lemma_wrapped(v, m, start, end);
    reveal(EditorView::edit_made);
    typing_laws::lemma_settled_raw(v.action_made(a, near).state, v);
}

/// A command for markers takes them away where they stand directly around the selection,
/// and the same text is selected still. A star counts for itself only where no second one
/// stands beside it.
pub proof fn law_markers_come_off(
    v: EditorView,
    near: Near,
    a: Action,
    m: Seq<char>,
    start: int,
    end: int,
)
    requires
        v.wf(),
        !v.readonly,
        v.mode == Mode::Raw,
        ({
            ||| a is BoldSelection && m == seq!['*', '*']
            ||| a is ItalicizeSelection && m == seq!['*']
            ||| a is InlineCodeSelection && m == seq!['`']
            ||| a is StrikethroughSelection && m == seq!['~', '~']
            ||| a is HighlightSelection && m == seq!['=', '=']
        }),
        v.text.len() + 2 * m.len() <= usize::MAX,
        v.selection matches Some(sel) && (sel.anchor == start && sel.active == end || sel.anchor
            == end && sel.active == start),
        m.len() <= start < end <= v.text.len() - m.len(),
        !v.text.subrange(start, end).contains('\n'),
        forall|j: int| start <= j < end ==> #[trigger] v.text[j] != m[0],
        v.text.subrange(start - m.len(), start) == m,
        v.text.subrange(end, end + m.len()) == m,
        start > m.len() ==> v.text[start - m.len() - 1] != m[0],
        end + m.len() < v.text.len() ==> v.text[end + m.len() as int] != m[0],
    ensures
        ({
            let w = v.acted(a, near);
            &&& w.text == v.text.subrange(0, start - m.len()) + v.text.subrange(start, end)
                + v.text.subrange(end + m.len(), v.text.len() as int)
            &&& w.selection == Some(
                (Selection {
                    anchor: (start - m.len()) as usize,
                    active: (end - m.len()) as usize,
                }),
            )
        }),
{
    let t = v.text.subrange(start, end);
    let n = m.len() as int;
    if emphasis::wrapped(t, m) {
        assert(t.subrange(0, n)[0] == t[0]);
        assert(t[0] == v.text[start]);
    }
    assert(emphasis::wrapped_outside(v.text, start, end, m));
    lemma_unwrapped(v, m, start, end);
    reveal(EditorView::edit_made);
    typing_laws::lemma_settled_raw(v.action_made(a, near).state, v);
}

/// What a command for markers takes away around a selection.
proof fn lemma_unwrapped(v: EditorView, m: Seq<char>, start: int, end: int)
    requires
        v.wf(),
        !v.readonly,
        m.len() > 0,
        v.text.len() <= usize::MAX,
        v.selection matches Some(sel) && (sel.anchor == start && sel.active == end || sel.anchor
            == end && sel.active == start),
        m.len() <= start < end <= v.text.len() - m.len(),
        !v.text.subrange(start, end).contains('\n'),
        !emphasis::wrapped(v.text.subrange(start, end), m),
        emphasis::wrapped_outside(v.text, start, end, m),
    ensures
        ({
            let w = v.wrap_toggled(m);
            &&& w.text == v.text.subrange(0, start - m.len()) + v.text.subrange(start, end)
                + v.text.subrange(end + m.len(), v.text.len() as int)
            &&& w.selection == Some(
                (Selection {
                    anchor: (start - m.len()) as usize,
                    active: (end - m.len()) as usize,
                }),
            )
            &&& w.mode == v.mode
        }),
{
    reveal(EditorView::wrap_toggled);
    reveal(EditorView::selecting);
    reveal(EditorView::at);
    let n = m.len() as int;
    typing_laws::lemma_edit(v, start - n, end + n, v.text.subrange(start, end));
}

// ── Movements ────────────────────────────────────────────────────────────
/// The state after a movement within the text, in the source view.
proof fn lemma_along(v: EditorView, near: Near, a: Action, how: Motion)
    requires
        v.mode == Mode::Raw,
        ({
            ||| a is MoveLineStart && how is LineStart
            ||| a is MoveLineEnd && how is LineEnd
            ||| a is MoveDocStart && how is DocStart
            ||| a is MoveDocEnd && how is DocEnd
        }),
    ensures
        v.acted(a, near).cursor.offset == crate::editor::motion::moved(
            v.cursor,
            v.text,
            how,
        ).offset,
        v.acted(a, near).selection is None,
{
    reveal(EditorView::move_made);
    reveal(EditorView::moved_along);
    reveal(EditorView::moved);
    reveal(EditorView::selecting);
    reveal(EditorView::aimed_at);
    reveal(EditorView::followed);
    typing_laws::lemma_settled_raw(v.action_made(a, near).state, v);
}

/// The keys for the start and the end of the line lead to its first character and behind
/// its last one, before the line feed; those for the start and the end of the text lead
/// there. Nothing is selected then.
pub proof fn law_line_and_text_ends(v: EditorView, near: Near)
    requires
        v.wf(),
        v.mode == Mode::Raw,
        v.text.len() <= usize::MAX,
    ensures
        ({
            let c = v.cursor.offset as int;
            let s = v.text;
            let home = v.acted(Action::MoveLineStart, near);
            let end = v.acted(Action::MoveLineEnd, near);
            let k = home.cursor.offset as int;
            let e = end.cursor.offset as int;
            &&& 0 <= k <= c <= e <= s.len()
            &&& k == 0 || rope::ends_line(s, k - 1)
            &&& forall|j: int| k <= j < c ==> !rope::ends_line(s, j)
            &&& forall|j: int| k <= j < e ==> #[trigger] s[j] != '\n'
            &&& e < s.len() ==> s[e] == '\n' || (e > k && rope::ends_line(s, e - 1))
            &&& home.selection is None && end.selection is None
            &&& v.acted(Action::MoveDocStart, near).cursor.offset == 0
            &&& v.acted(Action::MoveDocEnd, near).cursor.offset == s.len()
            &&& v.asked(Action::MoveDocStart, near).scrolling == Scrolling::ToTop
            &&& v.asked(Action::MoveDocEnd, near).scrolling == Scrolling::ToBottom
        }),
{
    let c = v.cursor.offset as int;
    lemma_along(v, near, Action::MoveLineStart, Motion::LineStart);
    lemma_along(v, near, Action::MoveLineEnd, Motion::LineEnd);
    lemma_along(v, near, Action::MoveDocStart, Motion::DocStart);
    lemma_along(v, near, Action::MoveDocEnd, Motion::DocEnd);
    lemma_whole_line(v.text, c);
    move_laws::lemma_line_end(v.text, c);
    reveal(EditorView::move_made);
}

/// A selection that grows keeps the end where it began, or begins at the cursor, and its
/// other end goes where the plain movement leads.
pub proof fn law_selecting_keeps_anchor(v: EditorView, near: Near)
    requires
        v.wf(),
        v.mode == Mode::Raw,
        v.text.len() <= usize::MAX,
        !v.settings.visual_line_nav,
    ensures
        ({
            let left = v.acted(Action::SelectLeft, near);
            let right = v.acted(Action::SelectRight, near);
            let up = v.acted(Action::SelectUp, near);
            let down = v.acted(Action::SelectDown, near);
            let anchor = match v.selection {
                Some(sel) => sel.anchor,
                None => v.cursor.offset,
            };
            &&& left.cursor.offset == v.acted(Action::MoveLeft, near).cursor.offset
            &&& right.cursor.offset == v.acted(Action::MoveRight, near).cursor.offset
            &&& up.cursor.offset == v.acted(Action::MoveUp, near).cursor.offset
            &&& down.cursor.offset == v.acted(Action::MoveDown, near).cursor.offset
            &&& left.selection == Some((Selection { anchor, active: left.cursor.offset }))
            &&& right.selection == Some((Selection { anchor, active: right.cursor.offset }))
            &&& up.selection == Some((Selection { anchor, active: up.cursor.offset }))
            &&& down.selection == Some((Selection { anchor, active: down.cursor.offset }))
        }),
{
    lemma_selecting(v, near, Action::SelectLeft, Motion::Left);
    lemma_selecting(v, near, Action::SelectRight, Motion::Right);
    lemma_selecting(v, near, Action::SelectUp, Motion::Up);
    lemma_selecting(v, near, Action::SelectDown, Motion::Down);
    typing_laws::lemma_sideways(v, near);
    lemma_vertical(v, near, false);
    lemma_vertical(v, near, true);
}

proof fn lemma_selecting(v: EditorView, near: Near, a: Action, how: Motion)
    requires
        v.mode == Mode::Raw,
        ({
            ||| a is SelectLeft && how is Left
            ||| a is SelectRight && how is Right
            ||| a is SelectUp && how is Up
            ||| a is SelectDown && how is Down
        }),
    ensures
        ({
            let w = v.acted(a, near);
            &&& w.cursor.offset == crate::editor::motion::moved(v.cursor, v.text, how).offset
            &&& w.selection == Some((Selection { anchor: v.anchor(), active: w.cursor.offset }))
        }),
{
    reveal(EditorView::move_made);
    reveal(EditorView::selected_by);
    reveal(EditorView::moved);
    reveal(EditorView::selecting);
    reveal(EditorView::followed);
    typing_laws::lemma_settled_raw(v.action_made(a, near).state, v);
}

proof fn lemma_vertical(v: EditorView, near: Near, down: bool)
    requires
        v.mode == Mode::Raw,
        !v.settings.visual_line_nav,
    ensures
        ({
            let a = if down {
                Action::MoveDown
            } else {
                Action::MoveUp
            };
            let how = if down {
                Motion::Down
            } else {
                Motion::Up
            };
            v.acted(a, near).cursor.offset == crate::editor::motion::moved(
                v.cursor,
                v.text,
                how,
            ).offset
        }),
{
    reveal(EditorView::move_made);
    reveal(EditorView::moved_vertically);
    reveal(EditorView::moved);
    reveal(EditorView::selecting);
    reveal(EditorView::followed);
    typing_laws::lemma_settled_raw(v.action_made(Action::MoveDown, near).state, v);
    typing_laws::lemma_settled_raw(v.action_made(Action::MoveUp, near).state, v);
}

/// The command to select everything selects from the first to the last character of the
/// text, and in the preview from the start of the first line to the end of the last.
pub proof fn law_select_all_takes_all(v: EditorView, near: Near)
    requires
        v.wf(),
        v.text.len() <= usize::MAX,
    ensures
        v.mode != Mode::Preview ==> v.action_made(Action::SelectAll, near).state.selection == Some(
            (Selection { anchor: 0, active: v.text.len() as usize }),
        ),
        v.mode == Mode::Preview && v.parsed.lines@.len() > 0 ==> ({
            let lines = v.parsed.lines@;
            v.acted(Action::SelectAll, near).visual == Some(
                (VisualSelection {
                    anchor: (0, 0),
                    active: ((lines.len() - 1) as usize, lines[lines.len() - 1]@.len() as usize),
                }),
            )
        }),
{
    reveal(EditorView::move_made);
    reveal(EditorView::selected_all);
    reveal(EditorView::selecting);
    reveal(EditorView::moved);
    reveal(EditorView::showing);
}

// ── What is asked for ────────────────────────────────────────────────────
/// The scroll keys ask for scrolling by one line or by one screen, up or down, or to an
/// end, and change neither the text nor the cursor in the source view. In the preview the
/// keys for up and down scroll by one line.
pub proof fn law_scroll_keys(v: EditorView, near: Near)
    ensures
        v.asked(Action::ScrollUp, near).scrolling == Scrolling::Up(1),
        v.asked(Action::ScrollDown, near).scrolling == Scrolling::Down(1),
        v.asked(Action::ScrollPageUp, near).scrolling == Scrolling::Up(near.height),
        v.asked(Action::ScrollPageDown, near).scrolling == Scrolling::Down(near.height),
        v.asked(Action::ScrollToTop, near).scrolling == Scrolling::ToTop,
        v.asked(Action::ScrollToBottom, near).scrolling == Scrolling::ToBottom,
        v.asked(Action::ScrollDown, near).cursor_to_top,
        v.asked(Action::ScrollPageDown, near).cursor_to_top,
        !v.asked(Action::ScrollUp, near).cursor_to_top,
        !v.asked(Action::ScrollPageUp, near).cursor_to_top,
        v.mode == Mode::Preview ==> v.asked(Action::MoveUp, near).scrolling == Scrolling::Up(1)
            && v.asked(Action::MoveDown, near).scrolling == Scrolling::Down(1),
        v.asked(Action::Quit, near).quit,
{
    reveal(EditorView::move_made);
}

proof fn lemma_moves_quit(v: EditorView, near: Near, a: Action)
    ensures
        v.move_made(a, near).asks.quit == (a is Quit),
{
    reveal(EditorView::move_made);
    reveal(EditorView::raw_toggled);
    reveal(EditorView::selected_all);
}

proof fn lemma_tables_quit(v: EditorView, near: Near, a: Action)
    ensures
        !v.table_asked(a, near).asks.quit,
{
    reveal(EditorView::table_asked);
}

proof fn lemma_edits_quit(v: EditorView, near: Near, a: Action)
    ensures
        !v.edit_made(a, near).asks.quit,
{
    reveal(EditorView::edit_made);
    reveal(EditorView::char_typed);
    reveal(EditorView::tab_typed);
    reveal(EditorView::newline_typed);
    reveal(EditorView::cut);
}

/// Only the key to quit quits.
pub proof fn law_only_quit_quits(v: EditorView, near: Near, a: Action)
    ensures
        v.asked(a, near).quit == (a is Quit),
{
    lemma_moves_quit(v, near, a);
    lemma_tables_quit(v, near, a);
    lemma_edits_quit(v, near, a);
}

/// Each action of a table asks the table for the command of its name, and those that
/// move to another cell or row do so only in a table. There the tab key leads to the next
/// cell and the enter key to the next row.
pub proof fn law_table_actions(v: EditorView, near: Near)
    ensures
        v.asked(Action::TableMoveRowUp, near).table == Some(TableCommand::MoveRowUp),
        v.asked(Action::TableMoveRowDown, near).table == Some(TableCommand::MoveRowDown),
        v.asked(Action::TableMoveColumnLeft, near).table == Some(TableCommand::MoveColumnLeft),
        v.asked(Action::TableMoveColumnRight, near).table == Some(TableCommand::MoveColumnRight),
        v.asked(Action::TableInsertRowAbove, near).table == Some(TableCommand::InsertRowAbove),
        v.asked(Action::TableInsertRowBelow, near).table == Some(TableCommand::InsertRowBelow),
        v.asked(Action::TableInsertColumnLeft, near).table == Some(
            TableCommand::InsertColumnLeft,
        ),
        v.asked(Action::TableInsertColumnRight, near).table == Some(
            TableCommand::InsertColumnRight,
        ),
        v.asked(Action::TableDeleteRow, near).table == Some(TableCommand::DeleteRow),
        v.asked(Action::TableDeleteColumn, near).table == Some(TableCommand::DeleteColumn),
        near.in_table ==> {
            &&& v.asked(Action::TableNextCell, near).table == Some(TableCommand::NextCell)
            &&& v.asked(Action::TablePrevCell, near).table == Some(TableCommand::PrevCell)
            &&& v.asked(Action::TableNextRow, near).table == Some(TableCommand::NextRow)
            &&& v.asked(Action::TablePrevRow, near).table == Some(TableCommand::PrevRow)
            &&& v.mode != Mode::Preview ==> v.asked(Action::InsertTab, near).table == Some(
                TableCommand::NextCell,
            ) && v.asked(Action::Newline, near).table == Some(TableCommand::NextRow)
                && v.acted(Action::InsertTab, near) == v && v.acted(Action::Newline, near) == v
        },
        !near.in_table ==> {
            &&& v.asked(Action::TableNextCell, near).table is None
            &&& v.asked(Action::TablePrevCell, near).table is None
            &&& v.asked(Action::TableNextRow, near).table is None
            &&& v.asked(Action::TablePrevRow, near).table is None
        },
{
    reveal(EditorView::table_asked);
    reveal(EditorView::edit_made);
    reveal(EditorView::tab_typed);
    reveal(EditorView::newline_typed);
}

/// A copy in the preview takes the rendered text of the selection, and without one the
/// first line on the screen. The text stays.
pub proof fn law_preview_copies_what_is_shown(v: EditorView, near: Near)
    requires
        v.mode == Mode::Preview,
        v.scroll < v.parsed.lines@.len(),
    ensures
        ({
            let m = v.action_made(Action::Copy, near).state;
            let t = match v.visual {
                Some(sel) => crate::editor::mouse_ops::selection::rendered_text(
                    sel,
                    v.band,
                    v.parsed.lines@,
                ),
                None => v.parsed.lines@[v.scroll as int]@,
            };
            &&& m.kill_ring == t
            &&& m.text == v.text
            &&& v.asked(Action::Copy, near).copy == Some(buffer::encoded(t, v.ending))
        }),
{
    reveal(EditorView::edit_made);
    reveal(EditorView::holding);
}

} // verus!
