//! Where the movements of the cursor lead.

use crate::cells;
use crate::document::cursor;
use crate::document::rope;
use crate::editor::edit_ops::action::{Action, Near};
use crate::editor::edit_ops::typing_laws;
use crate::editor::mode::Mode;
use crate::editor::state::EditorView;
use crate::editor::state_cursor_visual::HIDDEN_STEPS;
use crate::editor::wrap;
use crate::editor::wrap::Layout;
use vstd::prelude::*;

verus! {

/// The rows of every line stand one behind the other and before the line's break, and
/// none that another one follows is empty.
pub open spec fn rows_in_order(layout: Layout, s: Seq<char>) -> bool {
    &&& forall|k: int, i: int|
        #![trigger layout.wraps@[k].rows@[i]]
        0 <= k < layout.wraps@.len() && 0 <= i && i + 1 < layout.wraps@[k].rows@.len()
            ==> layout.wraps@[k].rows@[i].start < layout.wraps@[k].rows@[i].end
            <= layout.wraps@[k].rows@[i + 1].start
    &&& forall|k: int, i: int|
        #![trigger layout.wraps@[k].rows@[i]]
        0 <= k && k + 1 < layout.wraps@.len() && 0 <= i < layout.wraps@[k].rows@.len()
            ==> rope::line_begin(s, k) + layout.wraps@[k].rows@[i].end < rope::line_begin(s, k + 1)
}

/// The layout can be walked by rows wherever movement goes by rows.
pub open spec fn walkable(v: EditorView, layout: Layout) -> bool {
    &&& layout.fits(v.text)
    &&& v.settings.visual_line_nav && layout.width > 0 ==> rows_in_order(layout, v.text)
}

/// An offset between a line's start and the start of the next one is on that line.
proof fn lemma_on_line(s: Seq<char>, k: int, i: int)
    requires
        0 <= k < rope::line_total(s),
        rope::line_begin(s, k) <= i <= s.len(),
        k + 1 < rope::line_total(s) ==> i < rope::line_begin(s, k + 1),
    ensures
        cursor::line_of(s, i) == k,
{
    rope::lemma_line_begin(s, k);
    rope::lemma_lines_before_monotone(s, rope::line_begin(s, k), i);
    rope::lemma_lines_before_monotone(s, i, s.len() as int);
    if k + 1 < rope::line_total(s) {
        rope::lemma_line_begin(s, k + 1);
    }
}

/// Where a cell of a line lands.
proof fn lemma_offset_at_cell(s: Seq<char>, k: int, target: int)
    requires
        0 <= k < rope::line_total(s),
        0 <= target,
    ensures
        ({
            let at = cursor::offset_at_cell(s, k, target);
            &&& rope::line_begin(s, k) <= at <= s.len()
            &&& k + 1 < rope::line_total(s) ==> at < rope::line_begin(s, k + 1)
            &&& cursor::line_of(s, at) == k
        }),
{
    cursor::lemma_landing_end(s, k);
    rope::lemma_line_begin(s, k);
    rope::lemma_line_begin_monotone(s, k, k + 1);
    cells::lemma_landing(s, rope::line_begin(s, k), cursor::landing_end(s, k), 0, target as nat);
    lemma_on_line(s, k, cursor::offset_at_cell(s, k, target));
}

/// Where the end of a line is.
pub proof fn lemma_line_end(s: Seq<char>, i: int)
    requires
        0 <= i <= s.len(),
    ensures
        ({
            let start = cursor::line_start_of(s, i);
            let end = start + cursor::line_len(s, cursor::line_of(s, i));
            &&& start <= i
            &&& end <= s.len()
            &&& start <= end
            &&& cursor::line_of(s, i) + 1 == rope::line_total(s) ==> end == s.len()
            &&& forall|j: int| start <= j < end ==> #[trigger] s[j] != '\n'
            &&& end < s.len() && !(end > 0 && rope::ends_line(s, end - 1) && end > start)
                ==> s[end] == '\n'
            &&& i <= end
        }),
{
    let k = cursor::line_of(s, i);
    let start = rope::line_begin(s, k);
    let next = rope::line_begin(s, k + 1);
    rope::lemma_line_of(s, i);
    rope::lemma_line_begin(s, k);
    rope::lemma_line_begin(s, k + 1);
    cursor::lemma_line_len(s, k);
    let t = cursor::line_text(s, k);
    assert forall|j: int| start <= j && j + 1 < next implies !rope::ends_line(s, j) by {
        if k + 1 < rope::line_total(s) {
            rope::lemma_lines_before_monotone(s, start, j);
            rope::lemma_lines_before_monotone(s, j, j + 1);
        } else {
            rope::lemma_lines_before_monotone(s, start, j);
            rope::lemma_lines_before_monotone(s, j + 1, s.len() as int);
        }
    }
    assert(k + 1 == rope::line_total(s) ==> next == s.len());
    if t.len() > 0 && t.last() == '\n' {
        assert(t.last() == s[next - 1]);
        assert(rope::ends_line(s, next - 1));
        if k + 1 == rope::line_total(s) {
            rope::lemma_lines_before_monotone(s, start, next - 1);
        }
        let u = t.drop_last();
        if u.len() > 0 {
            assert(u.last() == s[next - 2]);
            assert(!rope::ends_line(s, next - 2));
        }
        reveal_with_fuel(cursor::len_without_newlines, 3);
        assert(cursor::len_without_newlines(t) == t.len() - 1);
    } else {
        assert(cursor::len_without_newlines(t) == t.len());
        if next > start {
            assert(t.last() == s[next - 1]);
        }
    }
    assert forall|j: int| start <= j < start + cursor::line_len(s, k) implies #[trigger] s[j]
        != '\n' by {
        if s[j] == '\n' {
            assert(rope::ends_line(s, j));
        }
    }
    if k + 1 < rope::line_total(s) {
        rope::lemma_line_begin_monotone(s, k, k + 1);
        rope::lemma_lines_before_monotone(s, start, next - 1);
        if !rope::ends_line(s, next - 1) {
            assert(rope::lines_before(s, next) == rope::lines_before(s, next - 1));
        }
    }
}

/// A step down leads on, to the same line or to the one below, and only on the last line
/// can it lead nowhere.
proof fn lemma_step_down(v: EditorView, visual: bool, layout: Layout)
    requires
        v.cursor.offset <= v.text.len(),
        v.text.len() <= usize::MAX,
        layout.fits(v.text),
        visual && layout.width > 0 ==> rows_in_order(layout, v.text),
    ensures
        ({
            let w = v.line_step(true, visual, layout);
            &&& w.text == v.text
            &&& w.mode == v.mode
            &&& w.settings == v.settings
            &&& w.cursor.offset <= w.text.len()
            &&& v.cursor.offset <= w.cursor.offset
            &&& v.line() + 1 < rope::line_total(v.text) ==> v.cursor.offset < w.cursor.offset
            &&& w.line() == v.line() || w.line() == v.line() + 1
        }),
{
    reveal(EditorView::at);
    reveal(EditorView::moved);
    let s = v.text;
    let i = v.cursor.offset as int;
    let k = v.line();
    rope::lemma_line_of(s, i);
    rope::lemma_line_begin(s, k);
    let start = rope::line_begin(s, k);
    if k + 1 < rope::line_total(s) {
        rope::lemma_line_begin_monotone(s, k, k + 1);
        rope::lemma_line_begin(s, k + 1);
        assert(i < rope::line_begin(s, k + 1)) by {
            if i >= rope::line_begin(s, k + 1) {
                rope::lemma_lines_before_monotone(s, rope::line_begin(s, k + 1), i);
            }
        }
        lemma_offset_at_cell(s, k + 1, v.cursor.preferred_col as int);
    }
    lemma_line_end(s, i);
    if k + 1 == rope::line_total(s) {
        lemma_on_line(s, k, s.len() as int);
    }
    if visual && layout.width > 0 {
        let rows = layout.wraps@[k].rows@;
        assert(layout.wraps@[k].fits(cursor::line_len(s, k)));
        let r = v.row(layout);
        lemma_row(rows, i - start, 0);
        if r + 1 < rows.len() {
            assert(rows[r].end <= rows[r + 1].start);
            cells::lemma_landing(
                s,
                start + rows[r + 1].start,
                start + rows[r + 1].end,
                0,
                (v.cursor.preferred_col - layout.wraps@[k].indent_of(r + 1, v.mode == Mode::Raw))
                    as nat,
            );
            assert(layout.wraps@[k].rows@[r + 1].start <= layout.wraps@[k].rows@[r + 1].end);
            cursor::lemma_line_len(s, k);
            lemma_on_line(s, k, v.row_offset(layout, k, r + 1));
        } else if k + 1 < rope::line_total(s) {
            let next = layout.wraps@[k + 1].rows@;
            assert(layout.wraps@[k + 1].fits(cursor::line_len(s, k + 1)));
            assert(next[0].start <= next[0].end);
            cursor::lemma_line_len(s, k + 1);
            cells::lemma_landing(
                s,
                rope::line_begin(s, k + 1) + next[0].start,
                rope::line_begin(s, k + 1) + next[0].end,
                0,
                v.cursor.preferred_col as nat,
            );
            lemma_on_line(s, k + 1, v.row_offset(layout, k + 1, 0));
        }
    }
}

/// The row that holds a column is the last, or ends behind it, and the one before ends
/// at it or before.
proof fn lemma_row(rows: Seq<wrap::WrapRow>, col: int, k: int)
    requires
        0 <= k < rows.len(),
        k > 0 ==> rows[k - 1].end <= col,
    ensures
        ({
            let r = wrap::row_of_col(rows, col, k);
            &&& k <= r < rows.len()
            &&& r + 1 < rows.len() ==> col < rows[r].end
            &&& r > 0 ==> rows[r - 1].end <= col
        }),
    decreases rows.len() - k,
{
    if k + 1 < rows.len() && col >= rows[k].end {
        lemma_row(rows, col, k + 1);
    }
}

/// A step up leads back, to the same line or to the one above, and only on the first line
/// can it lead nowhere.
proof fn lemma_step_up(v: EditorView, visual: bool, layout: Layout)
    requires
        v.cursor.offset <= v.text.len(),
        v.text.len() <= usize::MAX,
        layout.fits(v.text),
        visual && layout.width > 0 ==> rows_in_order(layout, v.text),
    ensures
        ({
            let w = v.line_step(false, visual, layout);
            &&& w.text == v.text
            &&& w.mode == v.mode
            &&& w.settings == v.settings
            &&& w.cursor.offset <= w.text.len()
            &&& w.cursor.offset <= v.cursor.offset
            &&& v.line() > 0 ==> w.cursor.offset < v.cursor.offset
            &&& w.line() == v.line() || w.line() == v.line() - 1
        }),
{
    reveal(EditorView::at);
    reveal(EditorView::moved);
    let s = v.text;
    let i = v.cursor.offset as int;
    let k = v.line();
    rope::lemma_line_of(s, i);
    rope::lemma_line_begin(s, k);
    let start = rope::line_begin(s, k);
    if k > 0 {
        lemma_offset_at_cell(s, k - 1, v.cursor.preferred_col as int);
    } else {
        assert(cursor::line_of(s, 0) == 0);
    }
    if visual && layout.width > 0 {
        let rows = layout.wraps@[k].rows@;
        assert(layout.wraps@[k].fits(cursor::line_len(s, k)));
        let r = v.row(layout);
        lemma_row(rows, i - start, 0);
        if r > 0 {
            assert(rows[r - 1].start < rows[r - 1].end);
            cells::lemma_landing(
                s,
                start + rows[r - 1].start,
                start + rows[r - 1].end,
                0,
                (v.cursor.preferred_col - layout.wraps@[k].indent_of(r - 1, v.mode == Mode::Raw))
                    as nat,
            );
            cursor::lemma_line_len(s, k);
            rope::lemma_lines_before_monotone(s, start, v.row_offset(layout, k, r - 1));
            rope::lemma_lines_before_monotone(s, v.row_offset(layout, k, r - 1), i);
        } else if k > 0 {
            let above = layout.wraps@[k - 1].rows@;
            let n = above.len() - 1;
            assert(layout.wraps@[k - 1].fits(cursor::line_len(s, k - 1)));
            assert(above[n].start <= above[n].end);
            cursor::lemma_line_len(s, k - 1);
            rope::lemma_line_begin(s, k - 1);
            cells::lemma_landing(
                s,
                rope::line_begin(s, k - 1) + above[n].start,
                rope::line_begin(s, k - 1) + above[n].end,
                0,
                (v.cursor.preferred_col - layout.wraps@[k - 1].indent_of(n, v.mode == Mode::Raw))
                    as nat,
            );
            lemma_on_line(s, k - 1, v.row_offset(layout, k - 1, n));
        }
    }
}

/// Steps out of what is not shown lead on.
proof fn lemma_out_down(v: EditorView, visual: bool, layout: Layout, n: nat)
    requires
        v.cursor.offset <= v.text.len(),
        v.text.len() <= usize::MAX,
        layout.fits(v.text),
        visual && layout.width > 0 ==> rows_in_order(layout, v.text),
    ensures
        ({
            let w = v.out_of_hidden(true, visual, layout, n);
            &&& w.text == v.text
            &&& w.mode == v.mode
            &&& v.cursor.offset <= w.cursor.offset <= w.text.len()
            &&& !v.hidden() ==> w == v
        }),
    decreases n,
{
    lemma_step_down(v, visual, layout);
    if n > 0 && v.hidden() {
        let next = v.line_step(true, visual, layout);
        lemma_out_down(next, visual, layout, (n - 1) as nat);
    }
}

/// Steps out of what is not shown lead back.
proof fn lemma_out_up(v: EditorView, visual: bool, layout: Layout, n: nat)
    requires
        v.cursor.offset <= v.text.len(),
        v.text.len() <= usize::MAX,
        layout.fits(v.text),
        visual && layout.width > 0 ==> rows_in_order(layout, v.text),
    ensures
        ({
            let w = v.out_of_hidden(false, visual, layout, n);
            &&& w.text == v.text
            &&& w.mode == v.mode
            &&& w.cursor.offset <= v.cursor.offset
            &&& !v.hidden() ==> w == v
        }),
    decreases n,
{
    lemma_step_up(v, visual, layout);
    if n > 0 && v.hidden() {
        let next = v.line_step(false, visual, layout);
        lemma_out_up(next, visual, layout, (n - 1) as nat);
    }
}

/// The key for down leads to a greater offset from every line but the last, outside
/// tables: to the same line, where that goes on in another row, or to the line below,
/// unless something that is not shown, or a table's row of dashes, was passed. From the
/// last line it does not lead back.
pub proof fn law_down_leads_on(v: EditorView, near: Near)
    requires
        v.wf(),
        v.mode != Mode::Preview,
        v.mode == Mode::Raw || near.cell is None,
        walkable(v, near.layout),
        v.text.len() <= usize::MAX,
    ensures
        ({
            let m = v.action_made(Action::MoveDown, near).state;
            let w = v.acted(Action::MoveDown, near);
            let line = cursor::line_of(v.text, v.cursor.offset as int);
            let first = v.selecting(None).line_step(
                true,
                v.settings.visual_line_nav,
                near.layout,
            );
            &&& m.text == v.text
            &&& v.cursor.offset <= m.cursor.offset <= v.text.len()
            &&& line + 1 < rope::line_total(v.text) ==> v.cursor.offset < m.cursor.offset
            &&& v.mode == Mode::Raw || (!first.hidden() && !near.layout.alignment@[first.line()])
                ==> {
                ||| cursor::line_of(v.text, m.cursor.offset as int) == line
                ||| cursor::line_of(v.text, m.cursor.offset as int) == line + 1
            }
            &&& m.selection is None
            &&& typing_laws::outside_lists(m) ==> w.cursor == m.cursor && w.text == v.text
                && w.selection is None
        }),
{
    reveal(EditorView::move_made);
    reveal(EditorView::moved_vertically);
    let e = v.selecting(None);
    assert(e.text == v.text && e.cursor == v.cursor && e.mode == v.mode && e.settings
        == v.settings && e.selection is None) by {
        reveal(EditorView::selecting);
    }
    let visual = v.settings.visual_line_nav;
    let x = e.line_step(true, visual, near.layout);
    lemma_step_down(e, visual, near.layout);
    lemma_keeps_rest(e, true, visual, near.layout);
    if v.mode != Mode::Raw {
        let y = if near.layout.alignment@[x.line()] {
            x.line_step(true, visual, near.layout)
        } else {
            x
        };
        lemma_step_down(x, visual, near.layout);
        lemma_keeps_rest(x, true, visual, near.layout);
        lemma_out_down(y, visual, near.layout, HIDDEN_STEPS as nat);
        lemma_out_keeps_rest(y, true, visual, near.layout, HIDDEN_STEPS as nat);
    }
    reveal(EditorView::followed);
    if typing_laws::outside_lists(v.action_made(Action::MoveDown, near).state) {
        typing_laws::law_upkeep_outside_lists(v, Action::MoveDown, near);
    }
}

/// A step keeps the selection.
proof fn lemma_keeps_rest(v: EditorView, down: bool, visual: bool, layout: Layout)
    ensures
        v.line_step(down, visual, layout).selection == v.selection,
{
    reveal(EditorView::at);
    reveal(EditorView::moved);
}

/// Steps out of what is not shown keep the selection.
proof fn lemma_out_keeps_rest(v: EditorView, down: bool, visual: bool, layout: Layout, n: nat)
    ensures
        v.out_of_hidden(down, visual, layout, n).selection == v.selection,
    decreases n,
{
    if n > 0 && v.hidden() {
        lemma_keeps_rest(v, down, visual, layout);
        lemma_out_keeps_rest(
            v.line_step(down, visual, layout),
            down,
            visual,
            layout,
            (n - 1) as nat,
        );
    }
}

/// The key for up leads to a smaller offset from every line but the first, outside
/// tables: to the same line, where that begins in another row, or to the line above,
/// unless something that is not shown, or a table's row of dashes, was passed. From the
/// first line it does not lead on.
pub proof fn law_up_leads_back(v: EditorView, near: Near)
    requires
        v.wf(),
        v.mode != Mode::Preview,
        v.mode == Mode::Raw || near.cell is None,
        walkable(v, near.layout),
        v.text.len() <= usize::MAX,
    ensures
        ({
            let m = v.action_made(Action::MoveUp, near).state;
            let w = v.acted(Action::MoveUp, near);
            let line = cursor::line_of(v.text, v.cursor.offset as int);
            let first = v.selecting(None).line_step(
                false,
                v.settings.visual_line_nav,
                near.layout,
            );
            &&& m.text == v.text
            &&& m.cursor.offset <= v.cursor.offset
            &&& line > 0 ==> m.cursor.offset < v.cursor.offset
            &&& v.mode == Mode::Raw || (!first.hidden() && !near.layout.alignment@[first.line()])
                ==> {
                ||| cursor::line_of(v.text, m.cursor.offset as int) == line
                ||| cursor::line_of(v.text, m.cursor.offset as int) == line - 1
            }
            &&& m.selection is None
            &&& typing_laws::outside_lists(m) ==> w.cursor == m.cursor && w.text == v.text
                && w.selection is None
        }),
{
    reveal(EditorView::move_made);
    reveal(EditorView::moved_vertically);
    let e = v.selecting(None);
    assert(e.text == v.text && e.cursor == v.cursor && e.mode == v.mode && e.settings
        == v.settings && e.selection is None) by {
        reveal(EditorView::selecting);
    }
    let visual = v.settings.visual_line_nav;
    let x = e.line_step(false, visual, near.layout);
    lemma_step_up(e, visual, near.layout);
    lemma_keeps_rest(e, false, visual, near.layout);
    if v.mode != Mode::Raw {
        let y = if near.layout.alignment@[x.line()] {
            x.line_step(false, visual, near.layout)
        } else {
            x
        };
        lemma_step_up(x, visual, near.layout);
        lemma_keeps_rest(x, false, visual, near.layout);
        lemma_out_up(y, visual, near.layout, HIDDEN_STEPS as nat);
        lemma_out_keeps_rest(y, false, visual, near.layout, HIDDEN_STEPS as nat);
    }
    reveal(EditorView::followed);
    if typing_laws::outside_lists(v.action_made(Action::MoveUp, near).state) {
        typing_laws::law_upkeep_outside_lists(v, Action::MoveUp, near);
    }
}

} // verus!
