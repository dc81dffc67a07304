//! What clicks, drags and the wheel do to the cursor, the selection and the view.

use crate::document::rope;
use crate::document::selection::{Selection, VisualSelection};
use crate::editor::edit_ops::command_laws;
use crate::editor::link::LinkTarget;
use crate::editor::list_edit::edit;
use crate::editor::list_edit::edit::ListEdit;
use crate::editor::list_edit::growth;
use crate::editor::list_edit::parse;
use crate::editor::list_edit::toggle;
use crate::editor::mode::Mode;
use crate::editor::mouse_ops::events::{DragTarget, MouseAction, Pointer};
use crate::editor::mouse_ops::hits::TableHit;
use crate::editor::mouse_ops::selection;
use crate::editor::mouse_ops::table_drag;
use crate::editor::state;
use crate::editor::state::EditorView;
use crate::editor::table_edit::TableMetrics;
use crate::text;
use vstd::prelude::*;
use vstd::utf8::*;

verus! {

// ── Words ────────────────────────────────────────────────────────────────
proof fn lemma_run_start(s: Seq<char>, i: int, words: bool)
    requires
        0 <= i <= s.len(),
    ensures
        ({
            let a = selection::run_start(s, i, words);
            &&& 0 <= a <= i
            &&& forall|j: int| a <= j < i ==> selection::in_run(#[trigger] s[j], words)
            &&& a > 0 ==> !selection::in_run(s[a - 1], words)
        }),
    decreases i,
{
    if i > 0 && selection::in_run(s[i - 1], words) {
        lemma_run_start(s, i - 1, words);
    }
}

proof fn lemma_run_end(s: Seq<char>, i: int, words: bool)
    requires
        0 <= i <= s.len(),
    ensures
        ({
            let b = selection::run_end(s, i, words);
            &&& i <= b <= s.len()
            &&& forall|j: int| i <= j < b ==> selection::in_run(#[trigger] s[j], words)
            &&& b < s.len() ==> !selection::in_run(s[b], words)
        }),
    decreases s.len() - i,
{
    if i < s.len() && selection::in_run(s[i], words) {
        lemma_run_end(s, i + 1, words);
    }
}

/// `a..b` is a word around `i`: letters, digits and underscores, as many as stand there
/// together.
pub open spec fn is_word(s: Seq<char>, a: int, b: int, i: int) -> bool {
    &&& 0 <= a <= i <= b <= s.len()
    &&& a < b
    &&& forall|j: int|
        a <= j < b ==> selection::char_alphanumeric(#[trigger] s[j]) || s[j] == '_'
    &&& a > 0 ==> !(selection::char_alphanumeric(s[a - 1]) || s[a - 1] == '_')
    &&& b < s.len() ==> !(selection::char_alphanumeric(s[b]) || s[b] == '_')
}

/// `a..b` is a run of signs around `i`: neither blanks nor characters of words, as many
/// as stand there together.
pub open spec fn is_signs(s: Seq<char>, a: int, b: int, i: int) -> bool {
    &&& 0 <= a <= i <= b <= s.len()
    &&& a < b
    &&& forall|j: int|
        a <= j < b ==> !(selection::char_alphanumeric(#[trigger] s[j]) || s[j] == '_')
            && !text::is_whitespace_char(s[j])
    &&& a > 0 ==> selection::char_alphanumeric(s[a - 1]) || s[a - 1] == '_'
        || text::is_whitespace_char(s[a - 1])
    &&& b < s.len() ==> selection::char_alphanumeric(s[b]) || s[b] == '_'
        || text::is_whitespace_char(s[b])
}

/// The word around an index is the whole word that touches it. Only where no word touches
/// it is it the run of signs that does, and only among blanks is there none.
pub proof fn law_word_is_whole(s: Seq<char>, i: int)
    requires
        0 <= i <= s.len(),
    ensures
        match selection::word_around(s, i) {
            Some((a, b)) => is_word(s, a, b, i) || is_signs(s, a, b, i),
            None => (i > 0 ==> text::is_whitespace_char(s[i - 1])) && (i < s.len()
                ==> text::is_whitespace_char(s[i])),
        },
        forall|a: int, b: int|
            #[trigger] is_word(s, a, b, i) ==> selection::word_around(s, i) == Some((a, b)),
{
    lemma_run_start(s, i, true);
    lemma_run_end(s, i, true);
    lemma_run_start(s, i, false);
    lemma_run_end(s, i, false);
    let a0 = selection::run_start(s, i, true);
    let b0 = selection::run_end(s, i, true);
    assert forall|a: int, b: int| #[trigger] is_word(s, a, b, i) implies selection::word_around(
        s,
        i,
    ) == Some((a, b)) by {
        if a0 < a {
            assert(selection::in_run(s[a - 1], true));
        }
        if a < a0 {
            assert(selection::char_alphanumeric(s[a0 - 1]) || s[a0 - 1] == '_');
        }
        if b0 > b {
            assert(selection::in_run(s[b], true));
        }
        if b > b0 {
            assert(selection::char_alphanumeric(s[b0]) || s[b0] == '_');
        }
    }
    if selection::word_around(s, i) is None {
        if i > 0 {
            assert(!selection::in_run(s[i - 1], true));
            assert(!selection::in_run(s[i - 1], false));
        }
        if i < s.len() {
            assert(!selection::in_run(s[i], true));
            assert(!selection::in_run(s[i], false));
        }
    }
}

// ── Clicks ───────────────────────────────────────────────────────────────
/// A click in an editing view, where no table, image, checkbox or link answers, puts the
/// cursor to the character under the pointer and takes the selection away; a selection
/// by a drag would begin there. The text stays.
pub proof fn law_click_puts_cursor(
    v: EditorView,
    p: Pointer,
    drag: Option<DragTarget>,
    metrics: TableMetrics,
    ctrl: bool,
    o: usize,
)
    requires
        v.wf(),
        v.mode != Mode::Preview,
        p.offset == Some(o),
        p.table is None,
        p.image is None,
        v.checkbox_edit(o as int) is None,
    ensures
        ({
            let m = v.moused((MouseAction::Click { ctrl }), p, drag, metrics, None);
            &&& m.state.cursor.offset == o
            &&& m.state.selection is None
            &&& m.state.text == v.text
            &&& m.drag matches Some(DragTarget::TextSelection { anchor, .. }) && anchor == o
            &&& m.keep_visible
        }),
{
    reveal(EditorView::edit_moused);
    reveal(EditorView::selecting);
    reveal(EditorView::at);
    reveal(EditorView::aimed_at);
    reveal(EditorView::followed);
    reveal(EditorView::dragging);
}

/// A drag that selects text selects from where it began to the character under the
/// pointer, where the cursor is then; in a cell of a table it ends at the cell's edge.
pub proof fn law_drag_selects_to_pointer(
    v: EditorView,
    p: Pointer,
    metrics: TableMetrics,
    anchor: usize,
    cell: Option<(usize, usize)>,
    o: usize,
)
    requires
        v.wf(),
        v.mode != Mode::Preview,
        p.offset == Some(o),
        cell matches Some((lo, hi)) ==> lo <= hi,
    ensures
        ({
            let drag = Some((DragTarget::TextSelection { anchor, cell }));
            let m = v.moused(MouseAction::Drag, p, drag, metrics, None);
            let c = m.state.cursor.offset;
            &&& m.state.selection == Some((Selection { anchor, active: c }))
            &&& m.state.text == v.text
            &&& m.drag == drag
            &&& cell is None ==> c == o
            &&& cell matches Some((lo, hi)) ==> {
                &&& lo <= c <= hi
                &&& lo <= o <= hi ==> c == o
                &&& o < lo ==> c == lo
                &&& o > hi ==> c == hi
            }
        }),
{
    reveal(EditorView::edit_moused);
    reveal(EditorView::selecting);
    reveal(EditorView::at);
    reveal(EditorView::aimed_at);
    reveal(EditorView::followed);
}

/// Where a drag that selected text ends, a selection of nothing is none, and another one
/// covers what it covered and at most two more characters at each end: a pair of markers
/// around it. Its ends stay the same way round.
pub proof fn law_release_keeps_selection(
    v: EditorView,
    p: Pointer,
    metrics: TableMetrics,
    drag: DragTarget,
    sel: Selection,
)
    requires
        v.wf(),
        v.mode != Mode::Preview,
        drag is TextSelection,
        v.selection == Some(sel),
        sel.anchor <= v.text.len(),
        sel.active <= v.text.len(),
        v.text.len() <= usize::MAX,
    ensures
        ({
            let m = v.moused(MouseAction::Release, p, Some(drag), metrics, None);
            &&& m.drag is None
            &&& m.state.text == v.text
            &&& m.state.cursor == v.cursor
            &&& sel.anchor == sel.active ==> m.state.selection is None
            &&& sel.anchor != sel.active ==> (m.state.selection matches Some(new) && {
                let lo = if sel.anchor <= sel.active {
                    sel.anchor as int
                } else {
                    sel.active as int
                };
                let hi = if sel.anchor <= sel.active {
                    sel.active as int
                } else {
                    sel.anchor as int
                };
                let k = if sel.anchor <= sel.active {
                    lo - new.anchor
                } else {
                    lo - new.active
                };
                &&& sel.anchor < sel.active ==> new.anchor == lo - k && new.active == hi + k
                &&& sel.anchor > sel.active ==> new.active == lo - k && new.anchor == hi + k
                &&& 0 <= k <= 2
                &&& k > 0 ==> lo - k >= 0 && hi + k <= v.text.len() && {
                    ||| forall|j: int|
                        #![trigger v.text[j]]
                        (lo - k <= j < lo || hi <= j < hi + k) ==> v.text[j] == '*'
                    ||| forall|j: int|
                        #![trigger v.text[j]]
                        (lo - k <= j < lo || hi <= j < hi + k) ==> v.text[j] == '_'
                    ||| forall|j: int|
                        #![trigger v.text[j]]
                        (lo - k <= j < lo || hi <= j < hi + k) ==> v.text[j] == '~'
                    ||| forall|j: int|
                        #![trigger v.text[j]]
                        (lo - k <= j < lo || hi <= j < hi + k) ==> v.text[j] == '`'
                }
            })
        }),
{
    reveal(EditorView::edit_moused);
    reveal(EditorView::selecting);
    reveal(EditorView::dragging);
}

/// The word at the cursor selected.
proof fn lemma_word_selected(u: EditorView)
    ensures
        ({
            let w = u.word_selected();
            &&& w.text == u.text
            &&& match selection::word_around(u.text, u.cursor.offset as int) {
                Some((a, b)) => w.selection == Some(
                    (Selection { anchor: a as usize, active: b as usize }),
                ) && w.cursor.offset == b as usize,
                None => w.selection is None,
            }
        }),
{
    reveal(EditorView::selecting);
    reveal(EditorView::at);
    reveal(EditorView::aimed);
}

/// What is noted of the cursor's block is no part of the text, the cursor or the selection.
proof fn lemma_followed(w: EditorView)
    ensures
        w.followed().text == w.text,
        w.followed().selection == w.selection,
        w.followed().cursor == w.cursor,
{
    reveal(EditorView::followed);
}

/// A double click outside tables selects the word at the pointer.
proof fn lemma_double_click(
    v: EditorView,
    p: Pointer,
    drag: Option<DragTarget>,
    metrics: TableMetrics,
    o: usize,
)
    requires
        v.mode != Mode::Preview,
        p.offset == Some(o),
        p.table is None,
    ensures
        ({
            let m = v.moused(MouseAction::DoubleClick, p, drag, metrics, None);
            m.state == v.at(o as int).word_selected().followed() && m.drag is None
        }),
{
    reveal(EditorView::edit_moused);
}

/// A double click selects the whole word under the pointer, or the signs there, with the
/// cursor behind it; among blanks it selects nothing.
pub proof fn law_double_click_selects_word(
    v: EditorView,
    p: Pointer,
    drag: Option<DragTarget>,
    metrics: TableMetrics,
    o: usize,
)
    requires
        v.wf(),
        v.mode != Mode::Preview,
        p.offset == Some(o),
        o <= v.text.len() <= usize::MAX,
        p.table is None,
    ensures
        ({
            let m = v.moused(MouseAction::DoubleClick, p, drag, metrics, None);
            &&& m.state.text == v.text
            &&& m.drag is None
            &&& match m.state.selection {
                Some(sel) => {
                    &&& m.state.cursor.offset == sel.active
                    &&& {
                        ||| is_word(v.text, sel.anchor as int, sel.active as int, o as int)
                        ||| is_signs(v.text, sel.anchor as int, sel.active as int, o as int)
                    }
                },
                None => o < v.text.len() ==> text::is_whitespace_char(v.text[o as int]),
            }
            &&& forall|a: int, b: int| #[trigger]
                is_word(v.text, a, b, o as int) ==> m.state.selection == Some(
                    (Selection { anchor: a as usize, active: b as usize }),
                )
        }),
{
    let u = v.at(o as int);
    assert(u.text == v.text && u.cursor.offset == o) by {
        reveal(EditorView::at);
    }
    lemma_double_click(v, p, drag, metrics, o);
    lemma_word_selected(u);
    lemma_followed(u.word_selected());
    law_word_is_whole(v.text, o as int);
}

/// A triple click outside tables selects the whole line under the pointer with its line
/// break.
pub proof fn law_triple_click_selects_line(
    v: EditorView,
    p: Pointer,
    drag: Option<DragTarget>,
    metrics: TableMetrics,
    o: usize,
)
    requires
        v.wf(),
        v.mode != Mode::Preview,
        p.offset == Some(o),
        o <= v.text.len() <= usize::MAX,
        p.table is None,
        p.cell_source is None,
    ensures
        ({
            let m = v.moused(MouseAction::TripleClick, p, drag, metrics, None);
            &&& m.state.text == v.text
            &&& m.drag is None
            &&& m.state.selection matches Some(sel) && command_laws::is_whole_line(
                v.text,
                sel.anchor as int,
                o as int,
                sel.active as int,
            ) && m.state.cursor.offset == sel.active
        }),
{
    reveal(EditorView::edit_moused);
    reveal(EditorView::selecting);
    reveal(EditorView::at);
    reveal(EditorView::aimed);
    reveal(EditorView::followed);
    command_laws::lemma_whole_line(v.text, o as int);
}

/// The wheel moves the view down by as many rows as it turns, up to the last row, and up
/// by as many, up to the first one. Nothing else changes.
pub proof fn law_wheel_scrolls(
    v: EditorView,
    a: MouseAction,
    p: Pointer,
    drag: Option<DragTarget>,
    metrics: TableMetrics,
    delta: i32,
)
    requires
        a == MouseAction::Scroll(delta),
        v.scroll < p.total_rows,
    ensures
        ({
            let m = v.moused(a, p, drag, metrics, None);
            let w = m.state;
            &&& m.drag == drag
            &&& w.text == v.text && w.cursor == v.cursor && w.selection == v.selection
            &&& w.scroll < p.total_rows
            &&& 0 <= v.scroll + delta < p.total_rows ==> w.scroll == v.scroll + delta
            &&& v.scroll + delta >= p.total_rows ==> w.scroll == p.total_rows - 1
            &&& v.scroll + delta < 0 ==> w.scroll == 0
        }),
{
    reveal(EditorView::edit_moused);
    reveal(EditorView::scrolled);
}

// ── The preview ──────────────────────────────────────────────────────────
/// A click in the preview begins a selection at the place under the pointer, with both
/// ends there; a drag moves the one end to the pointer and leaves the other; a release
/// keeps the selection, unless it is empty.
pub proof fn law_preview_selects_by_drag(
    v: EditorView,
    p: Pointer,
    q: Pointer,
    drag: Option<DragTarget>,
    metrics: TableMetrics,
    at: (usize, usize),
    to: (usize, usize),
)
    requires
        v.mode == Mode::Preview,
        p.shown == Some(at),
        p.band is None,
        q.shown == Some(to),
    ensures
        ({
            let c = v.moused((MouseAction::Click { ctrl: false }), p, drag, metrics, None);
            let d = c.state.moused(MouseAction::Drag, q, c.drag, metrics, None);
            let r = d.state.moused(MouseAction::Release, q, d.drag, metrics, None);
            &&& c.state.visual == Some((VisualSelection { anchor: at, active: at }))
            &&& c.state.band is None
            &&& c.drag is Some
            &&& d.state.visual == Some((VisualSelection { anchor: at, active: to }))
            &&& d.drag == c.drag
            &&& at != to ==> r.state.visual == d.state.visual
            &&& at == to ==> r.state.visual is None
            &&& r.drag is None
            &&& r.state.text == v.text && r.state.cursor == v.cursor
        }),
{
    reveal(EditorView::preview_clicked);
    reveal(EditorView::preview_dragged);
    reveal(EditorView::preview_released);
    reveal(EditorView::showing);
    reveal(EditorView::dragging);
}

/// A double click in the preview selects the word under the pointer on its line, and a
/// triple click the whole line.
pub proof fn law_preview_word_and_line(
    v: EditorView,
    p: Pointer,
    drag: Option<DragTarget>,
    metrics: TableMetrics,
    line: usize,
    col: usize,
)
    requires
        v.mode == Mode::Preview,
        p.shown == Some((line, col)),
        p.band is None,
        line < v.parsed.lines@.len(),
        col <= v.parsed.lines@[line as int]@.len() <= usize::MAX,
    ensures
        ({
            let chars = v.parsed.lines@[line as int]@;
            let d = v.moused(MouseAction::DoubleClick, p, drag, metrics, None).state;
            let t = v.moused(MouseAction::TripleClick, p, drag, metrics, None).state;
            &&& t.visual == Some(
                (VisualSelection { anchor: (line, 0), active: (line, chars.len() as usize) }),
            )
            &&& t.band is None
            &&& forall|a: int, b: int| #[trigger]
                is_word(chars, a, b, col as int) ==> d.visual == Some(
                    (VisualSelection { anchor: (line, a as usize), active: (line, b as usize) }),
                )
            &&& d.text == v.text && t.text == v.text
        }),
{
    reveal(EditorView::preview_word);
    reveal(EditorView::preview_line);
    reveal(EditorView::showing);
    reveal(EditorView::dragging);
    law_word_is_whole(v.parsed.lines@[line as int]@, col as int);
}

// ── Tables ───────────────────────────────────────────────────────────────
/// The button that deletes a row or a column takes the edit of the table out of the text:
/// its bytes are those before and behind what is deleted, with what the edit puts in
/// between. Nothing is selected then.
pub proof fn law_delete_button_makes_its_edit(
    v: EditorView,
    p: Pointer,
    drag: Option<DragTarget>,
    metrics: TableMetrics,
    d: crate::document::history::EditDelta,
)
    requires
        v.wf(),
        !v.readonly,
        v.mode != Mode::Preview,
        p.table matches Some(t) && (t.hit is DeleteRowHandle || t.hit is DeleteColumnHandle)
            && t.start <= v.cursor_byte() < t.end && t.deletion == Some(d),
        state::stands_at_byte(v.text, d@),
        v.deleted_at is None,
    ensures
        ({
            let m = v.moused((MouseAction::Click { ctrl: false }), p, drag, metrics, None);
            let b = state::bytes_of(v.text);
            let from = d.offset as int;
            let to = from + state::bytes_of(d.removed@).len();
            &&& state::bytes_of(m.state.text) == b.subrange(0, from) + state::bytes_of(d.inserted@)
                + b.subrange(to, b.len() as int)
            &&& m.state.selection is None
            &&& m.state.deleted_at == Some(v.now)
            &&& m.drag is None
        }),
{
    reveal(EditorView::edit_moused);
    reveal(EditorView::selecting);
    reveal(EditorView::dragging);
    reveal(EditorView::followed);
    reveal(EditorView::refreshed);
    state::lemma_in_chars_bytes(v.text, d@);
    let e = v.selecting(None);
    crate::editor::edit_ops::basic::lemma_edited_text(e, state::in_chars(v.text, d@));
    reveal(EditorView::edited);
}

/// Within a quarter of a second after a deletion, a click on a button that deletes does
/// nothing: it is the second half of a double click.
pub proof fn law_delete_button_waits(
    v: EditorView,
    p: Pointer,
    drag: Option<DragTarget>,
    metrics: TableMetrics,
    at: u64,
)
    requires
        v.mode != Mode::Preview,
        p.table matches Some(t) && (t.hit is DeleteRowHandle || t.hit is DeleteColumnHandle)
            && t.start <= v.cursor_byte() < t.end,
        v.deleted_at == Some(at),
        at <= v.now,
    ensures
        v.now - at < 250 ==> v.moused(
            (MouseAction::Click { ctrl: false }),
            p,
            drag,
            metrics,
            None,
        ).state == v,
{
    reveal(EditorView::edit_moused);
}

/// The handle of a row or of a column of the table that the cursor is in begins a drag of
/// it, which ends where it began as long as the pointer has not moved; the pointer's row
/// or column is then where it would end.
pub proof fn law_handles_begin_drags(
    v: EditorView,
    p: Pointer,
    q: Pointer,
    drag: Option<DragTarget>,
    metrics: TableMetrics,
)
    requires
        v.mode != Mode::Preview,
        p.table matches Some(t) && (t.hit is RowHandle || t.hit is ColumnHandle) && t.start
            <= v.cursor_byte() < t.end,
        q.hover is Some,
    ensures
        ({
            let m = v.moused((MouseAction::Click { ctrl: false }), p, drag, metrics, None);
            let n = m.state.moused(MouseAction::Drag, q, m.drag, metrics, None);
            let t = p.table->0;
            &&& m.state.text == v.text && n.state.text == v.text
            &&& t.hit matches TableHit::RowHandle { row_idx } ==> {
                &&& m.drag == Some(
                    (DragTarget::TableRow {
                        table_byte_start: t.start,
                        row_idx,
                        hover_row_idx: row_idx,
                    }),
                )
                &&& n.drag == Some(
                    (DragTarget::TableRow {
                        table_byte_start: t.start,
                        row_idx,
                        hover_row_idx: q.hover->0,
                    }),
                )
            }
            &&& t.hit matches TableHit::ColumnHandle { col_idx } ==> {
                &&& m.drag == Some(
                    (DragTarget::TableColumnHeader {
                        table_byte_start: t.start,
                        col_idx,
                        hover_col_idx: col_idx,
                    }),
                )
                &&& n.drag == Some(
                    (DragTarget::TableColumnHeader {
                        table_byte_start: t.start,
                        col_idx,
                        hover_col_idx: q.hover->0,
                    }),
                )
            }
        }),
{
    reveal(EditorView::edit_moused);
    reveal(EditorView::dragging);
}

/// A handle of a table that the cursor is not in only puts the cursor to the table's
/// start.
pub proof fn law_handle_focuses_table_first(
    v: EditorView,
    p: Pointer,
    drag: Option<DragTarget>,
    metrics: TableMetrics,
)
    requires
        v.mode != Mode::Preview,
        p.table matches Some(t) && (t.hit is RowHandle || t.hit is ColumnHandle
            || t.hit is DeleteRowHandle || t.hit is DeleteColumnHandle) && !(t.start
            <= v.cursor_byte() < t.end),
    ensures
        ({
            let m = v.moused((MouseAction::Click { ctrl: false }), p, drag, metrics, None);
            &&& m.state.text == v.text
            &&& m.state.cursor.offset == state::char_at_byte(
                v.text,
                p.table->0.start as int,
            ) as usize
            &&& m.state.selection is None
            &&& m.drag is None
        }),
{
    reveal(EditorView::edit_moused);
    reveal(EditorView::dragging);
    reveal(EditorView::selecting);
    reveal(EditorView::at);
    reveal(EditorView::aimed_at);
    reveal(EditorView::followed);
}

/// The column beside a dragged border is as wide as it was, and as much wider or narrower
/// as the pointer moved, as long as that is neither less than a column's least width nor
/// more than the screen has room for.
pub proof fn law_border_follows_pointer(
    widths: Seq<usize>,
    left: int,
    delta: int,
    viewport: nat,
    metrics: TableMetrics,
)
    requires
        0 <= left < widths.len(),
    ensures
        ({
            let w = table_drag::resized(widths, left, delta, viewport, metrics);
            let least = metrics.min_col_width as int;
            let all = metrics.per_col_overhead * widths.len() + metrics.row_end_overhead
                + table_drag::other_widths(widths, left, widths.len() as int);
            &&& w >= least
            &&& w == least || w + all <= viewport
            &&& w <= widths[left] + delta || w == least
            &&& least <= widths[left] + delta && widths[left] + delta + all <= viewport ==> w
                == widths[left] + delta
        }),
{
}

/// A click on the bullet or the box of a task makes the edit of its checkbox, and nothing
/// else: in the bytes of the text the edit puts what it puts in the place of what it takes
/// out, and the cursor stays.
pub proof fn law_checkbox_click_makes_its_edit(
    v: EditorView,
    p: Pointer,
    drag: Option<DragTarget>,
    metrics: TableMetrics,
    o: usize,
    e: ListEdit,
)
    requires
        v.wf(),
        !v.readonly,
        v.mode == Mode::Rendered,
        p.offset == Some(o),
        o <= v.text.len(),
        p.table is None,
        v.checkbox_edit(o as int) == Some(e),
        state::bytes_of(v.text).len() <= usize::MAX,
    ensures
        ({
            let m = v.moused((MouseAction::Click { ctrl: false }), p, drag, metrics, None);
            let b = state::bytes_of(v.text);
            let c = state::bytes_of(m.state.text);
            &&& c.len() == b.len()
            &&& 0 <= e.offset < b.len()
            &&& forall|k: int| 0 <= k < b.len() && k != e.offset ==> #[trigger] c[k] == b[k]
            &&& c[e.offset] == (if b[e.offset] == 32 {
                120u8
            } else {
                32u8
            })
            &&& m.drag is None
        }),
{
    let m = v.moused((MouseAction::Click { ctrl: false }), p, drag, metrics, None);
    assert(m == v.plain_clicked(p, drag)) by {
        reveal(EditorView::edit_moused);
    }
    let u = v.at(o as int);
    assert(u.text == v.text && u.mode == v.mode && u.readonly == v.readonly && u.cursor.offset
        == o) by {
        reveal(EditorView::at);
    }
    lemma_box_edit(u, e);
    let d = crate::editor::edit_ops::list_ops::delta_of(e);
    state::lemma_in_chars_bytes(v.text, d);
    crate::editor::edit_ops::basic::lemma_edited_text(u, state::in_chars(v.text, d));
    reveal(EditorView::at);
    reveal(EditorView::aimed_at);
    reveal(EditorView::resting);
    reveal(EditorView::dragging);
    let b = state::bytes_of(v.text);
    assert(state::bytes_of(m.state.text) =~= b.update(e.offset, e.inserted[0]));
}

/// The edit of a checkbox takes its mark out and puts another one in.
proof fn lemma_box_edit(u: EditorView, e: ListEdit)
    requires
        u.mode == Mode::Rendered,
        u.cursor.offset <= u.text.len(),
        u.list_toggle_edit() == Some(e),
        state::bytes_of(u.text).len() <= usize::MAX,
    ensures
        ({
            let b = state::bytes_of(u.text);
            let d = crate::editor::edit_ops::list_ops::delta_of(e);
            &&& 0 <= e.offset < b.len()
            &&& e.inserted == seq![
                if b[e.offset] == 32 {
                    120u8
                } else {
                    32u8
                },
            ]
            &&& state::stands_at_byte(u.text, d)
            &&& state::bytes_of(d.inserted) == e.inserted
            &&& state::bytes_of(d.removed).len() == 1
            &&& d.offset == e.offset
        }),
{
    let b = u.bytes();
    let c = u.cursor_byte();
    let info = u.list()->0;
    encode_utf8_valid_utf8(u.text);
    rope::lemma_part_bytes(u.text, 0, u.cursor.offset as int);
    rope::lemma_encode_len(u.text);
    assert(parse::is_list_at(info, b, c));
    edit::lemma_item_index(info, c);
    let i = parse::item_index(info, c)->0;
    let item = info.items@[i];
    assert(parse::item_wf(b, item));
    edit::lemma_items_in_list(b, info, i);
    assert(parse::item_wf(b, info.items@[0]));
    assert(parse::item_wf(b, info.items@[info.items@.len() - 1]));
    let k = item.task_box->0 as int;
    text::lemma_boundary(b, k + 1);
    text::lemma_boundary(b, k + 2);
    assert(b.subrange(k + 1, k + 2) =~= seq![b[k + 1]]);
    growth::lemma_ascii_valid(e.inserted);
    growth::lemma_ascii_valid(e.removed);
    decode_utf8_encode_utf8(e.inserted);
    decode_utf8_encode_utf8(e.removed);
    toggle::lemma_mark_tells(b, info, i);
}

/// A click that follows a link notes the link, and changes neither the text nor the cursor
/// nor the selection.
pub proof fn law_followed_link_is_noted(
    v: EditorView,
    p: Pointer,
    drag: Option<DragTarget>,
    metrics: TableMetrics,
    ctrl: bool,
    link: LinkTarget,
)
    ensures
        ({
            let m = v.moused((MouseAction::Click { ctrl }), p, drag, metrics, Some(link));
            &&& m.state.pending_link == Some(link)
            &&& m.state.text == v.text
            &&& m.state.cursor == v.cursor
            &&& m.state.selection == v.selection
            &&& m.state.scroll == v.scroll
        }),
{
    reveal(EditorView::edit_moused);
    reveal(EditorView::following);
    reveal(EditorView::dragging);
}

/// A click on an image whose source is not shown puts the cursor into the source, which is
/// shown at once.
pub proof fn law_image_click_enters_source(
    v: EditorView,
    p: Pointer,
    drag: Option<DragTarget>,
    metrics: TableMetrics,
    idx: usize,
    target: usize,
)
    requires
        v.mode != Mode::Preview,
        p.image == Some((idx, Some(target))),
        p.table is None,
        p.offset matches Some(o) ==> v.checkbox_edit(o as int) is None,
        v.track.block_idx != Some(idx) || !v.revealed(),
    ensures
        ({
            let m = v.moused((MouseAction::Click { ctrl: false }), p, drag, metrics, None);
            &&& m.state.cursor.offset == target
            &&& m.state.selection is None
            &&& m.state.text == v.text
            &&& m.state.track.entered_at is None
            &&& m.drag is None
        }),
{
    let m = v.moused((MouseAction::Click { ctrl: false }), p, drag, metrics, None);
    assert(m == v.plain_clicked(p, drag)) by {
        reveal(EditorView::edit_moused);
    }
    reveal(EditorView::selecting);
    reveal(EditorView::at);
    reveal(EditorView::aimed_at);
    reveal(EditorView::followed);
    reveal(EditorView::resting);
    reveal(EditorView::dragging);
}

} // verus!
