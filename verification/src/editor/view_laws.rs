//! What holds of the view: scrolling, the section that is shown, reveals and snippets.

use crate::document::buffer::Buffer;
use crate::document::cursor;
use crate::document::rope;
use crate::document::selection::Selection;
use crate::editor::edit_ops::emphasis;
use crate::editor::edit_ops::snippets;
use crate::editor::edit_ops::typing_laws;
use crate::editor::mouse_ops::coord;
use crate::editor::mouse_ops::events::{DragTarget, MouseAction, Pointer};
use crate::editor::mouse_ops::place_laws;
use crate::editor::mouse_ops::screen;
use crate::editor::mode::Mode;
use crate::editor::state::EditorView;
use crate::editor::state_section_path;
use crate::editor::state_section_path::HeadingView;
use crate::editor::table_edit::TableMetrics;
use crate::editor::wrap::Layout;
use vstd::prelude::*;

verus! {

// ── Scrolling ────────────────────────────────────────────────────────────
/// A row that is to be shown is on the screen then, with three rows of context above it
/// where there are so many, and the view stays where it was if the row was on it so.
pub proof fn law_row_is_brought_into_view(v: EditorView, row: int, total: int, height: int)
    requires
        0 <= row < total <= usize::MAX,
        height > 3,
    ensures
        ({
            let w = v.showing_row(row, total, height);
            &&& w.scroll <= row < w.scroll + height
            &&& w.scroll < total || w.scroll == v.scroll
            &&& row >= 3 ==> w.scroll + 3 <= row
            &&& row < 3 && w.scroll != v.scroll ==> w.scroll == 0
            &&& v.scroll + 3 <= row < v.scroll + height ==> w == v
            &&& w.text == v.text && w.cursor == v.cursor
        }),
{
    reveal(EditorView::scrolled);
}

/// A cursor that is put to an offset is there, or at the end of a text that is shorter.
pub proof fn law_cursor_is_put(v: EditorView, offset: int)
    requires
        0 <= offset,
        v.text.len() <= usize::MAX,
    ensures
        v.placed(offset).cursor.offset == (if offset <= v.text.len() {
            offset
        } else {
            v.text.len() as int
        }),
        v.placed(offset).text == v.text,
{
    reveal(EditorView::at);
    reveal(EditorView::aimed);
    reveal(EditorView::followed);
}

// ── Sections ─────────────────────────────────────────────────────────────
/// The path of sections among headings is made of headings, in their order, each deeper
/// than the one before it, and each the nearest above the next one that is less deep. It
/// ends with the last heading.
pub proof fn law_section_path_is_nested(h: Seq<HeadingView>, n: int, level: int) -> (at: Seq<int>)
    requires
        0 <= n <= h.len(),
        forall|k: int| 0 <= k < h.len() ==> (#[trigger] h[k]).level >= 1,
    ensures
        ({
            let path = state_section_path::ancestors(h, n, level);
            &&& at.len() == path.len()
            &&& forall|j: int|
                0 <= j < at.len() ==> 0 <= #[trigger] at[j] < n && path[j] == h[at[j]].text
                    && h[at[j]].level < level
            &&& forall|j: int, k: int|
                0 <= j && k == j + 1 && k < at.len() ==> #[trigger] at[j] < #[trigger] at[k]
                    && h[at[j]].level < h[at[k]].level && forall|m: int|
                    at[j] < m < at[k] ==> (#[trigger] h[m]).level >= h[at[k]].level
            &&& at.len() > 0 ==> forall|m: int|
                0 <= m < at[0] ==> (#[trigger] h[m]).level >= h[at[0]].level || h[at[0]].level == 1
            &&& at.len() > 0 ==> forall|m: int| at.last() < m < n ==> (#[trigger] h[m]).level
                >= level
            &&& at.len() == 0 ==> forall|m: int| 0 <= m < n ==> (#[trigger] h[m]).level >= level
        }),
    decreases n,
{
    let path = state_section_path::ancestors(h, n, level);
    if n <= 0 {
        Seq::empty()
    } else if h[n - 1].level < level {
        if h[n - 1].level == 1 {
            seq![n - 1]
        } else {
            let up = law_section_path_is_nested(h, n - 1, h[n - 1].level);
            let above = state_section_path::ancestors(h, n - 1, h[n - 1].level);
            let at = up.push(n - 1);
            assert forall|j: int| 0 <= j < at.len() implies 0 <= #[trigger] at[j] < n && path[j]
                == h[at[j]].text && h[at[j]].level < level by {
                if j < up.len() {
                    assert(at[j] == up[j]);
                    assert(path[j] == above[j]);
                }
            }
            assert forall|j: int, k: int| 0 <= j && k == j + 1 && k < at.len() implies #[trigger] at[j]
                < #[trigger] at[k] && h[at[j]].level < h[at[k]].level && (forall|m: int|
                at[j] < m < at[k] ==> (#[trigger] h[m]).level >= h[at[k]].level) by {
                assert(at[j] == up[j]);
                if k < up.len() {
                    assert(at[k] == up[k]);
                }
            }
            at
        }
    } else {
        law_section_path_is_nested(h, n - 1, level)
    }
}

// ── Reveals ──────────────────────────────────────────────────────────────
/// The source of the cursor's block is shown once the cursor rested for 120 milliseconds
/// on its line, and not before, unless it is shown as a whole already; and never while
/// the mouse drags, a search is open or a replacement is previewed.
pub proof fn law_reveal_waits(v: EditorView, since: u64)
    requires
        v.track.entered_at == Some(since),
        since <= v.now,
    ensures
        v.drag || v.search is Some || v.substitute_preview ==> !v.revealed(),
        !v.drag && v.search is None && !v.substitute_preview ==> (v.revealed()
            <==> v.track.reveal_latched || v.now - since >= 120),
{
}

/// The cursor is painted in a focused terminal, outside the preview, unless it blinks and
/// is in its dark phase; with a dialog open it does not go dark.
pub proof fn law_cursor_is_painted(v: EditorView)
    ensures
        v.mode == Mode::Preview ==> !v.cursor_shown(),
        !v.settings.terminal_focused ==> !v.cursor_shown(),
        v.mode != Mode::Preview && v.settings.terminal_focused ==> (v.cursor_shown() <==> !(
        v.blink.blinking && !v.blink.visible && !v.settings.modal_open)),
{
}

// ── Selections ───────────────────────────────────────────────────────────
/// The size of a selection in the source is the number of characters between its ends, and
/// that of the lines that they are on: one more than the line breaks among them, but for
/// one at the very end.
pub proof fn law_selection_size_counts(v: EditorView, sel: Selection)
    requires
        v.mode != Mode::Preview,
        v.selection == Some(sel),
        sel.anchor <= v.text.len() <= usize::MAX,
        sel.active <= v.text.len(),
    ensures
        sel.anchor == sel.active ==> v.size_of_selection() is None,
        sel.anchor != sel.active ==> (v.size_of_selection() matches Some((chars, lines)) && {
            let lo = if sel.anchor <= sel.active {
                sel.anchor as int
            } else {
                sel.active as int
            };
            let hi = if sel.anchor <= sel.active {
                sel.active as int
            } else {
                sel.anchor as int
            };
            &&& chars == hi - lo
            &&& 1 <= lines <= chars
            &&& lines == 1 <==> forall|k: int| lo <= k < hi - 1 ==> !rope::ends_line(v.text, k)
        }),
{
    if sel.anchor != sel.active {
        let lo = sel.low() as int;
        let hi = sel.high() as int;
        rope::lemma_lines_before_monotone(v.text, lo, hi - 1);
        if rope::lines_before(v.text, lo) == rope::lines_before(v.text, hi - 1) {
            assert forall|k: int| lo <= k < hi - 1 implies !rope::ends_line(v.text, k) by {
                rope::lemma_lines_before_monotone(v.text, lo, k);
                rope::lemma_lines_before_monotone(v.text, k + 1, hi - 1);
            }
        } else if forall|k: int| lo <= k < hi - 1 ==> !rope::ends_line(v.text, k) {
            lemma_no_breaks(v.text, lo, hi - 1);
        }
    }
}

proof fn lemma_no_breaks(s: Seq<char>, lo: int, hi: int)
    requires
        0 <= lo <= hi,
        forall|k: int| lo <= k < hi ==> !rope::ends_line(s, k),
    ensures
        rope::lines_before(s, lo) == rope::lines_before(s, hi),
    decreases hi - lo,
{
    if lo < hi {
        lemma_no_breaks(s, lo, hi - 1);
        assert(!rope::ends_line(s, hi - 1));
    }
}

// ── Snippets ─────────────────────────────────────────────────────────────
/// A snippet for a link or an image stands at the cursor, or in the place of the selected
/// part of a line, which becomes its text: an exclamation mark for an image, the text in
/// brackets and the destination in parentheses. What the next keys are to replace is
/// selected: the text, or, where that was given, the destination.
pub proof fn law_snippet_is_put_in(
    v: EditorView,
    image: bool,
    placeholder: Seq<char>,
    height: int,
    start: int,
    end: int,
)
    requires
        v.wf(),
        !v.readonly,
        v.mode == Mode::Raw,
        v.snippet_allowed(height),
        match v.selection {
            Some(sel) => (sel.anchor == start && sel.active == end || sel.anchor == end
                && sel.active == start) && start < end <= v.text.len() && !v.text.subrange(
                start,
                end,
            ).contains('\n'),
            None => start == v.cursor.offset && end == start,
        },
        v.text.len() + placeholder.len() + 30 <= usize::MAX,
    ensures
        ({
            let w = v.snippet_made(image, placeholder, None, height);
            let given = v.selection is Some;
            let shown = if given {
                v.text.subrange(start, end)
            } else {
                placeholder
            };
            let head = if image {
                seq!['!', '[']
            } else {
                seq!['[']
            };
            let url = "file path or URL"@;
            &&& w.text == v.text.subrange(0, start) + head + shown + seq![']', '('] + url + seq![
                ')',
            ] + v.text.subrange(end, v.text.len() as int)
            &&& w.selection matches Some(sel) && w.text.subrange(
                sel.anchor as int,
                sel.active as int,
            ) == (if given {
                url
            } else {
                placeholder
            }) && w.cursor.offset == sel.active
        }),
{
    reveal_strlit("file path or URL");
    let e = v.selecting(None);
    assert(e.text == v.text && e.cursor == v.cursor && !e.readonly && e.mode == v.mode) by {
        reveal(EditorView::selecting);
    }
    let shown = if v.selection is Some {
        v.text.subrange(start, end)
    } else {
        placeholder
    };
    let url = "file path or URL"@;
    let t = snippets::reference(image, shown, url);
    let (d, from, to) = e.snippet_edit(v.wrappable(), image, placeholder, None);
    assert(d == crate::editor::edit_ops::basic::splice(v.text, start, end, t));
    lemma_snippet_state(v, e, image, placeholder, height, start, end, t, from, to);
    lemma_reference(
        image,
        shown,
        url,
        v.text.subrange(0, start),
        v.text.subrange(end, v.text.len() as int),
    );
}

/// What is put in, and what is selected then.
proof fn lemma_snippet_state(
    v: EditorView,
    e: EditorView,
    image: bool,
    placeholder: Seq<char>,
    height: int,
    start: int,
    end: int,
    t: Seq<char>,
    from: int,
    to: int,
)
    requires
        !v.readonly,
        v.mode == Mode::Raw,
        v.snippet_allowed(height),
        e == v.selecting(None),
        e.text == v.text && !e.readonly && e.mode == v.mode,
        0 <= start <= end <= v.text.len(),
        start + t.len() <= usize::MAX,
        0 <= from <= to <= t.len(),
        e.snippet_edit(v.wrappable(), image, placeholder, None) == (
            crate::editor::edit_ops::basic::splice(v.text, start, end, t),
            from,
            to,
        ),
    ensures
        ({
            let w = v.snippet_made(image, placeholder, None, height);
            &&& w.text == v.text.subrange(0, start) + t + v.text.subrange(end, v.text.len() as int)
            &&& w.cursor.offset == start + to
            &&& w.selection == Some(
                (Selection { anchor: (start + from) as usize, active: (start + to) as usize }),
            )
        }),
{
    let g = e.at(start);
    assert(g.text == v.text && !g.readonly && g.mode == v.mode) by {
        reveal(EditorView::at);
    }
    typing_laws::lemma_edit(g, start, end, t);
    reveal(EditorView::selecting);
    reveal(EditorView::at);
    reveal(EditorView::aimed);
    reveal(EditorView::followed);
}

/// The parts of a reference in a text.
proof fn lemma_reference(
    image: bool,
    shown: Seq<char>,
    url: Seq<char>,
    pre: Seq<char>,
    suf: Seq<char>,
)
    ensures
        ({
            let head = if image {
                seq!['!', '[']
            } else {
                seq!['[']
            };
            let t = snippets::reference(image, shown, url);
            let all = pre + t + suf;
            let a = pre.len() + head.len();
            let c = a + shown.len() + 2;
            &&& all == pre + head + shown + seq![']', '('] + url + seq![')'] + suf
            &&& all.subrange(a as int, (a + shown.len()) as int) == shown
            &&& all.subrange(c as int, (c + url.len()) as int) == url
            &&& t.len() == head.len() + shown.len() + 3 + url.len()
        }),
{
    let head = if image {
        seq!['!', '[']
    } else {
        seq!['[']
    };
    let t = snippets::reference(image, shown, url);
    let all = pre + t + suf;
    let a = pre.len() + head.len();
    let c = a + shown.len() + 2;
    assert(all =~= pre + head + shown + seq![']', '('] + url + seq![')'] + suf);
    assert(all.subrange(a as int, (a + shown.len()) as int) =~= shown);
    assert(all.subrange(c as int, (c + url.len()) as int) =~= url);
}

/// A reference that is set off as a paragraph of its own begins a line with a blank line,
/// or the start of the text, above it, and ends its line.
pub proof fn law_own_paragraph_stands_alone(s: Seq<char>, at: int, reference: Seq<char>)
    requires
        0 <= at <= s.len(),
    ensures
        ({
            let put = emphasis::own_paragraph(s, at, reference);
            let t = s.subrange(0, at) + put + s.subrange(at, s.len() as int);
            exists|p: int| #[trigger]
                stands_alone(t, p, reference) && at <= p <= at + 2
        }),
{
    let put = emphasis::own_paragraph(s, at, reference);
    let t = s.subrange(0, at) + put + s.subrange(at, s.len() as int);
    let starts = at == 0 || s[at - 1] == '\n';
    let above = at < 2 || s[at - 2] == '\n';
    let p = if starts && above {
        at
    } else if starts {
        at + 1
    } else {
        at + 2
    };
    let q = p + reference.len();
    assert(t.subrange(p, q as int) =~= reference);
    if p > at {
        assert(t[p - 1] == put[p - 1 - at]);
    } else if at > 0 {
        assert(t[at - 1] == s[at - 1]);
    }
    if p >= 2 {
        if p - 2 >= at {
            assert(t[p - 2] == put[p - 2 - at]);
        } else {
            assert(t[p - 2] == s[p - 2]);
        }
    }
    if at < s.len() && s[at] == '\n' {
        assert(t[q as int] == s[at]);
    } else {
        assert(t[q as int] == put[q - at]);
    }
    assert(stands_alone(t, p, reference));
}

/// `reference` stands in `t` from `p` on as a paragraph of its own.
pub open spec fn stands_alone(t: Seq<char>, p: int, reference: Seq<char>) -> bool {
    let q = p + reference.len();
    &&& 0 <= p && q < t.len()
    &&& t.subrange(p, q) == reference
    &&& p == 0 || t[p - 1] == '\n'
    &&& p < 2 || t[p - 2] == '\n'
    &&& t[q] == '\n'
}

// ── Documents ────────────────────────────────────────────────────────────
/// A document that takes the place of another one is there as it is, with nothing to undo
/// or redo, not changed, with nothing selected and no search; the cursor keeps its offset
/// as far as the text goes.
pub proof fn law_replaced_document_is_fresh(v: EditorView, new: Buffer)
    requires
        new@.len() <= usize::MAX,
    ensures
        ({
            let w = v.replaced(new);
            &&& w.text == new@
            &&& w.undo.len() == 0 && w.redo.len() == 0
            &&& !w.dirty
            &&& w.selection is None && w.visual is None
            &&& w.search is None
            &&& w.cursor.offset == (if v.cursor.offset <= new@.len() {
                v.cursor.offset as int
            } else {
                new@.len() as int
            })
            &&& w.reparse_due
        }),
{
    reveal(EditorView::at);
    reveal(EditorView::selecting);
    reveal(EditorView::showing);
    reveal(EditorView::refreshed);
    reveal(EditorView::followed);
}

/// Paragraphs flow in the preview and in the rendered view, where the user wants them to,
/// and never in the source or in a review.
pub proof fn law_paragraphs_flow(v: EditorView)
    ensures
        v.want_reflow() <==> v.settings.reflow && v.mode != Mode::Raw && v.mode != Mode::Diff,
{
}

// ── Column widths ────────────────────────────────────────────────────────
/// A drag of a border gives a width to the column beside it, and leaves those of all other
/// columns as the user had them.
pub proof fn law_border_drag_pins_one_column(
    v: EditorView,
    p: Pointer,
    metrics: TableMetrics,
    table: usize,
    col: usize,
    widths: Vec<usize>,
    user: Vec<Option<usize>>,
    anchor_x: u16,
)
    requires
        v.mode != Mode::Preview,
        0 < col <= widths@.len(),
    ensures
        ({
            let drag = DragTarget::TableColumnBorder {
                table_byte_start: table,
                col_idx: col,
                start_widths: widths,
                start_user_widths: user,
                anchor_x,
            };
            let m = v.moused(MouseAction::Drag, p, Some(drag), metrics, None);
            &&& m.state.text == v.text
            &&& m.drag == Some(drag)
            &&& m.state.live_widths matches Some(live) && {
                &&& live.0 == table
                &&& live.1.len() >= widths@.len()
                &&& live.1[col - 1] is Some
                &&& forall|k: int|
                    0 <= k < live.1.len() && k != col - 1 ==> #[trigger] live.1[k] == (if k
                        < user@.len() {
                        user@[k]
                    } else {
                        None
                    })
            }
        }),
{
    let drag = DragTarget::TableColumnBorder {
        table_byte_start: table,
        col_idx: col,
        start_widths: widths,
        start_user_widths: user,
        anchor_x,
    };
    let m = v.moused(MouseAction::Drag, p, Some(drag), metrics, None);
    assert(m == v.mouse_dragged(p, Some(drag), metrics)) by {
        reveal(EditorView::edit_moused);
    }
    reveal(EditorView::with_live_widths);
    reveal(EditorView::refreshed);
}

/// When the drag of a border ends, the widths that it gave to its table wait to be written;
/// those of another table are dropped.
pub proof fn law_dropped_border_waits(
    v: EditorView,
    p: Pointer,
    metrics: TableMetrics,
    drag: DragTarget,
)
    requires
        v.mode != Mode::Preview,
        drag is TableColumnBorder,
    ensures
        ({
            let r = v.moused(MouseAction::Release, p, Some(drag), metrics, None);
            let table = drag->TableColumnBorder_table_byte_start;
            &&& r.state.text == v.text
            &&& r.drag is None
            &&& v.live_widths matches Some(live) ==> live.0 == table ==> r.state.widths_to_write()
                == Some(live.1)
            &&& (v.live_widths matches Some(live) ==> live.0 != table) ==> r.state.live_widths
                is None
        }),
{
    let r = v.moused(MouseAction::Release, p, Some(drag), metrics, None);
    assert(r.state == v.mouse_released(p, Some(drag)) && r.drag is None) by {
        reveal(EditorView::edit_moused);
    }
    reveal(EditorView::with_live_widths);
    reveal(EditorView::with_pending_widths);
    reveal(EditorView::refreshed);
    reveal(EditorView::dragging);
}

// ── Clicks in the source ─────────────────────────────────────────────────
/// A click in the source view on the cell at which the cursor is shown, on the row of the
/// screen that shows its row, leads to the cursor. The row of the screen is counted from
/// the first row of line `top`.
pub proof fn law_source_click_leads_to_cursor(v: EditorView, layout: Layout, top: usize, row: int)
    requires
        v.wf(),
        v.mode == Mode::Raw,
        layout.fits(v.text),
        layout.width > 0,
        top <= v.line(),
        coord::walked(screen::line_rows(layout), top as int, 0, row) == Some(
            (v.line(), v.row(layout)),
        ),
        ({
            let start = cursor::line_start_of(v.text, v.cursor.offset as int);
            let rows = layout.wraps@[v.line()].rows@;
            let k = v.row(layout);
            let from = start + rows[k].start;
            let c = v.cursor.offset as int;
            &&& 0 <= k < rows.len()
            &&& from <= c
            &&& k + 1 == rows.len() ==> c <= start + rows[k].end
            &&& k + 1 < rows.len() ==> c < start + rows[k].end
            &&& c < start + rows[k].end ==> crate::cells::cells(v.text[c]) >= 1
            &&& rows[k].start < rows[k].end ==> crate::cells::cells(v.text[from]) >= 1
            &&& crate::cells::cells_of(v.text.subrange(from, c)) <= usize::MAX
            &&& rows.len() <= usize::MAX
        }),
    ensures
        v.raw_clicked(v.visual_col(layout) as int, row, (top, 0), layout) == v.cursor.offset,
{
    let c = v.cursor.offset as int;
    let line = v.line();
    let k = v.row(layout);
    let rows = layout.wraps@[line].rows@;
    rope::lemma_line_of(v.text, c);
    rope::lemma_line_begin(v.text, line);
    assert(layout.wraps@[line].fits(cursor::line_len(v.text, line)));
    assert(rows[k].start <= rows[k].end);
    cursor::lemma_line_len(v.text, line);
    place_laws::law_shown_cell_leads_back(
        v.text,
        rope::line_begin(v.text, line),
        rows[k],
        c,
        k + 1 == rows.len(),
        0,
    );
    assert(layout.wraps@[line].indent_of(k, true) == 0);
}

/// A newly rendered document is the one that is shown, and the view is within its rows.
pub proof fn law_installed_document_is_in_view(
    v: EditorView,
    parsed: crate::document::parsed_doc::ParsedDoc,
    total: int,
)
    requires
        0 < total <= usize::MAX,
    ensures
        ({
            let w = v.installed(parsed, total);
            &&& w.parsed == parsed
            &&& w.scroll < total
            &&& v.scroll < total ==> w.scroll == v.scroll
            &&& w.text == v.text && w.cursor == v.cursor
        }),
{
    reveal(EditorView::scrolled);
    reveal(EditorView::followed);
    reveal(EditorView::rendered_as);
}

} // verus!
