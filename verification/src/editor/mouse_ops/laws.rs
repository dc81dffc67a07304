//! What drags, clicks and selections with the mouse do.

use crate::document::history;
use crate::document::history::EditDelta;
use crate::document::parsed_doc::RenderedLine;
use crate::document::selection::{CellBand, VisualSelection};
use crate::editor::mouse_ops::drag_commit;
use crate::editor::mouse_ops::events::{DragTarget, Pointer};
use crate::editor::mouse_ops::selection;
use crate::editor::state;
use crate::editor::state::EditorView;
use crate::text;
use vstd::prelude::*;
use vstd::utf8::*;

verus! {

/// `steps` are the bytes of a text as swaps change it, one after the other: each swap
/// takes whole characters out and puts others in their place.
pub open spec fn swap_steps(b: Seq<u8>, swaps: Seq<EditDelta>, steps: Seq<Seq<u8>>) -> bool {
    &&& steps.len() == swaps.len() + 1
    &&& steps[0] == b
    &&& forall|i: int|
        #![trigger swaps[i]]
        0 <= i < swaps.len() ==> {
            let from = swaps[i].offset as int;
            let to = from + encode_utf8(swaps[i].removed@).len();
            &&& 0 <= from <= to <= steps[i].len()
            &&& is_char_boundary(steps[i], from)
            &&& is_char_boundary(steps[i], to)
            &&& steps[i + 1] == steps[i].subrange(0, from) + encode_utf8(swaps[i].inserted@)
                + steps[i].subrange(to, steps[i].len() as int)
        }
}

proof fn lemma_steps(b: Seq<u8>, swaps: Seq<EditDelta>, steps: Seq<Seq<u8>>, n: int)
    requires
        valid_utf8(b),
        swap_steps(b, swaps, steps),
        0 <= n <= swaps.len(),
    ensures
        drag_commit::composed(b, swaps, n) == steps[n],
        valid_utf8(steps[n]),
    decreases n,
{
    if n > 0 {
        lemma_steps(b, swaps, steps, n - 1);
        let d = swaps[n - 1];
        let before = steps[n - 1];
        let from = d.offset as int;
        let to = from + encode_utf8(d.removed@).len();
        valid_utf8_split(before, from);
        valid_utf8_split(before, to);
        encode_utf8_valid_utf8(d.inserted@);
        let head = before.subrange(0, from);
        let tail = before.subrange(to, before.len() as int);
        valid_utf8_concat(head, encode_utf8(d.inserted@));
        valid_utf8_concat(head + encode_utf8(d.inserted@), tail);
        assert(steps[n - 1 + 1] == head + encode_utf8(d.inserted@) + tail);
        assert(d.applied(before) =~= steps[n]);
    }
}

/// The bytes after the swaps are those that the swaps make.
proof fn lemma_swapped(v: EditorView, swaps: Seq<EditDelta>, steps: Seq<Seq<u8>>)
    requires
        !v.readonly,
        swap_steps(encode_utf8(v.text), swaps, steps),
    ensures
        encode_utf8(v.swapped(swaps).text) == steps.last(),
        v.swapped(swaps).selection == v.selection,
        v.swapped(swaps).mode == v.mode,
{
    let b = encode_utf8(v.text);
    encode_utf8_valid_utf8(v.text);
    lemma_steps(b, swaps, steps, swaps.len() as int);
    let n = steps.last();
    if n != b {
        let p = history::kept_prefix(b, n);
        let s = history::kept_suffix(b, n);
        history::lemma_kept_edges(b, n);
        let d = drag_commit::one_edit(b, n);
        text::lemma_boundary_of_part(b, p, b.len() - s, p);
        text::lemma_boundary_of_part(n, p, n.len() - s, p);
        decode_utf8_encode_utf8(b.subrange(p, b.len() - s));
        decode_utf8_encode_utf8(n.subrange(p, n.len() - s));
        assert(state::stands_at_byte(v.text, d));
        state::lemma_in_chars_bytes(v.text, d);
        assert(n =~= n.subrange(0, p) + n.subrange(p, n.len() - s) + n.subrange(
            n.len() - s,
            n.len() as int,
        ));
        reveal(EditorView::edited);
        reveal(EditorView::followed);
        reveal(EditorView::refreshed);
        reveal(EditorView::at);
        reveal(EditorView::aimed);
    }
}

/// Where the drag of a column ends over another one, in either direction, the bytes of
/// the text are those that the given swaps make of it, one after the other; where it ends
/// over the column itself the text is as before.
pub proof fn law_column_drag_makes_swaps(
    v: EditorView,
    p: Pointer,
    drag: DragTarget,
    steps: Seq<Seq<u8>>,
)
    requires
        !v.readonly,
        drag is TableColumnHeader,
        swap_steps(encode_utf8(v.text), p.swaps@, steps),
    ensures
        ({
            let w = v.mouse_released(p, Some(drag));
            &&& drag->TableColumnHeader_col_idx != drag->TableColumnHeader_hover_col_idx
                ==> encode_utf8(w.text) == steps.last()
            &&& drag->TableColumnHeader_col_idx == drag->TableColumnHeader_hover_col_idx
                ==> w.text == v.text && w.undo == v.undo
            &&& w.selection == v.selection
            &&& w.mode == v.mode
        }),
{
    reveal(EditorView::dragging);
    lemma_swapped(v, p.swaps@, steps);
}

/// Where the drag of a row ends over another one below the header and the row of dashes,
/// in either direction, the bytes of the text are those that the given swaps make of it,
/// one after the other. The header and the row of dashes stay where they are, and a row
/// that is put down where it was changes nothing.
pub proof fn law_row_drag_makes_swaps(
    v: EditorView,
    p: Pointer,
    drag: DragTarget,
    steps: Seq<Seq<u8>>,
)
    requires
        !v.readonly,
        drag is TableRow,
        swap_steps(encode_utf8(v.text), p.swaps@, steps),
    ensures
        ({
            let w = v.mouse_released(p, Some(drag));
            let src = drag->TableRow_row_idx;
            let dst = drag->TableRow_hover_row_idx;
            &&& src != dst && src >= 2 && dst >= 2 ==> encode_utf8(w.text) == steps.last()
            &&& src == dst || src < 2 || dst < 2 ==> w.text == v.text && w.undo == v.undo
            &&& w.selection == v.selection
            &&& w.mode == v.mode
        }),
{
    reveal(EditorView::dragging);
    lemma_swapped(v, p.swaps@, steps);
}

/// The swaps of a drag are of neighbours, each where the one before ended, from where the
/// drag began to where it ended.
pub proof fn law_drag_path_leads_there(src: int, dst: int)
    requires
        0 <= src,
        0 <= dst,
    ensures
        ({
            let p = drag_commit::path(src, dst);
            &&& p.len() == (if src <= dst {
                dst - src
            } else {
                src - dst
            })
            &&& p.len() > 0 ==> p[0].0 == src && p.last().1 == dst
            &&& forall|i: int|
                0 <= i < p.len() ==> (#[trigger] p[i]).1 == p[i].0 + 1 || p[i].1 == p[i].0 - 1
            &&& forall|i: int, j: int|
                0 <= i && j == i + 1 && j < p.len() ==> (#[trigger] p[i]).1 == (#[trigger] p[j]).0
        }),
{
}

// ── Rendered text ────────────────────────────────────────────────────────
/// The lines of a text: what stands before, between and behind its line feeds.
pub open spec fn split_at_feeds(t: Seq<char>) -> Seq<Seq<char>>
    decreases t.len(),
{
    if t.len() == 0 {
        seq![Seq::empty()]
    } else {
        let rest = split_at_feeds(t.drop_last());
        if t.last() == '\n' {
            rest.push(Seq::empty())
        } else {
            rest.update(rest.len() - 1, rest.last().push(t.last()))
        }
    }
}

proof fn lemma_split_len(t: Seq<char>)
    ensures
        split_at_feeds(t).len() > 0,
    decreases t.len(),
{
    if t.len() > 0 {
        lemma_split_len(t.drop_last());
    }
}

/// What is put behind a text and holds no line feed goes to its last line.
proof fn lemma_split_append(s: Seq<char>, t: Seq<char>)
    requires
        forall|i: int| 0 <= i < t.len() ==> #[trigger] t[i] != '\n',
    ensures
        ({
            let p = split_at_feeds(s);
            split_at_feeds(s + t) == p.update(p.len() - 1, p.last() + t)
        }),
    decreases t.len(),
{
    lemma_split_len(s);
    let p = split_at_feeds(s);
    if t.len() == 0 {
        assert(s + t =~= s);
        assert(p.last() + t =~= p.last());
        assert(p.update(p.len() - 1, p.last()) =~= p);
    } else {
        let u = t.drop_last();
        assert forall|i: int| 0 <= i < u.len() implies #[trigger] u[i] != '\n' by {
            assert(u[i] == t[i]);
        }
        lemma_split_append(s, u);
        assert((s + t).drop_last() =~= s + u);
        assert((s + t).last() == t.last());
        assert(t.last() == t[t.len() - 1]);
        let q = p.update(p.len() - 1, p.last() + u);
        assert((p.last() + u).push(t.last()) =~= p.last() + t);
        assert(q.update(q.len() - 1, q.last().push(t.last())) =~= p.update(
            p.len() - 1,
            p.last() + t,
        ));
    }
}

/// What a selection without a cell takes of line `i` of the lines `a..=b`.
pub open spec fn piece(
    lines: Seq<RenderedLine>,
    a: (usize, usize),
    b: (usize, usize),
    i: int,
) -> Seq<char> {
    let len = lines[i]@.len() as int;
    let lo = if i == a.0 && a.1 < len {
        a.1 as int
    } else if i == a.0 {
        len
    } else {
        0
    };
    let hi = if i == b.0 && b.1 < len {
        b.1 as int
    } else {
        len
    };
    lines[i]@.subrange(lo, hi)
}

proof fn lemma_pieces(
    lines: Seq<RenderedLine>,
    a: (usize, usize),
    b: (usize, usize),
    upto: int,
)
    requires
        a.0 < b.0 || (a.0 == b.0 && a.1 <= b.1),
        b.0 < lines.len(),
        a.0 < upto <= b.0 + 1,
        forall|i: int, j: int|
            #![trigger lines[i]@[j]]
            a.0 <= i <= b.0 && 0 <= j < lines[i]@.len() ==> lines[i]@[j] != '\n',
    ensures
        ({
            let t = selection::taken_lines(lines, a, b.0 as int, b.1 as int, None, upto);
            let p = split_at_feeds(t);
            &&& upto <= b.0 ==> p.len() == upto - a.0 + 1 && p.last() == Seq::<char>::empty()
            &&& upto > b.0 ==> p.len() == upto - a.0
            &&& forall|i: int| 0 <= i < upto - a.0 ==> #[trigger] p[i] == piece(lines, a, b, a.0 + i)
        }),
    decreases upto,
{
    let idx = upto - 1;
    let before = selection::taken_lines(lines, a, b.0 as int, b.1 as int, None, idx);
    if idx > a.0 {
        lemma_pieces(lines, a, b, idx);
    } else {
        assert(before =~= Seq::<char>::empty());
    }
    let t = selection::taken_text(lines[idx]@, idx, a, b.0 as int, b.1 as int, None);
    assert(t =~= piece(lines, a, b, idx));
    assert forall|i: int| 0 <= i < t.len() implies #[trigger] t[i] != '\n' by {
        let lo = selection::taken(lines[idx]@, idx, a, b.0 as int, b.1 as int, None).0;
        assert(t[i] == lines[idx]@[lo + i]);
    }
    lemma_split_append(before, t);
    assert(split_at_feeds(before).last() + t =~= t);
    let r = before + t;
    assert(r.push('\n').drop_last() =~= r);
    assert(r.push('\n').last() == '\n');
}

/// Outside cells a selection gives the text of the rendered lines that it covers, the
/// first and the last cut at its ends: split at line feeds it is exactly those lines. So
/// a selection of whole lines `a..=b` gives them as they are, with `b - a` line feeds.
pub proof fn law_rendered_text_is_lines(
    lines: Seq<RenderedLine>,
    sel: VisualSelection,
    a: (usize, usize),
    b: (usize, usize),
)
    requires
        a.0 < b.0 || (a.0 == b.0 && a.1 <= b.1),
        b.0 < lines.len(),
        (sel.anchor == a && sel.active == b) || (sel.anchor == b && sel.active == a),
        forall|i: int, j: int|
            #![trigger lines[i]@[j]]
            a.0 <= i <= b.0 && 0 <= j < lines[i]@.len() ==> lines[i]@[j] != '\n',
    ensures
        ({
            let p = split_at_feeds(selection::rendered_text(sel, None, lines));
            &&& p.len() == b.0 - a.0 + 1
            &&& forall|i: int| 0 <= i < p.len() ==> #[trigger] p[i] == piece(lines, a, b, a.0 + i)
            &&& a.1 == 0 && b.1 >= lines[b.0 as int]@.len() ==> forall|i: int|
                0 <= i < p.len() ==> #[trigger] p[i] == lines[a.0 + i]@
        }),
{
    lemma_pieces(lines, a, b, b.0 + 1);
    let p = split_at_feeds(selection::rendered_text(sel, None, lines));
    if a.1 == 0 && b.1 >= lines[b.0 as int]@.len() {
        assert forall|i: int| 0 <= i < p.len() implies #[trigger] p[i] == lines[a.0 + i]@ by {
            let l = lines[a.0 + i]@;
            assert(l.subrange(0, l.len() as int) =~= l);
            assert(p[i] == piece(lines, a, b, a.0 + i));
        }
    }
}

proof fn lemma_band_lines(
    lines: Seq<RenderedLine>,
    from: (usize, usize),
    last: int,
    end_col: int,
    band: CellBand,
    upto: int,
)
    requires
        last < lines.len(),
        upto <= last + 1,
        forall|i: int, j: int|
            #![trigger lines[i]@[j]]
            from.0 <= i <= last && 0 <= j < lines[i]@.len() ==> lines[i]@[j] != '\n',
    ensures
        ({
            let t = selection::taken_lines(lines, from, last, end_col, Some(band), upto);
            forall|k: int| 0 <= k < t.len() ==> #[trigger] t[k] != '\n'
        }),
    decreases upto,
{
    if upto > from.0 {
        let idx = upto - 1;
        lemma_band_lines(lines, from, last, end_col, band, idx);
        let line = lines[idx]@;
        let (lo, hi) = selection::taken(line, idx, from, last, end_col, Some(band));
        let t = selection::taken_text(line, idx, from, last, end_col, Some(band));
        if lo < hi {
            let part = line.subrange(lo, hi);
            text::lemma_skip_whitespace_back(part, 0, part.len() as int);
            assert forall|k: int| 0 <= k < t.len() implies #[trigger] t[k] != '\n' by {
                assert(t[k] == part[k]);
                assert(part[k] == line[lo + k]);
            }
        }
        let before = selection::taken_lines(lines, from, last, end_col, Some(band), idx);
        let all = selection::taken_lines(lines, from, last, end_col, Some(band), upto);
        assert forall|k: int| 0 <= k < all.len() implies #[trigger] all[k] != '\n' by {
            if k < before.len() {
                assert(all[k] == before[k]);
            } else if k < before.len() + t.len() {
                assert(all[k] == t[k - before.len()]);
            }
        }
    }
}

/// A selection inside a cell gives one line: what the cell wraps into is joined again
/// without line feeds.
pub proof fn law_cell_text_is_one_line(
    lines: Seq<RenderedLine>,
    sel: VisualSelection,
    band: CellBand,
)
    requires
        forall|i: int, j: int|
            #![trigger lines[i]@[j]]
            0 <= i < lines.len() && 0 <= j < lines[i]@.len() ==> lines[i]@[j] != '\n',
    ensures
        !selection::rendered_text(sel, Some(band), lines).contains('\n'),
{
    let (from, to) = sel.span();
    if from.0 < lines.len() {
        let last = if to.0 < lines.len() {
            to.0 as int
        } else {
            lines.len() - 1
        };
        lemma_band_lines(lines, from, last, to.1 as int, band, last + 1);
    }
}

} // verus!
