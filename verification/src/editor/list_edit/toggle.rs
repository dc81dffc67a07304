//! A checkbox toggled twice is as it was.

use crate::editor::list_edit::edit;
use crate::editor::list_edit::edit::ListEdit;
use crate::editor::list_edit::parse;
use crate::editor::list_edit::parse::{ListInfo, ListItemInfo, MarkerKind};
use crate::text;
use vstd::prelude::*;
use vstd::utf8::*;

verus! {

/// `b` and `c` are the same texts but for the mark in one checkbox, at `p`.
pub open spec fn one_box(b: Seq<u8>, c: Seq<u8>, p: int) -> bool {
    let ls = text::line_start(b, p);
    let le = text::line_end(b, p);
    let m = parse::marker_of(b.subrange(ls, le));
    &&& valid_utf8(b) && valid_utf8(c)
    &&& b.len() == c.len()
    &&& 0 <= p < b.len()
    &&& forall|i: int| 0 <= i < b.len() && i != p ==> #[trigger] b[i] == c[i]
    &&& b[p] != text::NEWLINE && c[p] != text::NEWLINE
    &&& m is Some
    &&& p == ls + (m->0).width + 1
    &&& parse::checkbox(b.subrange(p - 1, le)) is Some
    &&& parse::checkbox(c.subrange(p - 1, le)) == Some(!(parse::checkbox(b.subrange(p - 1, le))->0))
}

proof fn lemma_line_end_same(b: Seq<u8>, c: Seq<u8>, p: int, q: int)
    requires
        one_box(b, c, p),
        0 <= q <= b.len(),
    ensures
        text::line_end(b, q) == text::line_end(c, q),
    decreases b.len() - q,
{
    if q < b.len() {
        lemma_line_end_same(b, c, p, q + 1);
        assert((b[q] == text::NEWLINE) == (c[q] == text::NEWLINE));
    }
}

proof fn lemma_line_start_same(b: Seq<u8>, c: Seq<u8>, p: int, q: int)
    requires
        one_box(b, c, p),
        0 <= q <= b.len(),
    ensures
        text::line_start(b, q) == text::line_start(c, q),
    decreases q,
{
    if q > 0 {
        lemma_line_start_same(b, c, p, q - 1);
        assert((b[q - 1] == text::NEWLINE) == (c[q - 1] == text::NEWLINE));
    }
}

pub proof fn lemma_skip_indent_is(line: Seq<u8>, i: int, n: int)
    requires
        0 <= i <= n <= line.len(),
        forall|j: int| i <= j < n ==> parse::is_indent_byte(#[trigger] line[j]),
        n < line.len() ==> !parse::is_indent_byte(line[n]),
    ensures
        parse::skip_indent(line, i) == n,
    decreases n - i,
{
    if i < n {
        lemma_skip_indent_is(line, i + 1, n);
    }
}

pub proof fn lemma_skip_digits_is(line: Seq<u8>, i: int, n: int)
    requires
        0 <= i <= n <= line.len(),
        forall|j: int| i <= j < n ==> text::is_digit(#[trigger] line[j]),
        n < line.len() ==> !text::is_digit(line[n]),
    ensures
        parse::skip_digits(line, i) == n,
    decreases n - i,
{
    if i < n {
        lemma_skip_digits_is(line, i + 1, n);
    }
}

proof fn lemma_digits_stop(line: Seq<u8>, i: int)
    requires
        0 <= i <= line.len(),
    ensures
        parse::skip_digits(line, i) < line.len() ==> !text::is_digit(
            line[parse::skip_digits(line, i)],
        ),
    decreases line.len() - i,
{
    if i < line.len() && text::is_digit(line[i]) {
        lemma_digits_stop(line, i + 1);
    }
}

/// The marker of a line is told by its first bytes.
proof fn lemma_marker_same(x: Seq<u8>, y: Seq<u8>)
    requires
        parse::marker_of(x) is Some,
        x.len() == y.len(),
        forall|j: int| 0 <= j <= (parse::marker_of(x)->0).width && j < x.len() ==> #[trigger] x[j]
            == y[j],
    ensures
        parse::marker_of(y) == parse::marker_of(x),
        parse::skip_indent(y, 0) == parse::skip_indent(x, 0),
        parse::skip_indent(x, 0) < (parse::marker_of(x)->0).width,
{
    let i = parse::skip_indent(x, 0);
    let d = parse::skip_digits(x, i);
    parse::lemma_marker(x);
    parse::lemma_skip_indent(x, 0);
    parse::lemma_skip_digits(x, i);
    lemma_digits_stop(x, i);
    let w = (parse::marker_of(x)->0).width as int;
    assert forall|j: int| 0 <= j < i implies parse::is_indent_byte(#[trigger] y[j]) by {
        assert(x[j] == y[j]);
        assert(parse::is_indent_byte(x[j]));
    }
    assert(y[i] == x[i]);
    lemma_skip_indent_is(y, 0, i);
    assert(y.subrange(0, i) =~= x.subrange(0, i));
    if (parse::marker_of(x)->0).kind is Ordered {
        assert forall|j: int| i <= j < d implies text::is_digit(#[trigger] y[j]) by {
            assert(x[j] == y[j]);
            assert(text::is_digit(x[j]));
        }
        assert(y[d] == x[d]);
        lemma_skip_digits_is(y, i, d);
        assert(y.subrange(i, d) =~= x.subrange(i, d));
        assert(y[d + 1] == x[d + 1]);
    } else {
        assert(y[i + 1] == x[i + 1]);
    }
}

/// A line that holds a bracket is not blank.
proof fn lemma_bracket_not_blank(x: Seq<u8>, w: int)
    requires
        valid_utf8(x),
        0 <= w < x.len(),
        x[w] == 91,
    ensures
        !text::blank(x),
{
    text::lemma_boundary(x, w);
    decode_utf8_split(x, w);
    valid_utf8_split(x, w);
    let post = x.subrange(w, x.len() as int);
    let pre = x.subrange(0, w);
    decode_utf8_first_scalar(post);
    let all = decode_utf8(x);
    let n = decode_utf8(pre).len() as int;
    assert(post[0] == 91);
    assert(decode_utf8(post).len() > 0);
    assert(all[n] == decode_utf8(post)[0]);
    assert(91u8 & 0x7F == 91u8) by (bit_vector);
    assert(91u8 & 0x80 == 0) by (bit_vector);
    assert(decode_utf8(post)[0] == '[');
    if text::blank(x) {
        assert(text::is_whitespace_char(all[n]));
    }
}

/// A line of the one text reads as the same line of the other.
proof fn lemma_line_same(b: Seq<u8>, c: Seq<u8>, p: int, a: int, e: int, indent: Seq<u8>)
    requires
        one_box(b, c, p),
        0 <= a <= e <= b.len(),
        text::at_line_start(b, a),
        text::at_line_end(b, e),
        forall|i: int| a <= i < e ==> b[i] != text::NEWLINE,
    ensures
        parse::marker_of(b.subrange(a, e)) == parse::marker_of(c.subrange(a, e)),
        text::blank(b.subrange(a, e)) == text::blank(c.subrange(a, e)),
        parse::indented(b.subrange(a, e)) == parse::indented(c.subrange(a, e)),
        parse::continuation(b.subrange(a, e), indent) == parse::continuation(
            c.subrange(a, e),
            indent,
        ),
{
    let x = b.subrange(a, e);
    let y = c.subrange(a, e);
    if a <= p < e {
        text::lemma_line_start_unique(b, a, p);
        text::lemma_line_end_unique(b, p, e);
        let m = parse::marker_of(x)->0;
        parse::lemma_marker(x);
        let w = m.width as int;
        let box_b = b.subrange(p - 1, e);
        assert(box_b[0] == 91);
        assert(x[w] == b[p - 1]);
        assert(x[w] == 91);
        assert forall|j: int| 0 <= j <= w && j < x.len() implies #[trigger] x[j] == y[j] by {
            assert(b[a + j] == c[a + j]);
        }
        lemma_marker_same(x, y);
        assert(y[w] == 91);
        text::lemma_line_edges(b, a);
        text::lemma_line_edges(b, e);
        assert(text::at_line_start(c, a)) by {
            if a > 0 {
                assert(b[a - 1] == c[a - 1]);
            }
        }
        assert(text::at_line_end(c, e)) by {
            if e < b.len() {
                assert(b[e] == c[e]);
            }
        }
        text::lemma_line_edges(c, a);
        text::lemma_line_edges(c, e);
        text::lemma_boundary_of_part(b, a, e, a);
        text::lemma_boundary_of_part(c, a, e, a);
        lemma_bracket_not_blank(x, w);
        lemma_bracket_not_blank(y, w);
        assert(x[0] == y[0]);
        let lead = parse::skip_indent(x, 0);
        if lead > indent.len() {
            assert(x.subrange(0, indent.len() as int) =~= y.subrange(0, indent.len() as int));
        }
    } else {
        assert(x =~= y);
    }
}

proof fn lemma_anchor_same(b: Seq<u8>, c: Seq<u8>, p: int, ls: int)
    requires
        one_box(b, c, p),
        text::at_line_start(b, ls),
    ensures
        parse::anchor_above(b, ls) == parse::anchor_above(c, ls),
    decreases ls,
{
    if 0 < ls {
        let ps = text::line_start(b, ls - 1);
        text::lemma_line_start(b, ls - 1);
        lemma_line_start_same(b, c, p, ls - 1);
        lemma_line_same(b, c, p, ps, ls - 1, Seq::empty());
        lemma_anchor_same(b, c, p, ps);
    }
}

proof fn lemma_top_same(
    b: Seq<u8>,
    c: Seq<u8>,
    p: int,
    at: int,
    first: int,
    below: bool,
    indent: Seq<u8>,
    kind: MarkerKind,
)
    requires
        one_box(b, c, p),
        text::at_line_start(b, at),
    ensures
        parse::list_top(b, at, first, below, indent, kind) == parse::list_top(
            c,
            at,
            first,
            below,
            indent,
            kind,
        ),
    decreases at,
{
    if 0 < at {
        let ps = text::line_start(b, at - 1);
        text::lemma_line_start(b, at - 1);
        lemma_line_start_same(b, c, p, at - 1);
        lemma_line_same(b, c, p, ps, at - 1, indent);
        lemma_top_same(b, c, p, ps, ps, true, indent, kind);
        lemma_top_same(b, c, p, ps, first, false, indent, kind);
    }
}

proof fn lemma_attach_same(b: Seq<u8>, c: Seq<u8>, p: int, ls: int, indent: Seq<u8>)
    requires
        one_box(b, c, p),
        text::at_line_start(b, ls),
    ensures
        parse::attach_end(b, ls, indent) == parse::attach_end(c, ls, indent),
    decreases b.len() - ls,
{
    let le = text::line_end(b, ls);
    text::lemma_line_end(b, ls);
    lemma_line_end_same(b, c, p, ls);
    lemma_line_same(b, c, p, ls, le, indent);
    if le < b.len() {
        lemma_attach_same(b, c, p, le + 1, indent);
    }
}

proof fn lemma_bottom_same(
    b: Seq<u8>,
    c: Seq<u8>,
    p: int,
    last: int,
    indent: Seq<u8>,
    kind: MarkerKind,
)
    requires
        one_box(b, c, p),
        0 <= last <= b.len(),
        text::at_line_end(b, last),
    ensures
        parse::list_bottom(b, last, indent, kind) == parse::list_bottom(c, last, indent, kind),
    decreases b.len() - last,
{
    if last + 1 < b.len() {
        let ls = last + 1;
        let le = text::line_end(b, ls);
        text::lemma_line_end(b, ls);
        lemma_line_end_same(b, c, p, ls);
        lemma_line_same(b, c, p, ls, le, indent);
        lemma_bottom_same(b, c, p, le, indent, kind);
        lemma_attach_same(b, c, p, ls, indent);
        parse::lemma_attach_end(b, ls, indent);
        match parse::attach_end(b, ls, indent) {
            Some(e) => lemma_bottom_same(b, c, p, e, indent, kind),
            None => {},
        }
    }
}

proof fn lemma_past_same(b: Seq<u8>, c: Seq<u8>, p: int, e: int, end: int)
    requires
        one_box(b, c, p),
    ensures
        parse::past_line(b, e, end) == parse::past_line(c, e, end),
{
    if 0 <= e < b.len() {
        assert((b[e] == text::NEWLINE) == (c[e] == text::NEWLINE));
    }
}

/// The list around a place is the same list.
proof fn lemma_list_same(b: Seq<u8>, c: Seq<u8>, p: int, cursor: int)
    requires
        one_box(b, c, p),
        0 <= cursor,
    ensures
        parse::list_at(b, cursor) == parse::list_at(c, cursor),
{
    let k = if cursor <= b.len() {
        cursor
    } else {
        b.len() as int
    };
    let cs = text::line_start(b, k);
    text::lemma_line_start(b, k);
    lemma_line_start_same(b, c, p, k);
    text::lemma_line_end(b, cs);
    lemma_line_end_same(b, c, p, cs);
    lemma_line_same(b, c, p, cs, text::line_end(b, cs), Seq::empty());
    lemma_anchor_same(b, c, p, cs);
    match parse::anchor_of(b, cs) {
        Some(a) => {
            lemma_anchor_at(b, cs);
            text::lemma_line_end(b, a);
            lemma_line_end_same(b, c, p, a);
            let ae = text::line_end(b, a);
            lemma_line_same(b, c, p, a, ae, Seq::empty());
            let m = parse::marker_of(text::line_at(b, a))->0;
            lemma_line_same(b, c, p, cs, text::line_end(b, cs), m.indent);
            lemma_bottom_same(b, c, p, ae, m.indent, m.kind);
            lemma_past_same(
                b,
                c,
                p,
                parse::list_bottom(b, ae, m.indent, m.kind),
                b.len() as int,
            );
            lemma_top_same(b, c, p, a, a, true, m.indent, m.kind);
        },
        None => {},
    }
}

/// The marker line that owns a line begins a line.
proof fn lemma_anchor_at(b: Seq<u8>, cs: int)
    requires
        text::at_line_start(b, cs),
    ensures
        parse::anchor_of(b, cs) matches Some(a) ==> text::at_line_start(b, a),
{
    lemma_anchor_above_at(b, cs);
}

proof fn lemma_anchor_above_at(b: Seq<u8>, ls: int)
    requires
        text::at_line_start(b, ls),
    ensures
        parse::anchor_above(b, ls) matches Some(a) ==> text::at_line_start(b, a),
    decreases ls,
{
    if 0 < ls {
        let ps = text::line_start(b, ls - 1);
        text::lemma_line_start(b, ls - 1);
        lemma_anchor_above_at(b, ps);
    }
}

proof fn lemma_item_end_same(
    b: Seq<u8>,
    c: Seq<u8>,
    p: int,
    q: int,
    end: int,
    indent: Seq<u8>,
    kind: MarkerKind,
)
    requires
        one_box(b, c, p),
        0 <= q <= b.len(),
        parse::at_edge(b, q),
        end <= b.len(),
        parse::at_edge(b, end),
    ensures
        parse::item_end(b, q, end, indent, kind) == parse::item_end(c, q, end, indent, kind),
    decreases end - q,
{
    if q < end {
        text::lemma_line_end(b, q);
        let e = text::line_end(b, q);
        lemma_line_end_same(b, c, p, q);
        lemma_line_same(b, c, p, q, e, indent);
        lemma_past_same(b, c, p, e, end);
        let next = parse::past_line(b, e, end);
        if q < next <= end {
            lemma_item_end_same(b, c, p, next, end, indent, kind);
        }
    }
}

/// An item with the mark of its checkbox flipped, if its checkbox is the one at `p`.
pub open spec fn flipped(it: ListItemInfo, p: int) -> ListItemInfo {
    match it.task_box {
        Some(k) => if k + 1 == p {
            ListItemInfo { task: Some(!(it.task->0)), ..it }
        } else {
            it
        },
        None => it,
    }
}

/// All items, with the one at `p` flipped.
pub open spec fn all_flipped(items: Seq<ListItemInfo>, p: int) -> Seq<ListItemInfo> {
    Seq::new(items.len(), |i: int| flipped(items[i], p))
}

proof fn lemma_item_same(
    b: Seq<u8>,
    c: Seq<u8>,
    p: int,
    q: int,
    end: int,
    indent: Seq<u8>,
    kind: MarkerKind,
)
    requires
        one_box(b, c, p),
        b.len() <= usize::MAX,
        text::at_line_start(b, q),
        q < end <= b.len(),
        parse::at_edge(b, end),
        parse::list_line(text::line_at(b, q), indent, kind),
    ensures
        parse::list_line(text::line_at(c, q), indent, kind),
        parse::item_at(c, q, end, indent, kind) == flipped(
            parse::item_at(b, q, end, indent, kind),
            p,
        ),
{
    let e = text::line_end(b, q);
    text::lemma_line_end(b, q);
    lemma_line_end_same(b, c, p, q);
    lemma_line_same(b, c, p, q, e, indent);
    lemma_past_same(b, c, p, e, end);
    let line = b.subrange(q, e);
    parse::lemma_marker(line);
    let m = parse::marker_of(line)->0;
    let next = parse::past_line(b, e, end);
    if e >= end && end < b.len() {
        assert(b[end - 1] == text::NEWLINE);
    }
    lemma_item_end_same(b, c, p, next, end, indent, kind);
    let k = q + m.width;
    if q <= p < e {
        text::lemma_line_start_unique(b, q, p);
        text::lemma_line_end_unique(b, p, e);
        assert(k == p - 1);
    } else {
        assert(b.subrange(k, e) =~= c.subrange(k, e));
        let task = parse::checkbox(b.subrange(k, e));
        assert(task is Some ==> k + 1 < e);
    }
}

proof fn lemma_items_same(
    b: Seq<u8>,
    c: Seq<u8>,
    p: int,
    q: int,
    end: int,
    indent: Seq<u8>,
    kind: MarkerKind,
)
    requires
        one_box(b, c, p),
        b.len() <= usize::MAX,
        0 <= q <= b.len(),
        parse::at_edge(b, q),
        end <= b.len(),
        parse::at_edge(b, end),
        parse::items_from(b, q, end, indent, kind) is Some,
    ensures
        parse::items_from(c, q, end, indent, kind) == Some(
            all_flipped(parse::items_from(b, q, end, indent, kind)->0, p),
        ),
    decreases end - q,
{
    let items = parse::items_from(b, q, end, indent, kind)->0;
    if q >= end {
        assert(all_flipped(items, p) =~= Seq::<ListItemInfo>::empty());
    } else {
        let e = text::line_end(b, q);
        text::lemma_line_end(b, q);
        lemma_line_end_same(b, c, p, q);
        lemma_past_same(b, c, p, e, end);
        let from = parse::past_line(b, e, end);
        if e >= end && end < b.len() {
            assert(b[end - 1] == text::NEWLINE);
        }
        lemma_item_end_same(b, c, p, from, end, indent, kind);
        let next = parse::item_end(b, from, end, indent, kind);
        parse::lemma_item_end(b, from, end, indent, kind);
        lemma_item_same(b, c, p, q, end, indent, kind);
        lemma_items_same(b, c, p, next, end, indent, kind);
        let first = parse::item_at(b, q, end, indent, kind);
        let rest = parse::items_from(b, next, end, indent, kind)->0;
        assert(all_flipped(seq![first] + rest, p) =~= seq![flipped(first, p)] + all_flipped(rest, p));
    }
}

proof fn lemma_holding_same(items: Seq<ListItemInfo>, p: int, cursor: int, i: int)
    ensures
        parse::item_holding(all_flipped(items, p), cursor, i) == parse::item_holding(
            items,
            cursor,
            i,
        ),
    decreases items.len() - i,
{
    if 0 <= i < items.len() {
        lemma_holding_same(items, p, cursor, i + 1);
    }
}

/// Each item of a list is the one whose marker line begins where it begins.
pub proof fn lemma_items_are(
    b: Seq<u8>,
    q: int,
    end: int,
    indent: Seq<u8>,
    kind: MarkerKind,
    i: int,
)
    requires
        0 <= q <= b.len(),
        b.len() <= usize::MAX,
        parse::at_edge(b, q),
        end <= b.len(),
        parse::at_edge(b, end),
        parse::items_from(b, q, end, indent, kind) is Some,
        0 <= i < (parse::items_from(b, q, end, indent, kind)->0).len(),
    ensures
        ({
            let it = (parse::items_from(b, q, end, indent, kind)->0)[i];
            let s = it.start as int;
            &&& text::at_line_start(b, s)
            &&& s < end
            &&& parse::list_line(text::line_at(b, s), indent, kind)
            &&& it == parse::item_at(b, s, end, indent, kind)
        }),
    decreases end - q,
{
    let e = text::line_end(b, q);
    text::lemma_line_end(b, q);
    let from = parse::past_line(b, e, end);
    if e >= end && end < b.len() {
        assert(b[end - 1] == text::NEWLINE);
    }
    let next = parse::item_end(b, from, end, indent, kind);
    parse::lemma_item_end(b, from, end, indent, kind);
    if i > 0 {
        lemma_items_are(b, next, end, indent, kind, i - 1);
    }
}

/// The text with a list edit made.
pub open spec fn after(b: Seq<u8>, e: ListEdit) -> Seq<u8> {
    b.subrange(0, e.offset) + e.inserted + b.subrange(
        e.offset + e.removed.len(),
        b.len() as int,
    )
}

/// A toggle changes the mark in one checkbox and nothing else.
proof fn lemma_toggle_is_one_box(b: Seq<u8>, info: ListInfo, cursor: int)
    requires
        valid_utf8(b),
        b.len() <= usize::MAX,
        parse::is_list_at(info, b, cursor),
        edit::toggled(b, info, cursor) is Some,
    ensures
        one_box(
            b,
            after(b, edit::toggled(b, info, cursor)->0),
            (edit::toggled(b, info, cursor)->0).offset,
        ),
        ({
            let e = edit::toggled(b, info, cursor)->0;
            let it = info.items@[parse::item_index(info, cursor)->0];
            &&& it.task == Some(b[e.offset] != text::SPACE)
            &&& b[e.offset] == text::SPACE || b[e.offset] == 120 || b[e.offset] == 88
        }),
{
    let e = edit::toggled(b, info, cursor)->0;
    let c = after(b, e);
    let p = e.offset;
    edit::lemma_item_index(info, cursor);
    let i = parse::item_index(info, cursor)->0;
    let it = info.items@[i];
    edit::lemma_items_in_list(b, info, i);
    assert(parse::item_wf(b, it));
    assert(parse::item_wf(b, info.items@[0]));
    assert(parse::item_wf(b, info.items@[info.items@.len() - 1]));
    lemma_items_are(
        b,
        info.start as int,
        info.end as int,
        encode_utf8(info.indent@),
        info.kind,
        i,
    );
    let s = it.start as int;
    let le = text::line_end(b, s);
    text::lemma_line_end(b, s);
    parse::lemma_marker(text::line_at(b, s));
    let rest = b.subrange(p - 1, le);
    assert(parse::checkbox(rest) == it.task);
    assert(rest[1] == b[p]);
    assert(rest[2] == b[p + 1]);
    text::lemma_line_start_unique(b, s, p);
    text::lemma_line_end_unique(b, p, le);
    text::lemma_boundary(b, p);
    text::lemma_boundary(b, p + 1);
    valid_utf8_split(b, p);
    valid_utf8_split(b, p + 1);
    let mark = e.inserted;
    assert(valid_utf8(mark)) by {
        lemma_ascii_valid(mark[0]);
        assert(mark =~= seq![mark[0]]);
    }
    valid_utf8_concat(b.subrange(0, p), mark);
    valid_utf8_concat(b.subrange(0, p) + mark, b.subrange(p + 1, b.len() as int));
    let rest2 = c.subrange(p - 1, le);
    assert(rest2[0] == rest[0] && rest2[2] == rest[2] && rest2[3] == rest[3]);
    assert(rest2[1] == mark[0]);
}

/// The mark in the box of a task is a space where the task is not done, and none where it
/// is.
pub proof fn lemma_mark_tells(b: Seq<u8>, info: ListInfo, i: int)
    requires
        b.len() <= usize::MAX,
        info.wf(b),
        parse::items_from(
            b,
            info.start as int,
            info.end as int,
            encode_utf8(info.indent@),
            info.kind,
        ) == Some(info.items@),
        0 <= i < info.items@.len(),
        info.items@[i].task_box is Some,
    ensures
        ({
            let item = info.items@[i];
            let k = item.task_box->0 as int;
            &&& item.task is Some
            &&& b[k + 1] == 32 <==> item.task == Some(false)
        }),
{
    let item = info.items@[i];
    assert(parse::item_wf(b, info.items@[0]));
    assert(parse::item_wf(b, info.items@[info.items@.len() - 1]));
    assert(parse::item_wf(b, item));
    edit::lemma_items_in_list(b, info, i);
    lemma_items_are(
        b,
        info.start as int,
        info.end as int,
        encode_utf8(info.indent@),
        info.kind,
        i,
    );
    text::lemma_line_end(b, item.start as int);
    parse::lemma_marker(text::line_at(b, item.start as int));
    let k = item.marker_end as int;
    let rest = b.subrange(k, item.line_end as int);
    assert(rest[1] == b[k + 1]);
}

proof fn lemma_ascii_valid(x: u8)
    requires
        x < 0x80,
    ensures
        valid_utf8(seq![x]),
{
    let ch = x as char;
    text::lemma_encode_ascii(ch);
    encode_utf8_valid_utf8(seq![ch]);
}

/// Toggling a checkbox leaves the list around the cursor as it was, but for the
/// mark of the toggled item.
pub proof fn law_toggle_keeps_list(b: Seq<u8>, info: ListInfo, cursor: int)
    requires
        valid_utf8(b),
        b.len() <= usize::MAX,
        0 <= cursor,
        parse::is_list_at(info, b, cursor),
        edit::toggled(b, info, cursor) is Some,
    ensures
        ({
            let e = edit::toggled(b, info, cursor)->0;
            let c = after(b, e);
            &&& parse::list_at(c, cursor) == parse::list_at(b, cursor)
            &&& parse::items_from(
                c,
                info.start as int,
                info.end as int,
                encode_utf8(info.indent@),
                info.kind,
            ) == Some(all_flipped(info.items@, e.offset))
        }),
{
    let e = edit::toggled(b, info, cursor)->0;
    let c = after(b, e);
    lemma_toggle_is_one_box(b, info, cursor);
    lemma_list_same(b, c, e.offset, cursor);
    assert(parse::item_wf(b, info.items@[0]));
    assert(parse::item_wf(b, info.items@[info.items@.len() - 1]));
    lemma_items_same(
        b,
        c,
        e.offset,
        info.start as int,
        info.end as int,
        encode_utf8(info.indent@),
        info.kind,
    );
}

/// A checkbox toggled twice is as it was, and so is the whole text. A checkbox marked
/// with a capital `X` comes back with a small one, so it is left out.
pub proof fn law_toggle_comes_back(b: Seq<u8>, info: ListInfo, cursor: int, again: ListInfo)
    requires
        valid_utf8(b),
        b.len() <= usize::MAX,
        0 <= cursor,
        parse::is_list_at(info, b, cursor),
        edit::toggled(b, info, cursor) is Some,
        (edit::toggled(b, info, cursor)->0).removed != seq![88u8],
        parse::is_list_at(again, after(b, edit::toggled(b, info, cursor)->0), cursor),
    ensures
        ({
            let e = edit::toggled(b, info, cursor)->0;
            let c = after(b, e);
            &&& edit::toggled(c, again, cursor) matches Some(back)
            &&& after(c, back) == b
            &&& back.cursor == cursor
        }),
{
    let e = edit::toggled(b, info, cursor)->0;
    let c = after(b, e);
    let p = e.offset;
    law_toggle_keeps_list(b, info, cursor);
    lemma_toggle_is_one_box(b, info, cursor);
    lemma_holding_same(info.items@, p, cursor, 0);
    edit::lemma_item_index(info, cursor);
    let i = parse::item_index(info, cursor)->0;
    assert(again.items@ == all_flipped(info.items@, p));
    assert(parse::item_index(again, cursor) == Some(i));
    let it = info.items@[i];
    assert(again.items@[i] == flipped(it, p));
    if b[p] == 88 {
        assert(e.removed =~= seq![88u8]);
    }
    lemma_mark_put_back(b, p, e.inserted[0]);
    assert(e.inserted =~= seq![e.inserted[0]]);
    let back = edit::toggled(c, again, cursor)->0;
    assert(back.offset == p);
    assert(back.inserted =~= seq![b[p]]);
    assert(back.removed.len() == 1);
}

proof fn lemma_mark_put_back(b: Seq<u8>, p: int, x: u8)
    requires
        0 <= p < b.len(),
    ensures
        ({
            let c = b.subrange(0, p) + seq![x] + b.subrange(p + 1, b.len() as int);
            c.subrange(0, p) + seq![b[p]] + c.subrange(p + 1, c.len() as int) == b
        }),
{
    let c = b.subrange(0, p) + seq![x] + b.subrange(p + 1, b.len() as int);
    assert(c.subrange(0, p) + seq![b[p]] + c.subrange(p + 1, c.len() as int) =~= b);
}

} // verus!
