//! What the edits of a list make of its bytes and numbers.

use crate::editor::list_edit::edit;
use crate::editor::list_edit::edit::Run;
use crate::editor::list_edit::growth;
use crate::editor::list_edit::parse;
use crate::editor::list_edit::parse::{ListInfo, ListItemInfo, MarkerKind};
use crate::editor::list_edit::renumber;
use crate::editor::list_edit::toggle;
use crate::text;
use vstd::prelude::*;
use vstd::utf8::*;

verus! {

/// A line of `t` begins at `p` with a marker of this indent, kind and number.
pub open spec fn marker_stands(
    t: Seq<u8>,
    p: int,
    indent: Seq<u8>,
    kind: MarkerKind,
    number: Option<u64>,
) -> bool {
    &&& text::at_line_start(t, p)
    &&& parse::marker_of(text::line_at(t, p)) matches Some(m) && m.indent == indent && m.kind
        == kind && m.number == number
}

/// A marker that was written at the start of a line stands there.
proof fn lemma_marker_stands(t: Seq<u8>, p: int, indent: Seq<u8>, kind: MarkerKind, n: u64)
    requires
        forall|i: int| 0 <= i < indent.len() ==> parse::is_indent_byte(#[trigger] indent[i]),
        parse::kind_wf(kind),
        text::at_line_start(t, p),
        p + edit::marker_text(indent, kind, n).len() <= t.len(),
        forall|j: int|
            0 <= j < edit::marker_text(indent, kind, n).len() ==> #[trigger] t[p + j]
                == edit::marker_text(indent, kind, n)[j],
    ensures
        marker_stands(
            t,
            p,
            indent,
            kind,
            if kind is Ordered {
                Some(n)
            } else {
                None
            },
        ),
{
    let head = edit::marker_text(indent, kind, n);
    let none = Seq::<u8>::empty();
    growth::lemma_written_marker(indent, kind, n, none);
    assert(head + none =~= head);
    text::lemma_line_end(t, p);
    let e = text::line_end(t, p);
    if e < p + head.len() {
        assert(t[p + (e - p)] == head[e - p]);
    }
    let line = text::line_at(t, p);
    assert forall|j: int| 0 <= j < head.len() implies #[trigger] head[j] == line[j] by {
        assert(t[p + j] == head[j]);
    }
    growth::lemma_marker_of_head(head, line);
}

/// Where the items from index `k` on begin, when each takes the place that it was written
/// to.
proof fn lemma_written_items(t: Seq<u8>, p: int, b: Seq<u8>, info: ListInfo, k: int, n: u64) -> (at:
    Seq<int>)
    requires
        b.len() <= usize::MAX,
        info.wf(b),
        parse::items_from(
            b,
            info.start as int,
            info.end as int,
            encode_utf8(info.indent@),
            info.kind,
        ) == Some(info.items@),
        0 <= k <= info.items@.len(),
        n + info.items@.len() - k <= u64::MAX,
        0 <= p <= t.len(),
        k < info.items@.len() ==> text::at_line_start(t, p),
        t.skip(p) == edit::renumbered(
            b,
            info.items@,
            k,
            n,
            encode_utf8(info.indent@),
            info.kind,
        ) + b.skip(info.end as int),
    ensures
        at.len() == info.items@.len() - k,
        at.len() > 0 ==> at[0] == p,
        forall|j: int|
            0 <= j < at.len() ==> marker_stands(
                t,
                #[trigger] at[j],
                encode_utf8(info.indent@),
                info.kind,
                if info.kind is Ordered {
                    Some((n + j) as u64)
                } else {
                    None
                },
            ),
    decreases info.items@.len() - k,
{
    let ind = encode_utf8(info.indent@);
    if k < info.items@.len() {
        let it = info.items@[k];
        assert(parse::item_wf(b, it));
        let head = edit::marker_text(ind, info.kind, n);
        let part = b.subrange(it.marker_end as int, it.end as int);
        let rest = edit::renumbered(b, info.items@, k + 1, n.wrapping_add(1), ind, info.kind);
        let suf = b.skip(info.end as int);
        let tail = t.skip(p);
        let all = head + part + rest + suf;
        assert(tail == all);
        assert(tail.len() == t.len() - p);
        assert forall|j: int| 0 <= j < all.len() implies #[trigger] t[p + j] == all[j] by {
            assert(tail[j] == t[p + j]);
        }
        assert forall|j: int| 0 <= j < head.len() implies #[trigger] t[p + j] == head[j] by {
            assert(t[p + j] == all[j]);
        }
        lemma_marker_stands(t, p, ind, info.kind, n);
        let r = (p + head.len() + part.len()) as int;
        assert(t.skip(r) =~= rest + suf) by {
            assert forall|j: int| 0 <= j < rest.len() + suf.len() implies #[trigger] t.skip(r)[j]
                == (rest + suf)[j] by {
                assert(t[p + (head.len() + part.len() + j)] == all[(head.len() + part.len()
                    + j) as int]);
            }
        }
        if k + 1 < info.items@.len() {
            assert(parse::item_wf(b, info.items@[k + 1]));
            assert(it.end == info.items@[k + 1].start);
            let last = (head.len() + part.len() - 1) as int;
            assert(part.len() > 0) by {
                assert(b[it.end - 1] == text::NEWLINE);
                edit::lemma_items_in_list(b, info, k);
                toggle::lemma_items_are(b, info.start as int, info.end as int, ind, info.kind, k);
                text::lemma_line_end(b, it.start as int);
                if it.marker_end == it.end {
                    assert(it.line_end == it.end);
                }
            }
            assert(t[p + last] == all[last]);
            assert(all[last] == part[part.len() - 1]);
        }
        let below = lemma_written_items(t, r, b, info, k + 1, n.wrapping_add(1));
        let at = seq![p] + below;
        assert forall|j: int| 0 <= j < at.len() implies marker_stands(
            t,
            #[trigger] at[j],
            ind,
            info.kind,
            if info.kind is Ordered {
                Some((n + j) as u64)
            } else {
                None
            },
        ) by {
            if j > 0 {
                assert(at[j] == below[j - 1]);
                assert((n.wrapping_add(1) + (j - 1)) as u64 == (n + j) as u64);
            }
        }
        at
    } else {
        Seq::empty()
    }
}

/// Continuing an ordered list counts on: behind the new line the items below bear the
/// numbers that follow that of the new item, one after the other.
pub proof fn law_continued_list_counts_on(b: Seq<u8>, info: ListInfo, cursor: int) -> (at: Seq<int>)
    requires
        valid_utf8(b),
        b.len() <= usize::MAX,
        0 <= cursor <= b.len(),
        parse::is_list_at(info, b, cursor),
        info.kind is Ordered,
        parse::item_index(info, cursor) matches Some(i) && {
            let item = info.items@[i];
            &&& item.marker_end <= cursor <= item.line_end
            &&& item.number matches Some(n) ==> n + info.items@.len() - i < u64::MAX
        },
    ensures
        ({
            let e = edit::continued(b, info, cursor)->0;
            let t = toggle::after(b, e);
            let i = parse::item_index(info, cursor)->0;
            let n = info.items@[i].number->0;
            let ind = encode_utf8(info.indent@);
            &&& edit::continued(b, info, cursor) is Some
            &&& info.items@[i].number is Some
            &&& marker_stands(t, cursor + 1, ind, info.kind, Some((n + 1) as u64))
            &&& at.len() == info.items@.len() - i - 1
            &&& forall|j: int|
                0 <= j < at.len() ==> marker_stands(
                    t,
                    #[trigger] at[j],
                    ind,
                    info.kind,
                    Some((n + 2 + j) as u64),
                )
        }),
{
    let i = parse::item_index(info, cursor)->0;
    let item = info.items@[i];
    let ind = encode_utf8(info.indent@);
    edit::lemma_item_index(info, cursor);
    assert(parse::item_wf(b, item));
    let n = edit::next_number(info.kind, item.number);
    growth::lemma_continued_text(b, info, cursor, i, n);
    let t = toggle::after(b, edit::continued(b, info, cursor)->0);
    growth::lemma_assembled(
        t,
        b.subrange(0, cursor),
        edit::marker_text(ind, info.kind, n),
        edit::new_checkbox(item.task),
        b.subrange(cursor, item.line_end as int),
        b.subrange(item.line_end as int, item.end as int),
        edit::renumbered(b, info.items@, i + 1, n.wrapping_add(1), ind, info.kind),
        b.skip(info.end as int),
    );
    lemma_counted_on(t, b, info, cursor, i, n)
}

/// The markers in a text that goes on with a new item and those below.
proof fn lemma_counted_on(
    t: Seq<u8>,
    b: Seq<u8>,
    info: ListInfo,
    cursor: int,
    i: int,
    n: u64,
) -> (at: Seq<int>)
    requires
        b.len() <= usize::MAX,
        info.wf(b),
        info.kind is Ordered,
        parse::items_from(
            b,
            info.start as int,
            info.end as int,
            encode_utf8(info.indent@),
            info.kind,
        ) == Some(info.items@),
        0 <= i < info.items@.len(),
        info.items@[i].marker_end <= cursor <= info.items@[i].line_end,
        n + info.items@.len() - i <= u64::MAX,
        0 <= cursor < t.len(),
        t[cursor] == text::NEWLINE,
        t.skip(cursor + 1) == (edit::marker_text(encode_utf8(info.indent@), info.kind, n) + (
        edit::new_checkbox(info.items@[i].task) + b.subrange(
            cursor,
            info.items@[i].line_end as int,
        ))) + b.subrange(info.items@[i].line_end as int, info.items@[i].end as int)
            + edit::renumbered(
            b,
            info.items@,
            i + 1,
            n.wrapping_add(1),
            encode_utf8(info.indent@),
            info.kind,
        ) + b.skip(info.end as int),
    ensures
        marker_stands(t, cursor + 1, encode_utf8(info.indent@), info.kind, Some(n)),
        at.len() == info.items@.len() - i - 1,
        forall|j: int|
            0 <= j < at.len() ==> marker_stands(
                t,
                #[trigger] at[j],
                encode_utf8(info.indent@),
                info.kind,
                Some((n + 1 + j) as u64),
            ),
{
    let ind = encode_utf8(info.indent@);
    let item = info.items@[i];
    assert(parse::item_wf(b, item));
    let head = edit::marker_text(ind, info.kind, n);
    let line = head + (edit::new_checkbox(item.task) + b.subrange(cursor, item.line_end as int));
    let tail = b.subrange(item.line_end as int, item.end as int);
    let below = edit::renumbered(b, info.items@, i + 1, n.wrapping_add(1), ind, info.kind);
    let suf = b.skip(info.end as int);
    let nl = cursor + 1;
    growth::lemma_parts(t, nl, line + tail, below, suf);
    assert forall|j: int| 0 <= j < head.len() implies #[trigger] t[nl + j] == head[j] by {
        assert(t[nl + j] == (line + tail)[j]);
    }
    lemma_marker_stands(t, nl, ind, info.kind, n);
    let r = (nl + line.len() + tail.len()) as int;
    if i + 1 < info.items@.len() {
        assert(parse::item_wf(b, info.items@[i + 1]));
        assert(item.end == info.items@[i + 1].start);
        edit::lemma_items_in_list(b, info, i);
        toggle::lemma_items_are(b, info.start as int, info.end as int, ind, info.kind, i);
        text::lemma_line_end(b, item.start as int);
        assert(b[item.end - 1] == text::NEWLINE);
        assert(tail.len() > 0);
        let last = (line.len() + tail.len() - 1) as int;
        assert(t[nl + last] == (line + tail)[last]);
        assert((line + tail)[last] == tail[tail.len() - 1]);
        assert(text::at_line_start(t, r));
    }
    lemma_written_items(t, r, b, info, i + 1, n.wrapping_add(1))
}

/// What the items below an item that is taken out become.
spec fn items_left(b: Seq<u8>, info: ListInfo, i: int) -> Seq<u8> {
    if info.kind is Bullet || i + 1 == info.items@.len() {
        b.subrange(info.items@[i].end as int, info.end as int)
    } else {
        edit::renumbered(b, info.items@, i + 1, 1, encode_utf8(info.indent@), info.kind)
    }
}

/// What stands in the place of an item that is taken out.
spec fn gap_left(b: Seq<u8>, info: ListInfo, i: int) -> Seq<u8> {
    if edit::blank_above(b, info.items@[i].start as int) {
        Seq::empty()
    } else {
        seq![text::NEWLINE]
    }
}

/// The text after an empty item was taken out.
proof fn lemma_exited_text(b: Seq<u8>, info: ListInfo, cursor: int, i: int)
    requires
        info.wf(b),
        parse::item_index(info, cursor) == Some(i),
        0 <= i < info.items@.len(),
    ensures
        ({
            let item = info.items@[i];
            let e = edit::exited(b, info, cursor);
            let empty = text::blank(b.subrange(item.content_start as int, item.end as int));
            &&& e is Some <==> empty
            &&& empty ==> toggle::after(b, e->0) == b.subrange(0, item.start as int) + gap_left(
                b,
                info,
                i,
            ) + items_left(b, info, i) + b.skip(info.end as int)
        }),
{
    edit::lemma_items_in_list(b, info, i);
    let item = info.items@[i];
    assert(parse::item_wf(b, item));
    if edit::exited(b, info, cursor) is Some {
        let e = edit::exited(b, info, cursor)->0;
        let s = item.start as int;
        let gap = gap_left(b, info, i);
        let below = items_left(b, info, i);
        let suf = b.skip(info.end as int);
        if i + 1 == info.items@.len() {
            assert(item.end == info.end);
            assert(below =~= Seq::<u8>::empty());
        }
        assert(e.inserted =~= gap + below);
        assert(e.offset + e.removed.len() == info.end);
        assert(toggle::after(b, e) =~= b.subrange(0, s) + gap + below + suf);
    }
}

/// An empty item is taken out of its list as a whole, and a gap is left there: the blank
/// line above, if there is one, else a new line feed. Nothing of that happens to an item
/// with text. What follows in an ordered list begins a list of its own, with the number 1
/// and counted on from there; the items of other lists stay as they are.
pub proof fn law_leaving_list_takes_item_out(b: Seq<u8>, info: ListInfo, cursor: int) -> (at: Seq<
    int,
>)
    requires
        valid_utf8(b),
        b.len() <= usize::MAX,
        0 <= cursor <= b.len(),
        parse::is_list_at(info, b, cursor),
        parse::item_index(info, cursor) is Some,
        info.items@.len() < u64::MAX,
    ensures
        ({
            let i = parse::item_index(info, cursor)->0;
            let item = info.items@[i];
            let e = edit::exited(b, info, cursor)->0;
            let t = toggle::after(b, e);
            let s = item.start as int;
            let p = if edit::blank_above(b, s) {
                s
            } else {
                s + 1
            };
            let empty = text::blank(b.subrange(item.content_start as int, item.end as int));
            &&& edit::exited(b, info, cursor) is Some <==> empty
            &&& empty ==> {
                &&& t.subrange(0, s) == b.subrange(0, s)
                &&& p == s + 1 ==> t[s] == text::NEWLINE
                &&& info.kind is Bullet || i + 1 == info.items@.len() ==> t.subrange(
                    p,
                    t.len() as int,
                ) == b.subrange(item.end as int, b.len() as int)
                &&& info.kind is Ordered ==> at.len() == info.items@.len() - i - 1
                &&& info.kind is Ordered && at.len() > 0 ==> at[0] == p
                &&& info.kind is Ordered ==> forall|j: int|
                    0 <= j < at.len() ==> marker_stands(
                        t,
                        #[trigger] at[j],
                        encode_utf8(info.indent@),
                        info.kind,
                        Some((1 + j) as u64),
                    )
            }
        }),
{
    let i = parse::item_index(info, cursor)->0;
    let item = info.items@[i];
    edit::lemma_item_index(info, cursor);
    edit::lemma_items_in_list(b, info, i);
    assert(parse::item_wf(b, item));
    lemma_exited_text(b, info, cursor, i);
    if edit::exited(b, info, cursor) is Some {
        lemma_left(b, info, i, toggle::after(b, edit::exited(b, info, cursor)->0))
    } else {
        Seq::empty()
    }
}

/// What stands in a text from which an empty item was taken out.
proof fn lemma_left(b: Seq<u8>, info: ListInfo, i: int, t: Seq<u8>) -> (at: Seq<int>)
    requires
        b.len() <= usize::MAX,
        info.wf(b),
        parse::items_from(
            b,
            info.start as int,
            info.end as int,
            encode_utf8(info.indent@),
            info.kind,
        ) == Some(info.items@),
        0 <= i < info.items@.len() < u64::MAX,
        t == b.subrange(0, info.items@[i].start as int) + gap_left(b, info, i) + items_left(
            b,
            info,
            i,
        ) + b.skip(info.end as int),
    ensures
        ({
            let item = info.items@[i];
            let s = item.start as int;
            let p = if edit::blank_above(b, s) {
                s
            } else {
                s + 1
            };
            &&& t.subrange(0, s) == b.subrange(0, s)
            &&& p == s + 1 ==> t[s] == text::NEWLINE
            &&& info.kind is Bullet || i + 1 == info.items@.len() ==> t.subrange(p, t.len() as int)
                == b.subrange(item.end as int, b.len() as int)
            &&& info.kind is Ordered ==> at.len() == info.items@.len() - i - 1
            &&& info.kind is Ordered && at.len() > 0 ==> at[0] == p
            &&& info.kind is Ordered ==> forall|j: int|
                0 <= j < at.len() ==> marker_stands(
                    t,
                    #[trigger] at[j],
                    encode_utf8(info.indent@),
                    info.kind,
                    Some((1 + j) as u64),
                )
        }),
{
    let item = info.items@[i];
    edit::lemma_items_in_list(b, info, i);
    assert(parse::item_wf(b, item));
    let s = item.start as int;
    let gap = gap_left(b, info, i);
    let below = items_left(b, info, i);
    let suf = b.skip(info.end as int);
    let p = (s + gap.len()) as int;
    assert(t.subrange(0, s) =~= b.subrange(0, s));
    assert(t.skip(p) =~= below + suf);
    if gap.len() > 0 {
        assert(t[s] == text::NEWLINE);
    } else if s > 0 {
        assert(t[s - 1] == b[s - 1]);
    }
    if info.kind is Bullet || i + 1 == info.items@.len() {
        assert(t.subrange(p, t.len() as int) =~= b.subrange(item.end as int, b.len() as int));
    }
    if info.kind is Ordered && i + 1 < info.items@.len() {
        lemma_written_items(t, p, b, info, i + 1, 1)
    } else {
        Seq::empty()
    }
}

// ── Renumbering ──────────────────────────────────────────────────────────
/// Two items of an ordered list that follow one another, as lines with the same indent and
/// delimiter, are numbered one after the other: the second gets the number of the first
/// and one. What stands behind their markers stays.
pub proof fn law_renumbered_lines_count(x: Seq<u8>, y: Seq<u8>, stack: Seq<Run>)
    requires
        parse::marker_of(x) matches Some(m) && m.kind is Ordered,
        parse::marker_of(y) matches Some(m) && m.kind == (parse::marker_of(x)->0).kind && m.indent
            == (parse::marker_of(x)->0).indent,
        x.len() <= usize::MAX,
    ensures
        ({
            let first = edit::renumber_line(x, stack);
            let second = edit::renumber_line(y, first.stack);
            let mx = parse::marker_of(x)->0;
            let my = parse::marker_of(y)->0;
            &&& parse::marker_of(first.line) matches Some(a) && parse::marker_of(second.line)
                matches Some(c) && {
                &&& a.indent == mx.indent && a.kind == mx.kind
                &&& c.indent == mx.indent && c.kind == mx.kind
                &&& a.number is Some && c.number == Some((a.number->0).wrapping_add(1))
                &&& first.line.skip(a.width as int) == x.skip(mx.width as int)
                &&& second.line.skip(c.width as int) == y.skip(my.width as int)
                &&& stack.len() == 0 ==> a.number == mx.number
            }
        }),
{
    let mx = parse::marker_of(x)->0;
    let my = parse::marker_of(y)->0;
    let first = edit::renumber_line(x, stack);
    lemma_numbered_line(x, stack);
    lemma_numbered_line(y, first.stack);
    parse::lemma_marker(x);
    let top = first.stack.last();
    assert(top.indent == mx.indent.len());
    assert(edit::open_runs(first.stack, mx.indent.len() as int, true) == first.stack);
}

/// What becomes of the line of an ordered item.
proof fn lemma_numbered_line(x: Seq<u8>, stack: Seq<Run>)
    requires
        parse::marker_of(x) matches Some(m) && m.kind is Ordered,
    ensures
        ({
            let s = edit::renumber_line(x, stack);
            let m = parse::marker_of(x)->0;
            let n = edit::run_number(stack, m, m.kind->Ordered_0);
            &&& parse::marker_of(s.line) matches Some(a) && {
                &&& a.indent == m.indent
                &&& a.kind == m.kind
                &&& a.number == Some(n)
                &&& s.line.skip(a.width as int) == x.skip(m.width as int)
            }
        }),
{
    let m = parse::marker_of(x)->0;
    parse::lemma_marker(x);
    parse::lemma_skip_indent(x, 0);
    assert forall|i: int| 0 <= i < m.indent.len() implies parse::is_indent_byte(
        #[trigger] m.indent[i],
    ) by {
        assert(m.indent[i] == x[i]);
    }
    let delim = m.kind->Ordered_0;
    let n = edit::run_number(stack, m, delim);
    let rest = x.subrange(m.width as int, x.len() as int);
    renumber::lemma_marker_read(m.indent, delim, n, rest);
    let s = edit::renumber_line(x, stack);
    let a = parse::marker_of(s.line)->0;
    assert(s.line.skip(a.width as int) =~= x.skip(m.width as int));
}

/// Lines that are indented deeper do not break the count, and neither do lines without a
/// marker.
pub proof fn law_deeper_lines_keep_the_count(
    x: Seq<u8>,
    mid: Seq<u8>,
    y: Seq<u8>,
    stack: Seq<Run>,
)
    requires
        parse::marker_of(x) matches Some(m) && m.kind is Ordered,
        parse::marker_of(y) matches Some(m) && m.kind == (parse::marker_of(x)->0).kind && m.indent
            == (parse::marker_of(x)->0).indent,
        parse::marker_of(mid) matches Some(m) ==> m.indent.len() > (
        parse::marker_of(x)->0).indent.len(),
        x.len() <= usize::MAX,
        mid.len() <= usize::MAX,
    ensures
        ({
            let first = edit::renumber_line(x, stack);
            let between = edit::renumber_line(mid, first.stack);
            let second = edit::renumber_line(y, between.stack);
            &&& parse::marker_of(first.line) matches Some(a) && parse::marker_of(second.line)
                matches Some(c) && a.number is Some && c.number == Some(
                (a.number->0).wrapping_add(1),
            )
        }),
{
    let mx = parse::marker_of(x)->0;
    let n = mx.indent.len() as int;
    let first = edit::renumber_line(x, stack);
    let between = edit::renumber_line(mid, first.stack);
    lemma_numbered_line(x, stack);
    lemma_numbered_line(y, between.stack);
    parse::lemma_marker(x);
    parse::lemma_marker(mid);
    assert(first.stack.last().indent == n);
    assert(edit::open_runs(first.stack, n, true) == first.stack);
    if parse::marker_of(mid) is Some {
        let mm = parse::marker_of(mid)->0;
        let k = mm.indent.len() as int;
        assert(edit::open_runs(first.stack, k, false) == first.stack);
        if mm.kind is Ordered {
            let s = between.stack;
            assert(s.drop_last() =~= first.stack);
            assert(s.last().indent == k);
            assert(edit::open_runs(s, n, true) == edit::open_runs(s.drop_last(), n, true));
        }
    }
}

// ── Nesting ──────────────────────────────────────────────────────────────
/// What the items of an ordered list from index `k` on become when item `i` goes one level
/// deeper.
proof fn lemma_nested_items(
    t: Seq<u8>,
    p: int,
    b: Seq<u8>,
    info: ListInfo,
    k: int,
    i: int,
    n: u64,
    width: nat,
) -> (at: Seq<int>)
    requires
        b.len() <= usize::MAX,
        info.wf(b),
        info.kind is Ordered,
        parse::items_from(
            b,
            info.start as int,
            info.end as int,
            encode_utf8(info.indent@),
            info.kind,
        ) == Some(info.items@),
        0 <= k <= info.items@.len(),
        n + info.items@.len() - k <= u64::MAX,
        0 <= p <= t.len(),
        k < info.items@.len() ==> text::at_line_start(t, p),
        t.skip(p) == edit::indented_run(b, info, k, i, n, width) + b.skip(info.end as int),
    ensures
        at.len() == info.items@.len() - k,
        forall|j: int|
            0 <= j < at.len() ==> if k + j == i {
                marker_stands(
                    t,
                    #[trigger] at[j],
                    encode_utf8(info.indent@) + edit::spaces(width),
                    info.kind,
                    Some(1),
                )
            } else {
                marker_stands(
                    t,
                    at[j],
                    encode_utf8(info.indent@),
                    info.kind,
                    Some((n + (if k <= i < k + j {
                        j - 1
                    } else {
                        j
                    })) as u64),
                )
            },
    decreases info.items@.len() - k,
{
    let ind = encode_utf8(info.indent@);
    if k < info.items@.len() {
        let it = info.items@[k];
        assert(parse::item_wf(b, it));
        let own = edit::indented_item(b, info, k, i, n, width);
        let next: u64 = if k == i {
            n
        } else {
            n.wrapping_add(1)
        };
        let rest = edit::indented_run(b, info, k + 1, i, next, width);
        let suf = b.skip(info.end as int);
        growth::lemma_parts(t, p, own, rest, suf);
        assert(own + rest + suf =~= edit::indented_run(b, info, k, i, n, width) + suf);
        let r = (p + own.len()) as int;
        lemma_nested_item(t, p, b, info, k, i, n, width);
        let here = if k == i {
            p + edit::separator(b, it).len()
        } else {
            p
        };
        let below = lemma_nested_items(t, r, b, info, k + 1, i, next, width);
        let at = seq![here as int] + below;
        assert forall|j: int| 0 <= j < at.len() implies if k + j == i {
            marker_stands(t, #[trigger] at[j], ind + edit::spaces(width), info.kind, Some(1))
        } else {
            marker_stands(
                t,
                at[j],
                ind,
                info.kind,
                Some((n + (if k <= i < k + j {
                    j - 1
                } else {
                    j
                })) as u64),
            )
        } by {
            if j > 0 {
                assert(at[j] == below[j - 1]);
            }
        }
        at
    } else {
        Seq::empty()
    }
}

/// The marker of an item in a list of which one item goes one level deeper, and the line
/// that follows the item.
proof fn lemma_nested_item(
    t: Seq<u8>,
    p: int,
    b: Seq<u8>,
    info: ListInfo,
    k: int,
    i: int,
    n: u64,
    width: nat,
)
    requires
        b.len() <= usize::MAX,
        info.wf(b),
        info.kind is Ordered,
        parse::items_from(
            b,
            info.start as int,
            info.end as int,
            encode_utf8(info.indent@),
            info.kind,
        ) == Some(info.items@),
        0 <= k < info.items@.len(),
        0 <= p,
        p + edit::indented_item(b, info, k, i, n, width).len() <= t.len(),
        text::at_line_start(t, p),
        forall|j: int|
            0 <= j < edit::indented_item(b, info, k, i, n, width).len() ==> #[trigger] t[p + j]
                == edit::indented_item(b, info, k, i, n, width)[j],
    ensures
        k == i ==> marker_stands(
            t,
            (p + edit::separator(b, info.items@[k]).len()) as int,
            encode_utf8(info.indent@) + edit::spaces(width),
            info.kind,
            Some(1),
        ),
        k != i ==> marker_stands(t, p, encode_utf8(info.indent@), info.kind, Some(n)),
        k + 1 < info.items@.len() ==> text::at_line_start(
            t,
            (p + edit::indented_item(b, info, k, i, n, width).len()) as int,
        ),
{
    let ind = encode_utf8(info.indent@);
    let it = info.items@[k];
    assert(parse::item_wf(b, it));
    edit::lemma_items_in_list(b, info, k);
    toggle::lemma_items_are(b, info.start as int, info.end as int, ind, info.kind, k);
    text::lemma_line_end(b, it.start as int);
    let own = edit::indented_item(b, info, k, i, n, width);
    if k + 1 < info.items@.len() {
        assert(parse::item_wf(b, info.items@[k + 1]));
        assert(it.end == info.items@[k + 1].start);
        assert(b[it.end - 1] == text::NEWLINE);
        assert(it.marker_end < it.end) by {
            if it.marker_end == it.end {
                assert(it.line_end == it.end);
            }
        }
    }
    if k == i {
        let gap = edit::separator(b, it);
        let deep = ind + edit::spaces(width);
        let head = edit::marker_text(deep, info.kind, 1);
        let rest = edit::indented_rest(b, it, width);
        assert(own == gap + head + rest);
        assert forall|j: int| 0 <= j < deep.len() implies parse::is_indent_byte(
            #[trigger] deep[j],
        ) by {
            if j < ind.len() {
                assert(deep[j] == ind[j]);
            }
        }
        let q = (p + gap.len()) as int;
        if gap.len() > 0 {
            assert(t[p + 0] == own[0]);
        }
        assert forall|j: int| 0 <= j < head.len() implies #[trigger] t[q + j] == head[j] by {
            assert(t[p + (gap.len() + j)] == own[(gap.len() + j) as int]);
        }
        lemma_marker_stands(t, q, deep, info.kind, 1);
        if k + 1 < info.items@.len() {
            lemma_rest_ends_line(b, it, width);
            let last = (own.len() - 1) as int;
            assert(t[p + last] == own[last]);
            assert(own[last] == rest[rest.len() - 1]);
        }
    } else {
        let head = edit::marker_text(ind, info.kind, n);
        let part = b.subrange(it.marker_end as int, it.end as int);
        assert(own == head + part);
        assert forall|j: int| 0 <= j < head.len() implies #[trigger] t[p + j] == head[j] by {
            assert(t[p + j] == own[j]);
        }
        lemma_marker_stands(t, p, ind, info.kind, n);
        if k + 1 < info.items@.len() {
            let last = (own.len() - 1) as int;
            assert(t[p + last] == own[last]);
            assert(own[last] == part[part.len() - 1]);
        }
    }
}

/// The moved lines of an item end with the item's line feed.
proof fn lemma_rest_ends_line(b: Seq<u8>, it: ListItemInfo, width: nat)
    requires
        parse::item_wf(b, it),
        it.marker_end < it.end,
        b[it.end - 1] == text::NEWLINE,
    ensures
        edit::indented_rest(b, it, width).len() > 0,
        edit::indented_rest(b, it, width).last() == text::NEWLINE,
{
    let q = edit::next_line(b, it.marker_end as int, it.end as int);
    edit::lemma_next_line(b, it.marker_end as int, it.end as int);
    text::lemma_line_end(b, it.marker_end as int);
    let head = b.subrange(it.marker_end as int, q);
    let tail = edit::indented_lines(b, q, it.end as int, width);
    if q < it.end {
        lemma_lines_end(b, q, it.end as int, width);
        assert((head + tail).last() == tail.last());
    } else {
        assert(tail =~= Seq::<u8>::empty()) by {
            text::lemma_line_end(b, q);
        }
        assert(head + tail =~= head);
        assert(head.last() == b[it.end - 1]);
    }
}

proof fn lemma_lines_end(b: Seq<u8>, p: int, end: int, width: nat)
    requires
        0 <= p < end <= b.len(),
        b[end - 1] == text::NEWLINE,
    ensures
        edit::indented_lines(b, p, end, width).len() > 0,
        edit::indented_lines(b, p, end, width).last() == text::NEWLINE,
    decreases end - p,
{
    let next = edit::next_line(b, p, end);
    edit::lemma_next_line(b, p, end);
    text::lemma_line_end(b, p);
    let line = b.subrange(p, next);
    let put = if text::blank(line) {
        line
    } else {
        edit::spaces(width) + line
    };
    let rest = edit::indented_lines(b, next, end, width);
    if next < end {
        lemma_lines_end(b, next, end, width);
        assert((put + rest).last() == rest.last());
    } else {
        assert(rest =~= Seq::<u8>::empty()) by {
            text::lemma_line_end(b, next);
        }
        assert(put + rest =~= put);
        assert(put.last() == line.last());
        assert(line.last() == b[end - 1]);
    }
}

/// An item of an ordered list that goes one level deeper is indented by as many spaces more
/// and begins a count of its own, with the number 1; the items of its list are counted on
/// without it, from the number of the first one.
pub proof fn law_nested_item_counts_anew(b: Seq<u8>, info: ListInfo, cursor: int, width: nat) -> (at:
    Seq<int>)
    requires
        valid_utf8(b),
        b.len() <= usize::MAX,
        0 <= cursor <= b.len(),
        parse::is_list_at(info, b, cursor),
        info.kind is Ordered,
        width > 0,
        parse::item_index(info, cursor) matches Some(i) && i > 0,
        info.items@[0].number matches Some(n) && n + info.items@.len() <= u64::MAX,
    ensures
        ({
            let e = edit::nested(b, info, cursor, width)->0;
            let t = toggle::after(b, e);
            let i = parse::item_index(info, cursor)->0;
            let n = info.items@[0].number->0;
            let ind = encode_utf8(info.indent@);
            &&& edit::nested(b, info, cursor, width) is Some
            &&& at.len() == info.items@.len()
            &&& 0 <= i < at.len()
            &&& marker_stands(t, at[i], ind + Seq::new(width, |j: int| 32u8), info.kind, Some(1))
            &&& forall|j: int|
                0 <= j < i ==> marker_stands(
                    t,
                    #[trigger] at[j],
                    ind,
                    info.kind,
                    Some((n + j) as u64),
                )
            &&& forall|j: int|
                i < j < at.len() ==> marker_stands(
                    t,
                    #[trigger] at[j],
                    ind,
                    info.kind,
                    Some((n + j - 1) as u64),
                )
        }),
{
    let i = parse::item_index(info, cursor)->0;
    edit::lemma_item_index(info, cursor);
    edit::lemma_items_in_list(b, info, 0);
    assert(parse::item_wf(b, info.items@[0]));
    let n = edit::first_number(info);
    let e = edit::nested(b, info, cursor, width)->0;
    let t = toggle::after(b, e);
    let p = info.start as int;
    let run = edit::indented_run(b, info, 0, i, n, width);
    let suf = b.skip(info.end as int);
    assert(t =~= b.subrange(0, p) + run + suf);
    assert(t.skip(p) =~= run + suf);
    if p > 0 {
        assert(t[p - 1] == b[p - 1]);
    }
    assert(edit::spaces(width) =~= Seq::new(width, |j: int| 32u8));
    let at = lemma_nested_items(t, p, b, info, 0, i, n, width);
    assert(at[i] == at[i]);
    at
}

/// An item of one line that goes one level up loses as many of the blanks that it begins
/// with as a level takes, or all that its list is indented by, and nothing else; the cursor
/// keeps its place in the text. Without an indentation nothing happens.
pub proof fn law_item_goes_up(b: Seq<u8>, info: ListInfo, cursor: int, width: nat)
    requires
        valid_utf8(b),
        b.len() <= usize::MAX,
        0 <= cursor <= b.len(),
        parse::is_list_at(info, b, cursor),
        width > 0,
        parse::item_index(info, cursor) matches Some(i) && info.items@[i].end
            <= info.items@[i].line_end + 1 && !text::blank(
            b.subrange(info.items@[i].start as int, info.items@[i].end as int),
        ) && info.items@[i].marker_end <= cursor,
    ensures
        ({
            let n = encode_utf8(info.indent@).len();
            let k = if width <= n {
                width as int
            } else {
                n as int
            };
            let s = info.items@[parse::item_index(info, cursor)->0].start as int;
            let e = edit::unnested(b, info, cursor, width);
            &&& n == 0 ==> e is None
            &&& n > 0 ==> e is Some && toggle::after(b, e->0) == b.subrange(0, s) + b.subrange(
                s + k,
                b.len() as int,
            ) && (e->0).cursor == cursor - k
        }),
{
    let i = parse::item_index(info, cursor)->0;
    let item = info.items@[i];
    let ind = encode_utf8(info.indent@);
    edit::lemma_item_index(info, cursor);
    edit::lemma_items_in_list(b, info, i);
    assert(parse::item_wf(b, item));
    toggle::lemma_items_are(b, info.start as int, info.end as int, ind, info.kind, i);
    let s = item.start as int;
    let end = item.end as int;
    let strip = if width <= ind.len() {
        width as int
    } else {
        ind.len() as int
    };
    text::lemma_line_end(b, s);
    let own = text::line_at(b, s);
    parse::lemma_marker(own);
    parse::lemma_skip_indent(own, 0);
    let seg = b.subrange(s, end);
    assert(edit::next_line(b, s, end) == end);
    assert(parse::skip_indent(seg, 0) == ind.len()) by {
        assert forall|j: int| 0 <= j < ind.len() implies parse::is_indent_byte(
            #[trigger] seg[j],
        ) by {
            assert(own[j] == seg[j]);
            assert(parse::is_indent_byte(own[j]));
        }
        let q = ind.len() as int;
        assert(own[q] == seg[q]);
        toggle::lemma_skip_indent_is(seg, 0, q);
    }
    if ind.len() > 0 {
        lemma_outdented_line(b, s, end, strip, cursor);
        let e = edit::unnested(b, info, cursor, width)->0;
        assert(toggle::after(b, e) =~= b.subrange(0, s) + b.subrange(s + strip, b.len() as int));
    }
}

/// One line without the blanks that are taken off.
proof fn lemma_outdented_line(b: Seq<u8>, s: int, end: int, strip: int, cursor: int)
    requires
        0 <= s < end <= b.len(),
        edit::next_line(b, s, end) == end,
        !text::blank(b.subrange(s, end)),
        0 < strip <= parse::skip_indent(b.subrange(s, end), 0),
        s + strip <= cursor,
    ensures
        s + strip <= end,
        edit::outdented_lines(b, s, end, strip) == b.subrange(s + strip, end),
        edit::outdent_shift(b, s, end, strip, cursor) == strip,
{
    let seg = b.subrange(s, end);
    parse::lemma_skip_indent(seg, 0);
    text::lemma_line_end(b, end);
    assert(edit::outdented_lines(b, end, end, strip) =~= Seq::<u8>::empty());
    assert(edit::outdent_shift(b, end, end, strip, cursor) == 0);
    assert(seg.subrange(strip, seg.len() as int) =~= b.subrange(s + strip, end));
    assert(edit::outdented_lines(b, s, end, strip) =~= b.subrange(s + strip, end));
}

// ── Markers ──────────────────────────────────────────────────────────────
/// A line that begins with spaces and tabs, a hyphen, a star or a plus sign, and a space is
/// the first line of an item of a list with that bullet and that indentation.
pub proof fn law_bullets_begin_items(indent: Seq<u8>, c: u8, rest: Seq<u8>)
    requires
        forall|k: int| 0 <= k < indent.len() ==> #[trigger] indent[k] == 32 || indent[k] == 9,
        c == 45 || c == 42 || c == 43,
    ensures
        parse::marker_of(indent + seq![c, 32u8] + rest) matches Some(m) && m.indent == indent
            && m.kind == MarkerKind::Bullet(c as char) && m.number is None && m.width
            == indent.len() + 2,
{
    let kind = MarkerKind::Bullet(c as char);
    growth::lemma_written_marker(indent, kind, 0, rest);
    assert(edit::marker_text(indent, kind, 0) =~= indent + seq![c, 32u8]);
}

/// A line that begins with spaces and tabs, a number, a full stop or a closing parenthesis,
/// and a space is the first line of an item with that number.
pub proof fn law_numbers_begin_items(indent: Seq<u8>, n: u64, delim: u8, rest: Seq<u8>)
    requires
        forall|k: int| 0 <= k < indent.len() ==> #[trigger] indent[k] == 32 || indent[k] == 9,
        delim == 46 || delim == 41,
    ensures
        parse::marker_of(indent + text::decimal(n as nat) + seq![delim, 32u8] + rest) matches Some(
            m,
        ) && m.indent == indent && m.kind == MarkerKind::Ordered(delim as char) && m.number == Some(
            n,
        ),
{
    let kind = MarkerKind::Ordered(delim as char);
    growth::lemma_written_marker(indent, kind, n, rest);
    assert(edit::marker_text(indent, kind, n) =~= indent + text::decimal(n as nat) + seq![
        delim,
        32u8,
    ]);
}

/// A line without a space behind its bullet, and one that begins with another character,
/// begins no item.
pub proof fn law_other_lines_begin_no_item(line: Seq<u8>, k: int)
    requires
        0 <= k < line.len(),
        forall|j: int| 0 <= j < k ==> #[trigger] line[j] == 32 || line[j] == 9,
        line[k] != 32 && line[k] != 9,
        !(48 <= line[k] <= 57),
        !(line[k] == 45 || line[k] == 42 || line[k] == 43) || k + 1 == line.len() || line[k + 1]
            != 32,
    ensures
        parse::marker_of(line) is None,
{
    toggle::lemma_skip_indent_is(line, 0, k);
    assert(parse::skip_digits(line, k) == k);
}

/// A box in front of an item's text makes it a task: one that is not done with a space in
/// it, one that is done with an `x` of either case, and none with anything else.
pub proof fn law_boxes_make_tasks(mark: u8, rest: Seq<u8>)
    ensures
        ({
            let b = seq![91u8, mark, 93u8, 32u8] + rest;
            &&& mark == 32 ==> parse::checkbox(b) == Some(false)
            &&& mark == 120 || mark == 88 ==> parse::checkbox(b) == Some(true)
            &&& mark != 32 && mark != 120 && mark != 88 ==> parse::checkbox(b) is None
        }),
        !(rest.len() >= 4 && rest[0] == 91 && rest[2] == 93 && rest[3] == 32) ==> parse::checkbox(
            rest,
        ) is None,
{
    let head = seq![91u8, mark, 93u8, 32u8];
    let b = head + rest;
    assert(b[0] == head[0] && b[1] == head[1] && b[2] == head[2] && b[3] == head[3]);
}

} // verus!
