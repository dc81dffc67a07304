//! A list that was renumbered has nothing left to renumber.

use crate::editor::list_edit::edit;
use crate::editor::list_edit::edit::Run;
use crate::editor::list_edit::parse;
use crate::editor::list_edit::parse::{Marker, MarkerKind};
use crate::editor::list_edit::toggle;
use crate::text;
use vstd::prelude::*;

verus! {

/// No line feed is among these bytes.
pub open spec fn one_line(b: Seq<u8>) -> bool {
    forall|i: int| 0 <= i < b.len() ==> #[trigger] b[i] != text::NEWLINE
}

/// A marker that is written out is read again.
pub proof fn lemma_marker_read(indent: Seq<u8>, delim: char, n: u64, rest: Seq<u8>)
    requires
        forall|i: int| 0 <= i < indent.len() ==> parse::is_indent_byte(#[trigger] indent[i]),
        delim == '.' || delim == ')',
    ensures
        ({
            let kind = MarkerKind::Ordered(delim);
            let head = edit::marker_text(indent, kind, n);
            &&& parse::marker_of(head + rest) == Some(
                Marker { indent, kind, number: Some(n), width: head.len() },
            )
            &&& one_line(head)
            &&& head.len() > 0
        }),
{
    let kind = MarkerKind::Ordered(delim);
    let head = edit::marker_text(indent, kind, n);
    let line = head + rest;
    let digits = text::decimal(n as nat);
    text::lemma_decimal(n as nat);
    let i = indent.len() as int;
    let d = i + digits.len();
    assert forall|j: int| 0 <= j < i implies parse::is_indent_byte(#[trigger] line[j]) by {
        assert(line[j] == indent[j]);
    }
    assert(line[i] == digits[0]);
    assert(text::is_digit(digits[0]));
    toggle::lemma_skip_indent_is(line, 0, i);
    assert forall|j: int| i <= j < d implies text::is_digit(#[trigger] line[j]) by {
        assert(line[j] == digits[j - i]);
    }
    assert(line[d] == delim as u8);
    toggle::lemma_skip_digits_is(line, i, d);
    assert(line[d + 1] == text::SPACE);
    assert(line.subrange(i, d) =~= digits);
    assert(line.subrange(0, i) =~= indent);
    assert(line[d] as char == delim);
    assert forall|j: int| 0 <= j < head.len() implies #[trigger] head[j] != text::NEWLINE by {
        if j < i {
            assert(head[j] == indent[j]);
        } else if j < d {
            assert(head[j] == digits[j - i]);
            assert(text::is_digit(digits[j - i]));
        }
    }
}

/// A line that was renumbered stays as it is when it is renumbered again, and leads to
/// the same runs.
proof fn lemma_line_settles(line: Seq<u8>, stack: Seq<Run>)
    requires
        one_line(line),
    ensures
        ({
            let s = edit::renumber_line(line, stack);
            let again = edit::renumber_line(s.line, stack);
            &&& again.line == s.line
            &&& again.stack == s.stack
            &&& !again.changed
            &&& one_line(s.line)
            &&& line.len() > 0 ==> s.line.len() > 0
            &&& edit::block_line(line) ==> edit::block_line(s.line)
        }),
{
    let s = edit::renumber_line(line, stack);
    match parse::marker_of(line) {
        Some(m) => match m.kind {
            MarkerKind::Ordered(delim) => {
                parse::lemma_marker(line);
                parse::lemma_skip_indent(line, 0);
                let n = edit::run_number(stack, m, delim);
                let rest = line.subrange(m.width as int, line.len() as int);
                assert forall|i: int| 0 <= i < m.indent.len() implies parse::is_indent_byte(
                    #[trigger] m.indent[i],
                ) by {
                    assert(m.indent[i] == line[i]);
                }
                lemma_marker_read(m.indent, delim, n, rest);
                let head = edit::marker_text(m.indent, m.kind, n);
                let m2 = parse::marker_of(s.line)->0;
                assert(s.line == head + rest);
                assert(s.line.subrange(m2.width as int, s.line.len() as int) =~= rest);
                assert(edit::run_number(stack, m2, delim) == n);
                assert forall|i: int| 0 <= i < s.line.len() implies #[trigger] s.line[i]
                    != text::NEWLINE by {
                    if i < head.len() {
                        assert(head[i] != text::NEWLINE);
                    } else {
                        assert(rest[i - head.len()] == line[m.width + i - head.len()]);
                    }
                }
            },
            MarkerKind::Bullet(_) => {},
        },
        None => {},
    }
}

/// The text with the lines of `p..end` renumbered, between `pre` and `suf`.
pub open spec fn framed(
    b: Seq<u8>,
    p: int,
    end: int,
    stack: Seq<Run>,
    pre: Seq<u8>,
    suf: Seq<u8>,
) -> Seq<u8> {
    pre + edit::renumber_lines(b, p, end, stack) + suf
}

/// What a first renumbered line is followed by.
proof fn lemma_first_line(
    b: Seq<u8>,
    p: int,
    end: int,
    stack: Seq<Run>,
    pre: Seq<u8>,
    suf: Seq<u8>,
)
    requires
        0 <= p < end <= b.len(),
        parse::at_edge(b, end),
        suf.len() > 0 ==> end < b.len(),
    ensures
        ({
            let e = text::line_end(b, p);
            let next = edit::next_line(b, p, end);
            let s = edit::renumber_line(b.subrange(p, e), stack);
            let sep = b.subrange(e, next);
            let t = framed(b, p, end, stack, pre, suf);
            let q = pre.len() as int;
            &&& p < next <= end
            &&& parse::at_edge(b, next)
            &&& one_line(b.subrange(p, e))
            &&& one_line(s.line)
            &&& s.line.len() + sep.len() > 0
            &&& sep.len() > 0 ==> sep == seq![text::NEWLINE]
            &&& t == framed(b, next, end, s.stack, pre + s.line + sep, suf)
            &&& text::line_end(t, q) == q + s.line.len()
            &&& t.subrange(q, q + s.line.len()) == s.line
            &&& edit::next_line(t, q, q + edit::renumber_lines(b, p, end, stack).len()) == q
                + s.line.len() + sep.len()
            &&& edit::next_line(t, q, t.len() as int) == q + s.line.len() + sep.len()
            &&& sep.len() == 0 ==> q + s.line.len() == t.len()
        }),
{
    let e = text::line_end(b, p);
    let next = edit::next_line(b, p, end);
    edit::lemma_next_line(b, p, end);
    text::lemma_line_end(b, p);
    if e >= end && end < b.len() {
        assert(b[end - 1] == text::NEWLINE);
    }
    let line = b.subrange(p, e);
    assert forall|i: int| 0 <= i < line.len() implies #[trigger] line[i] != text::NEWLINE by {
        assert(line[i] == b[p + i]);
    }
    lemma_line_settles(line, stack);
    let s = edit::renumber_line(line, stack);
    let sep = b.subrange(e, next);
    if sep.len() > 0 {
        assert(sep =~= seq![text::NEWLINE]);
    }
    let tail = edit::renumber_lines(b, next, end, s.stack);
    let t = framed(b, p, end, stack, pre, suf);
    let q = pre.len() as int;
    assert(edit::renumber_lines(b, p, end, stack) == s.line + sep + tail);
    assert(t =~= pre + s.line + sep + tail + suf);
    let stop = q + s.line.len();
    assert forall|i: int| q <= i < stop implies t[i] != text::NEWLINE by {
        assert(t[i] == s.line[i - q]);
    }
    if sep.len() > 0 {
        assert(t[stop] == sep[0]);
    } else {
        assert(next == e && e == b.len());
        assert(tail =~= Seq::<u8>::empty());
        assert(suf.len() == 0);
    }
    text::lemma_line_end_unique(t, q, stop);
    assert(t.subrange(q, stop) =~= s.line);
}

/// Lines that were renumbered have nothing left to renumber.
proof fn lemma_lines_settle(
    b: Seq<u8>,
    p: int,
    end: int,
    stack: Seq<Run>,
    pre: Seq<u8>,
    suf: Seq<u8>,
)
    requires
        0 <= p <= end <= b.len(),
        parse::at_edge(b, end),
        suf.len() > 0 ==> end < b.len(),
    ensures
        !edit::renumber_changes(
            framed(b, p, end, stack, pre, suf),
            pre.len() as int,
            pre.len() as int + edit::renumber_lines(b, p, end, stack).len(),
            stack,
        ),
    decreases end - p,
{
    if p < end {
        lemma_first_line(b, p, end, stack, pre, suf);
        let e = text::line_end(b, p);
        let next = edit::next_line(b, p, end);
        let line = b.subrange(p, e);
        lemma_line_settles(line, stack);
        let s = edit::renumber_line(line, stack);
        lemma_lines_settle(b, next, end, s.stack, pre + s.line + b.subrange(e, next), suf);
    }
}

/// Every line of `p..end` is a list line.
pub open spec fn all_block_lines(b: Seq<u8>, p: int, end: int) -> bool
    decreases end - p,
{
    let next = edit::next_line(b, p, end);
    if p < next <= end {
        edit::block_line(text::line_at(b, p)) && all_block_lines(b, next, end)
    } else {
        true
    }
}

/// Behind what precedes it, a text begins with the lines that it has alone.
proof fn lemma_line_behind(pre: Seq<u8>, suf: Seq<u8>)
    ensures
        text::line_at(pre + suf, pre.len() as int) == text::line_at(suf, 0),
{
    let t = pre + suf;
    let q = pre.len() as int;
    text::lemma_line_end(suf, 0);
    let n = text::line_end(suf, 0);
    assert forall|i: int| q <= i < q + n implies t[i] != text::NEWLINE by {
        assert(t[i] == suf[i - q]);
    }
    if n < suf.len() {
        assert(t[q + n] == suf[n]);
    }
    text::lemma_line_end_unique(t, q, q + n);
    assert(text::line_at(t, q) =~= text::line_at(suf, 0));
}

/// The block of list lines from a renumbered stretch down ends with the stretch, if all
/// of its lines are list lines and none follows.
proof fn lemma_bottom_settles(
    b: Seq<u8>,
    p: int,
    end: int,
    stack: Seq<Run>,
    pre: Seq<u8>,
    suf: Seq<u8>,
)
    requires
        0 <= p <= end <= b.len(),
        parse::at_edge(b, end),
        suf.len() > 0 ==> end < b.len(),
        all_block_lines(b, p, end),
        !edit::block_line(text::line_at(suf, 0)),
    ensures
        edit::block_bottom(framed(b, p, end, stack, pre, suf), pre.len() as int) == pre.len()
            + edit::renumber_lines(b, p, end, stack).len(),
    decreases end - p,
{
    let t = framed(b, p, end, stack, pre, suf);
    let q = pre.len() as int;
    if p < end {
        lemma_first_line(b, p, end, stack, pre, suf);
        let e = text::line_end(b, p);
        let next = edit::next_line(b, p, end);
        let line = b.subrange(p, e);
        lemma_line_settles(line, stack);
        let s = edit::renumber_line(line, stack);
        let pre2 = pre + s.line + b.subrange(e, next);
        lemma_bottom_settles(b, next, end, s.stack, pre2, suf);
        assert(text::line_at(t, q) == s.line);
        assert(edit::block_bottom(t, q) == edit::block_bottom(t, pre2.len() as int));
    } else {
        assert(t =~= pre + suf);
        lemma_line_behind(pre, suf);
    }
}

/// From the line below, the block of list lines goes as far up as from a list line.
proof fn lemma_top_step(t: Seq<u8>, q: int, n: int)
    requires
        0 <= q,
        0 <= n,
        q + n < t.len(),
        text::at_line_start(t, q),
        one_line(t.subrange(q, q + n)),
        t[q + n] == text::NEWLINE,
        edit::block_line(t.subrange(q, q + n)),
    ensures
        edit::block_top(t, q + n + 1) == edit::block_top(t, q),
        text::at_line_start(t, q + n + 1),
{
    assert forall|i: int| q <= i < q + n implies t[i] != text::NEWLINE by {
        assert(t.subrange(q, q + n)[i - q] != text::NEWLINE);
    }
    text::lemma_line_start_unique(t, q, q + n);
}

/// The block of list lines around an offset of a renumbered stretch is that stretch, from
/// `top` on.
proof fn lemma_block_settles(
    b: Seq<u8>,
    p: int,
    end: int,
    stack: Seq<Run>,
    pre: Seq<u8>,
    suf: Seq<u8>,
    top: int,
    k: int,
)
    requires
        0 <= p <= end <= b.len(),
        parse::at_edge(b, end),
        suf.len() > 0 ==> end < b.len(),
        all_block_lines(b, p, end),
        !edit::block_line(text::line_at(suf, 0)),
        p < end ==> text::at_line_start(framed(b, p, end, stack, pre, suf), pre.len() as int),
        p < end ==> edit::block_top(framed(b, p, end, stack, pre, suf), pre.len() as int) == top,
        pre.len() <= k < pre.len() + edit::renumber_lines(b, p, end, stack).len(),
    ensures
        edit::block_at(framed(b, p, end, stack, pre, suf), k) == Some(
            (top, pre.len() as int + edit::renumber_lines(b, p, end, stack).len()),
        ),
    decreases end - p,
{
    let t = framed(b, p, end, stack, pre, suf);
    let q = pre.len() as int;
    if p < end {
        lemma_first_line(b, p, end, stack, pre, suf);
        let e = text::line_end(b, p);
        let next = edit::next_line(b, p, end);
        let line = b.subrange(p, e);
        lemma_line_settles(line, stack);
        let s = edit::renumber_line(line, stack);
        let sep = b.subrange(e, next);
        let pre2 = pre + s.line + sep;
        let q2 = pre2.len() as int;
        assert(text::line_at(t, q) == s.line);
        text::lemma_line_end(t, q);
        if k < q2 {
            lemma_bottom_settles(b, p, end, stack, pre, suf);
            text::lemma_line_start_unique(t, q, k);
        } else {
            lemma_top_step(t, q, s.line.len() as int);
            lemma_block_settles(b, next, end, s.stack, pre2, suf, top, k);
        }
    }
}

/// A block begins at a line start that no list line precedes, and its lines are list
/// lines.
proof fn lemma_block_top(b: Seq<u8>, at: int, end: int)
    requires
        text::at_line_start(b, at),
        at <= end <= b.len(),
        all_block_lines(b, at, end),
    ensures
        0 <= edit::block_top(b, at) <= at,
        text::at_line_start(b, edit::block_top(b, at)),
        edit::block_top(b, edit::block_top(b, at)) == edit::block_top(b, at),
        all_block_lines(b, edit::block_top(b, at), end),
    decreases at,
{
    if 0 < at {
        let ps = text::line_start(b, at - 1);
        text::lemma_line_start(b, at - 1);
        if edit::block_line(b.subrange(ps, at - 1)) {
            text::lemma_line_end_unique(b, ps, at - 1);
            assert(edit::next_line(b, ps, end) == at);
            lemma_block_top(b, ps, end);
        }
    }
}

/// A block ends at an edge, before a line that is no list line.
proof fn lemma_block_bottom(b: Seq<u8>, at: int)
    requires
        0 <= at <= b.len(),
        parse::at_edge(b, at),
    ensures
        at <= edit::block_bottom(b, at) <= b.len(),
        parse::at_edge(b, edit::block_bottom(b, at)),
        all_block_lines(b, at, edit::block_bottom(b, at)),
        edit::block_bottom(b, at) < b.len() ==> !edit::block_line(
            text::line_at(b, edit::block_bottom(b, at)),
        ),
    decreases b.len() - at,
{
    let next = edit::next_line(b, at, b.len() as int);
    if at < b.len() {
        edit::lemma_next_line(b, at, b.len() as int);
        text::lemma_line_end(b, at);
        if edit::block_line(text::line_at(b, at)) {
            lemma_block_bottom(b, next);
            assert(edit::next_line(b, at, edit::block_bottom(b, at)) == next);
        }
    }
}

/// What stands before a block decides where it begins.
proof fn lemma_top_of_start(b: Seq<u8>, t: Seq<u8>, start: int)
    requires
        0 <= start <= b.len(),
        start <= t.len(),
        text::at_line_start(b, start),
        edit::block_top(b, start) == start,
        forall|i: int| 0 <= i < start ==> #[trigger] t[i] == b[i],
    ensures
        text::at_line_start(t, start),
        edit::block_top(t, start) == start,
{
    if start > 0 {
        let ps = text::line_start(b, start - 1);
        text::lemma_line_start(b, start - 1);
        assert(t[start - 1] == b[start - 1]);
        if ps > 0 {
            assert(t[ps - 1] == b[ps - 1]);
        }
        text::lemma_line_start_unique(t, ps, start - 1);
        assert(t.subrange(ps, start - 1) =~= b.subrange(ps, start - 1));
        if edit::block_line(b.subrange(ps, start - 1)) {
            lemma_top_goes_up(b, ps);
        }
    }
}

proof fn lemma_top_goes_up(b: Seq<u8>, at: int)
    ensures
        edit::block_top(b, at) <= at,
    decreases at,
{
    if 0 < at <= b.len() {
        let ps = text::line_start(b, at - 1);
        text::lemma_line_start(b, at - 1);
        lemma_top_goes_up(b, ps);
    }
}

/// A list that was renumbered has nothing left to renumber: around every offset of the
/// new text of its block stands that block, and none of its numbers would change.
pub proof fn law_renumbering_settles(b: Seq<u8>, cursor: int, k: int)
    requires
        0 <= cursor,
        edit::block_at(b, cursor) is Some,
        ({
            let (start, end) = edit::block_at(b, cursor)->0;
            start <= k < start + edit::renumber_lines(b, start, end, Seq::empty()).len()
        }),
    ensures
        ({
            let (start, end) = edit::block_at(b, cursor)->0;
            let lines = edit::renumber_lines(b, start, end, Seq::empty());
            let t = b.subrange(0, start) + lines + b.subrange(end, b.len() as int);
            &&& edit::block_at(t, k) == Some((start, start + lines.len()))
            &&& !edit::renumber_changes(t, start, start + lines.len(), Seq::empty())
        }),
{
    let c = if cursor <= b.len() {
        cursor
    } else {
        b.len() as int
    };
    let cs = text::line_start(b, c);
    text::lemma_line_start(b, c);
    let (start, end) = edit::block_at(b, cursor)->0;
    lemma_block_bottom(b, cs);
    lemma_block_top(b, cs, end);
    let pre = b.subrange(0, start);
    let suf = b.subrange(end, b.len() as int);
    let t = framed(b, start, end, Seq::empty(), pre, suf);
    assert(b =~= b.subrange(0, end) + suf);
    lemma_line_behind(b.subrange(0, end), suf);
    if end == b.len() {
        assert(text::line_at(suf, 0) =~= Seq::<u8>::empty());
        parse::lemma_marker(text::line_at(suf, 0));
    }
    lemma_top_of_start(b, t, start);
    lemma_block_settles(b, start, end, Seq::empty(), pre, suf, start, k);
    lemma_lines_settle(b, start, end, Seq::empty(), pre, suf);
}

} // verus!
