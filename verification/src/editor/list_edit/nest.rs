//! An item that was indented and is outdented again is as it was.

use crate::editor::list_edit::edit;
use crate::editor::list_edit::parse;
use crate::editor::list_edit::parse::{ListInfo, MarkerKind};
use crate::editor::list_edit::toggle;
use crate::editor::list_edit::toggle::after;
use crate::text;
use vstd::prelude::*;
use vstd::utf8::*;

verus! {

// ── Blank texts ──────────────────────────────────────────────────────────
/// Two texts, one after the other, are blank iff both are.
proof fn lemma_blank_concat(x: Seq<u8>, y: Seq<u8>)
    requires
        valid_utf8(x),
        valid_utf8(y),
    ensures
        valid_utf8(x + y),
        text::blank(x + y) == (text::blank(x) && text::blank(y)),
{
    let a = decode_utf8(x);
    let c = decode_utf8(y);
    decode_utf8_encode_utf8(x);
    decode_utf8_encode_utf8(y);
    text::lemma_encode_concat(a, c);
    encode_utf8_decode_utf8(a + c);
    valid_utf8_concat(x, y);
    assert(decode_utf8(x + y) == a + c);
    if text::all_whitespace(a + c) {
        assert forall|i: int| 0 <= i < a.len() implies text::is_whitespace_char(#[trigger] a[i]) by {
            assert((a + c)[i] == a[i]);
        }
        assert forall|i: int| 0 <= i < c.len() implies text::is_whitespace_char(#[trigger] c[i]) by {
            assert((a + c)[a.len() + i] == c[i]);
        }
    }
}

proof fn lemma_spaces(width: nat)
    ensures
        valid_utf8(edit::spaces(width)),
        text::blank(edit::spaces(width)),
{
    let cs = Seq::new(width, |i: int| ' ');
    assert(is_ascii_chars(cs));
    is_ascii_chars_encode_utf8(cs);
    assert(encode_utf8(cs) =~= edit::spaces(width));
    encode_utf8_valid_utf8(cs);
    encode_utf8_decode_utf8(cs);
}

proof fn lemma_feed()
    ensures
        valid_utf8(seq![text::NEWLINE]),
        text::blank(seq![text::NEWLINE]),
{
    text::lemma_encode_ascii('\n');
    encode_utf8_valid_utf8(seq!['\n']);
    encode_utf8_decode_utf8(seq!['\n']);
    assert(seq!['\n' as u8] =~= seq![text::NEWLINE]);
}

/// A line that holds a bullet is not blank.
proof fn lemma_bullet_not_blank(x: Seq<u8>, w: int)
    requires
        valid_utf8(x),
        0 <= w < x.len(),
        x[w] == 45 || x[w] == 42 || x[w] == 43,
    ensures
        !text::blank(x),
{
    text::lemma_boundary(x, w);
    decode_utf8_split(x, w);
    valid_utf8_split(x, w);
    let post = x.subrange(w, x.len() as int);
    let pre = x.subrange(0, w);
    decode_utf8_first_scalar(post);
    let all = decode_utf8(x);
    let n = decode_utf8(pre).len() as int;
    assert(decode_utf8(post).len() > 0);
    assert(all[n] == decode_utf8(post)[0]);
    assert(45u8 & 0x7F == 45u8) by (bit_vector);
    assert(45u8 & 0x80 == 0) by (bit_vector);
    assert(42u8 & 0x7F == 42u8) by (bit_vector);
    assert(42u8 & 0x80 == 0) by (bit_vector);
    assert(43u8 & 0x7F == 43u8) by (bit_vector);
    assert(43u8 & 0x80 == 0) by (bit_vector);
    assert(post[0] == x[w]);
    let c = decode_utf8(post)[0];
    assert(c == '-' || c == '*' || c == '+');
    if text::blank(x) {
        assert(text::is_whitespace_char(all[n]));
    }
}

/// A blank line begins no item of a bullet list.
proof fn lemma_blank_is_no_item(line: Seq<u8>, indent: Seq<u8>, kind: MarkerKind)
    requires
        valid_utf8(line),
        kind is Bullet,
        parse::list_line(line, indent, kind),
    ensures
        !text::blank(line),
{
    parse::lemma_marker(line);
    parse::lemma_skip_indent(line, 0);
    lemma_bullet_not_blank(line, parse::skip_indent(line, 0));
}

// ── Lines ────────────────────────────────────────────────────────────────
/// What ends the line at `p` of a stretch that ends at `end`: a line feed, or nothing at
/// the end of the text.
spec fn feed_of(b: Seq<u8>, p: int, end: int) -> Seq<u8> {
    if edit::next_line(b, p, end) == text::line_end(b, p) {
        Seq::empty()
    } else {
        seq![text::NEWLINE]
    }
}

proof fn lemma_line_step(b: Seq<u8>, p: int, end: int)
    requires
        valid_utf8(b),
        0 <= p < end <= b.len(),
        text::at_line_start(b, p),
        parse::at_edge(b, end),
    ensures
        ({
            let e = text::line_end(b, p);
            let next = edit::next_line(b, p, end);
            let line = text::line_at(b, p);
            &&& p < next <= end
            &&& parse::at_edge(b, next)
            &&& valid_utf8(line)
            &&& forall|i: int| 0 <= i < line.len() ==> #[trigger] line[i] != text::NEWLINE
            &&& b.subrange(p, next) == line + feed_of(b, p, end)
            &&& valid_utf8(b.subrange(p, next))
            &&& text::blank(b.subrange(p, next)) == text::blank(line)
            &&& next == e + feed_of(b, p, end).len()
            &&& feed_of(b, p, end).len() == 0 ==> next == b.len()
            &&& feed_of(b, p, end).len() > 0 ==> text::at_line_start(b, next)
            &&& next == edit::next_line(b, p, b.len() as int)
        }),
{
    let e = text::line_end(b, p);
    let line = text::line_at(b, p);
    edit::lemma_next_line(b, p, end);
    text::lemma_line_end(b, p);
    if e >= end && end < b.len() {
        assert(b[end - 1] == text::NEWLINE);
    }
    text::lemma_line_edges(b, p);
    text::lemma_line_edges(b, e);
    text::lemma_boundary_of_part(b, p, e, p);
    assert forall|i: int| 0 <= i < line.len() implies #[trigger] line[i] != text::NEWLINE by {
        assert(line[i] == b[p + i]);
    }
    let next = edit::next_line(b, p, end);
    assert(b.subrange(p, next) =~= line + feed_of(b, p, end));
    lemma_feed();
    if next > e {
        lemma_blank_concat(line, seq![text::NEWLINE]);
    }
}

/// The line at `p` of a text that goes on there with `head`, `feed` and `rest`.
proof fn lemma_line_head(t: Seq<u8>, p: int, head: Seq<u8>, feed: Seq<u8>, rest: Seq<u8>)
    requires
        0 <= p <= t.len(),
        t.skip(p) == head + feed + rest,
        forall|i: int| 0 <= i < head.len() ==> #[trigger] head[i] != text::NEWLINE,
        feed == seq![text::NEWLINE] || (feed.len() == 0 && rest.len() == 0),
    ensures
        ({
            let e = p + head.len();
            &&& text::line_end(t, p) == e
            &&& text::line_at(t, p) == head
            &&& e + feed.len() <= t.len()
            &&& t.skip((e + feed.len()) as int) == rest
            &&& feed.len() == 0 ==> e == t.len()
            &&& feed.len() > 0 ==> e < t.len() && t[e as int] == text::NEWLINE
                && text::at_line_start(t, e + 1)
        }),
{
    let all = head + feed + rest;
    let e = p + head.len();
    assert(t.len() == p + all.len());
    assert forall|i: int| p <= i < e implies #[trigger] t[i] != text::NEWLINE by {
        assert(t.skip(p)[i - p] == head[i - p]);
    }
    if feed.len() > 0 {
        assert(t.skip(p)[head.len() as int] == feed[0]);
    }
    text::lemma_line_end_unique(t, p, e as int);
    assert forall|i: int| 0 <= i < head.len() implies t[p + i] == head[i] by {
        assert(t.skip(p)[i] == head[i]);
    }
    assert(text::line_at(t, p) =~= head);
    assert forall|i: int| 0 <= i < rest.len() implies t[e + feed.len() + i] == rest[i] by {
        assert(t.skip(p)[(head.len() + feed.len() + i) as int] == rest[i]);
    }
    assert(t.skip((e + feed.len()) as int) =~= rest);
}

/// A line with spaces in front has the indent that it had, behind the spaces.
proof fn lemma_spaced_line(line: Seq<u8>, width: nat, indent: Seq<u8>)
    requires
        valid_utf8(line),
    ensures
        ({
            let moved = edit::spaces(width) + line;
            &&& valid_utf8(moved)
            &&& text::blank(moved) == text::blank(line)
            &&& parse::skip_indent(moved, 0) == width + parse::skip_indent(line, 0)
            &&& parse::continuation(line, indent) ==> parse::continuation(
                moved,
                edit::spaces(width) + indent,
            )
        }),
{
    let moved = edit::spaces(width) + line;
    let i = parse::skip_indent(line, 0);
    lemma_spaces(width);
    lemma_blank_concat(edit::spaces(width), line);
    parse::lemma_skip_indent(line, 0);
    assert forall|j: int| 0 <= j < width + i implies parse::is_indent_byte(#[trigger] moved[j]) by {
        if j >= width {
            assert(moved[j] == line[j - width]);
        }
    }
    if i < line.len() {
        assert(moved[width + i] == line[i]);
    }
    toggle::lemma_skip_indent_is(moved, 0, width + i);
    if parse::continuation(line, indent) {
        let n = indent.len() as int;
        assert(moved.subrange(0, width + n) =~= edit::spaces(width) + line.subrange(0, n));
    }
}

/// The marker line of a bullet item with spaces in front.
proof fn lemma_spaced_marker(line: Seq<u8>, width: nat, kind: MarkerKind)
    requires
        valid_utf8(line),
        kind is Bullet,
        parse::marker_of(line) is Some,
        (parse::marker_of(line)->0).kind == kind,
    ensures
        parse::list_line(
            edit::spaces(width) + line,
            edit::spaces(width) + (parse::marker_of(line)->0).indent,
            kind,
        ),
        !text::blank(line),
{
    let moved = edit::spaces(width) + line;
    let m = parse::marker_of(line)->0;
    let i = parse::skip_indent(line, 0);
    lemma_spaced_line(line, width, m.indent);
    parse::lemma_skip_indent(line, 0);
    parse::lemma_marker(line);
    lemma_blank_is_no_item(line, m.indent, kind);
    assert(moved[width + i] == line[i]);
    assert(moved[width + i + 1] == line[i + 1]);
    assert(moved.subrange(0, width + i) =~= edit::spaces(width) + line.subrange(0, i));
}

// ── The moved lines ──────────────────────────────────────────────────────
/// The lines of `p..end` are blank or extend the item above them, and none begins an item
/// of the list.
spec fn tail_lines(b: Seq<u8>, p: int, end: int, indent: Seq<u8>, kind: MarkerKind) -> bool {
    forall|x: int|
        p <= x < end && text::at_line_start(b, x) ==> {
            let line = #[trigger] text::line_at(b, x);
            &&& text::blank(line) || parse::continuation(line, indent)
            &&& !parse::list_line(line, indent, kind)
        }
}

/// The walk down that ends at `bottom` has come to the line at `p`.
spec fn walk_at(b: Seq<u8>, p: int, indent: Seq<u8>, kind: MarkerKind, bottom: int) -> bool {
    ||| parse::list_bottom(b, p - 1, indent, kind) == bottom
    ||| (parse::attach_end(b, p, indent) matches Some(e) && parse::list_bottom(b, e, indent, kind)
        == bottom)
}

/// The lines of a list that begin no item of it are blank or extend the item above them.
proof fn lemma_tail_lines(
    b: Seq<u8>,
    p: int,
    end: int,
    indent: Seq<u8>,
    kind: MarkerKind,
    bottom: int,
)
    requires
        valid_utf8(b),
        1 <= p <= end <= b.len(),
        parse::at_edge(b, p),
        parse::at_edge(b, end),
        end <= parse::past_line(b, bottom, b.len() as int),
        p < end ==> walk_at(b, p, indent, kind, bottom),
        forall|x: int|
            p <= x < end && text::at_line_start(b, x) ==> !parse::list_line(
                #[trigger] text::line_at(b, x),
                indent,
                kind,
            ),
    ensures
        tail_lines(b, p, end, indent, kind),
    decreases end - p,
{
    if p < end {
        lemma_line_step(b, p, end);
        let next = edit::next_line(b, p, end);
        let e = text::line_end(b, p);
        let line = text::line_at(b, p);
        text::lemma_line_end(b, p);
        assert(b[p - 1] == text::NEWLINE);
        assert(!parse::list_line(line, indent, kind));
        parse::lemma_attach_end(b, p, indent);
        assert(text::blank(line) || parse::continuation(line, indent));
        if next < end {
            assert(walk_at(b, next, indent, kind, bottom));
        }
        lemma_tail_lines(b, next, end, indent, kind, bottom);
        assert forall|x: int| p <= x < end && text::at_line_start(b, x) implies {
            let l = #[trigger] text::line_at(b, x);
            &&& text::blank(l) || parse::continuation(l, indent)
            &&& !parse::list_line(l, indent, kind)
        } by {
            if p < x < next {
                assert(b[x - 1] == text::NEWLINE);
            }
        }
    }
}

/// The text goes on at `p` with the lines of `q..end` of `b`, moved, and what follows
/// them there.
spec fn goes_on(t: Seq<u8>, p: int, b: Seq<u8>, q: int, end: int, width: nat) -> bool {
    &&& 0 <= p <= t.len()
    &&& parse::at_edge(t, p)
    &&& t.skip(p) == edit::indented_lines(b, q, end, width) + b.skip(end)
}

/// One line on.
proof fn lemma_one_line(t: Seq<u8>, p: int, b: Seq<u8>, q: int, end: int, width: nat)
    requires
        valid_utf8(b),
        0 <= q < end <= b.len(),
        text::at_line_start(b, q),
        parse::at_edge(b, end),
        goes_on(t, p, b, q, end, width),
    ensures
        ({
            let line = text::line_at(b, q);
            let moved = if text::blank(line) {
                line
            } else {
                edit::spaces(width) + line
            };
            let feed = feed_of(b, q, end);
            let next = p + moved.len() + feed.len();
            &&& text::line_at(t, p) == moved
            &&& text::line_end(t, p) == p + moved.len()
            &&& valid_utf8(moved)
            &&& text::blank(moved) == text::blank(line)
            &&& p < next
            &&& goes_on(t, next as int, b, edit::next_line(b, q, end), end, width)
            &&& feed.len() == 0 ==> next == t.len()
            &&& feed.len() > 0 ==> next == p + moved.len() + 1 && t[(p + moved.len()) as int]
                == text::NEWLINE && text::at_line_start(t, next as int)
        }),
{
    lemma_line_step(b, q, end);
    let line = text::line_at(b, q);
    let next = edit::next_line(b, q, end);
    let feed = feed_of(b, q, end);
    let rest = edit::indented_lines(b, next, end, width) + b.skip(end);
    lemma_spaced_line(line, width, Seq::empty());
    let moved = if text::blank(line) {
        line
    } else {
        edit::spaces(width) + line
    };
    let seg = b.subrange(q, next);
    if text::blank(line) {
        assert(t.skip(p) =~= moved + feed + rest);
    } else {
        assert((edit::spaces(width) + seg) =~= moved + feed);
        assert(t.skip(p) =~= moved + feed + rest);
    }
    assert forall|i: int| 0 <= i < moved.len() implies #[trigger] moved[i] != text::NEWLINE by {
        if !text::blank(line) {
            if i >= width {
                assert(moved[i] == line[i - width]);
            }
        }
    }
    if feed.len() == 0 {
        assert(next == b.len());
        assert(end == b.len());
        assert(rest =~= Seq::<u8>::empty());
    }
    lemma_line_head(t, p, moved, feed, rest);
    assert(seg.len() > 0);
}

/// Past the moved lines, only blank lines come to belong to the item, if the first other
/// line does not extend it.
proof fn lemma_past_the_tail(
    t: Seq<u8>,
    p: int,
    width: nat,
    indent: Seq<u8>,
    kind: MarkerKind,
    bottom: int,
    cursor: int,
)
    requires
        valid_utf8(t),
        kind is Bullet,
        1 <= p <= t.len(),
        parse::at_edge(t, p),
        parse::attach_end(t, p, indent) is None,
        p < t.len() ==> parse::list_bottom(t, p - 1, indent, kind) == bottom,
        cursor < p || p == t.len(),
    ensures
        ({
            let end = parse::past_line(t, bottom, t.len() as int);
            let e = parse::item_end(t, p, end, indent, kind);
            &&& p <= e <= t.len()
            &&& p < e ==> parse::at_edge(t, e)
            &&& edit::outdented_lines(t, p, e, width as int) == t.subrange(p, e)
            &&& edit::outdent_shift(t, p, e, width as int, cursor) == 0
        }),
    decreases t.len() - p,
{
    let end = parse::past_line(t, bottom, t.len() as int);
    let e = parse::item_end(t, p, end, indent, kind);
    if p < t.len() {
        let line = text::line_at(t, p);
        let n = t.len() as int;
        lemma_line_step(t, p, n);
        text::lemma_line_end(t, p);
        let le = text::line_end(t, p);
        assert(t[p - 1] == text::NEWLINE);
        if parse::list_line(line, indent, kind) {
            assert(e == p);
        } else if parse::continuation(line, indent) {
            assert(text::blank(line));
            parse::lemma_list_bottom(t, le, indent, kind);
            assert(parse::list_bottom(t, le, indent, kind) == bottom);
            let next = edit::next_line(t, p, n);
            if le < n {
                assert(parse::attach_end(t, p, indent) == parse::attach_end(t, le + 1, indent));
            } else {
                text::lemma_line_end(t, n);
                assert(text::line_end(t, n) == n);
            }
            if next == n {
                lemma_attach_at_end(t, indent);
            }
            lemma_past_the_tail(t, next, width, indent, kind, bottom, cursor);
            assert(parse::past_line(t, le, end) == next);
            assert(e == parse::item_end(t, next, end, indent, kind));
            lemma_cut_line(t, p, next, e);
            assert(edit::lead_to_strip(t.subrange(p, next), width as int) == 0);
            let seg = t.subrange(p, next);
            assert(seg.subrange(0, seg.len() as int) =~= seg);
            assert(t.subrange(p, e) =~= seg + t.subrange(next, e));
        } else {
            assert(bottom == p - 1);
            assert(e == p);
        }
    }
    if e == p {
        assert(edit::outdented_lines(t, p, e, width as int) =~= t.subrange(p, e)) by {
            text::lemma_line_end(t, p);
        }
        text::lemma_line_end(t, p);
    }
}

proof fn lemma_attach_at_end(t: Seq<u8>, indent: Seq<u8>)
    ensures
        parse::attach_end(t, t.len() as int, indent) is None,
{
    let n = t.len() as int;
    assert(text::line_end(t, n) == n);
    let line = t.subrange(n, n);
    assert(line =~= Seq::<u8>::empty());
    assert(parse::skip_indent(line, 0) == 0);
    assert(!parse::continuation(line, indent));
}

/// The next line is the same in a stretch that ends later.
proof fn lemma_cut_line(t: Seq<u8>, p: int, next: int, e: int)
    requires
        0 <= p < next <= e <= t.len(),
        next == edit::next_line(t, p, t.len() as int),
    ensures
        edit::next_line(t, p, e) == next,
{
    text::lemma_line_end(t, p);
}

/// What follows is attached or not wherever it stands.
pub proof fn lemma_attach_moved(t: Seq<u8>, p: int, b: Seq<u8>, q: int, indent: Seq<u8>)
    requires
        0 <= p <= t.len(),
        0 <= q <= b.len(),
        t.skip(p) == b.skip(q),
    ensures
        (parse::attach_end(t, p, indent) is None) == (parse::attach_end(b, q, indent) is None),
    decreases b.len() - q,
{
    let n = text::line_end(b, q) - q;
    text::lemma_line_end(b, q);
    let tail = t.skip(p);
    assert(tail == b.skip(q));
    assert(tail.len() == t.len() - p);
    assert(tail.len() == b.len() - q);
    assert forall|i: int| 0 <= i < b.len() - q implies #[trigger] t[p + i] == b[q + i] by {
        assert(tail[i] == t[p + i]);
        assert(tail[i] == b[q + i]);
    }
    assert forall|i: int| p <= i < p + n implies #[trigger] t[i] != text::NEWLINE by {
        assert(t[p + (i - p)] == b[q + (i - p)]);
    }
    if n < b.len() - q {
        assert(t[p + n] == b[q + n]);
    }
    text::lemma_line_end_unique(t, p, p + n);
    assert(t.subrange(p, p + n) =~= b.subrange(q, q + n));
    if q + n < b.len() {
        assert(t.skip(p + n + 1) =~= b.skip(q + n + 1)) by {
            assert forall|i: int| 0 <= i < b.len() - q - n - 1 implies #[trigger] t.skip(
                p + n + 1,
            )[i] == b.skip(q + n + 1)[i] by {
                assert(t[p + (n + 1 + i)] == b[q + (n + 1 + i)]);
            }
        }
        lemma_attach_moved(t, p + n + 1, b, q + n + 1, indent);
    }
}

/// Lines below which nothing extends the item are blank, so they stay as they are.
proof fn lemma_rest_is_blank(
    t: Seq<u8>,
    p: int,
    b: Seq<u8>,
    q: int,
    end: int,
    width: nat,
    indent: Seq<u8>,
    kind: MarkerKind,
)
    requires
        valid_utf8(b),
        0 <= q <= end <= b.len(),
        parse::at_edge(b, q),
        parse::at_edge(b, end),
        goes_on(t, p, b, q, end, width),
        tail_lines(b, q, end, indent, kind),
        parse::attach_end(t, p, edit::spaces(width) + indent) is None,
    ensures
        edit::indented_lines(b, q, end, width) == b.subrange(q, end),
    decreases end - q,
{
    if q < end {
        let far = edit::spaces(width) + indent;
        let line = text::line_at(b, q);
        let next = edit::next_line(b, q, end);
        let feed = feed_of(b, q, end);
        lemma_line_step(b, q, end);
        lemma_one_line(t, p, b, q, end, width);
        lemma_spaced_line(line, width, indent);
        assert(text::blank(line));
        let after_line = (p + line.len() + feed.len()) as int;
        if feed.len() > 0 {
            assert(parse::attach_end(t, p, far) == parse::attach_end(t, after_line, far));
        } else {
            lemma_attach_at_end(t, far);
        }
        lemma_rest_is_blank(t, after_line, b, next, end, width, indent, kind);
        assert(b.subrange(q, end) =~= b.subrange(q, next) + b.subrange(next, end));
    } else {
        assert(edit::indented_lines(b, q, end, width) =~= b.subrange(q, end));
    }
}

/// A line that is taken back by the spaces that it was given.
proof fn lemma_taken_back(line: Seq<u8>, feed: Seq<u8>, width: nat)
    requires
        !text::blank(edit::spaces(width) + line + feed),
    ensures
        ({
            let seg = edit::spaces(width) + line + feed;
            &&& edit::lead_to_strip(seg, width as int) == width
            &&& seg.subrange(width as int, seg.len() as int) == line + feed
        }),
{
    let seg = edit::spaces(width) + line + feed;
    parse::lemma_skip_indent(seg, 0);
    let i = parse::skip_indent(seg, 0);
    if i < width {
        assert(seg[i] == text::SPACE);
    }
    assert(seg.subrange(width as int, seg.len() as int) =~= line + feed);
}

/// The lines below the marker line of a moved item are taken back to what they were.
#[verifier::rlimit(30)]
proof fn lemma_tail_comes_back(
    t: Seq<u8>,
    p: int,
    b: Seq<u8>,
    q: int,
    end: int,
    width: nat,
    indent: Seq<u8>,
    kind: MarkerKind,
    bottom: int,
    cursor: int,
)
    requires
        valid_utf8(b),
        valid_utf8(t),
        kind is Bullet,
        1 <= p,
        0 <= q <= end <= b.len(),
        parse::at_edge(b, q),
        parse::at_edge(b, end),
        goes_on(t, p, b, q, end, width),
        tail_lines(b, q, end, indent, kind),
        p < t.len() ==> walk_at(t, p, edit::spaces(width) + indent, kind, bottom),
        parse::attach_end(b, end, edit::spaces(width) + indent) is None,
        cursor < p || p == t.len(),
    ensures
        ({
            let far = edit::spaces(width) + indent;
            let e = parse::item_end(t, p, parse::past_line(t, bottom, t.len() as int), far, kind);
            &&& p <= e <= t.len()
            &&& edit::outdented_lines(t, p, e, width as int) + t.skip(e) == b.skip(q)
            &&& edit::outdent_shift(t, p, e, width as int, cursor) == 0
        }),
    decreases end - q,
{
    let far = edit::spaces(width) + indent;
    let stop = parse::past_line(t, bottom, t.len() as int);
    let e = parse::item_end(t, p, stop, far, kind);
    if q == end {
        assert(edit::indented_lines(b, q, end, width) =~= Seq::<u8>::empty());
        assert(t.skip(p) =~= b.skip(end));
        lemma_attach_moved(t, p, b, end, far);
        lemma_past_the_tail(t, p, width, far, kind, bottom, cursor);
        assert(t.subrange(p, e) + t.skip(e) =~= t.skip(p));
    } else {
        let line = text::line_at(b, q);
        let next_b = edit::next_line(b, q, end);
        let feed = feed_of(b, q, end);
        lemma_line_step(b, q, end);
        lemma_one_line(t, p, b, q, end, width);
        lemma_spaced_line(line, width, indent);
        let moved = text::line_at(t, p);
        let le = text::line_end(t, p);
        let next = (p + moved.len() + feed.len()) as int;
        text::lemma_line_end(t, p);
        lemma_line_step(t, p, t.len() as int);
        assert(t[p - 1] == text::NEWLINE);
        assert(edit::next_line(t, p, t.len() as int) == next);
        assert(t.subrange(p, next) =~= moved + feed);
        parse::lemma_attach_end(t, p, far);
        if parse::list_line(moved, far, kind) {
            lemma_blank_is_no_item(moved, far, kind);
            parse::lemma_marker(moved);
        }
        if text::blank(line) && !parse::continuation(line, far) && parse::attach_end(t, p, far)
            is None {
            assert(bottom == p - 1);
            assert(e == p);
            lemma_rest_is_blank(t, p, b, q, end, width, indent, kind);
            assert(b.subrange(q, end) + b.skip(end) =~= b.skip(q));
            assert(edit::outdented_lines(t, p, e, width as int) =~= Seq::<u8>::empty());
            assert(edit::outdented_lines(t, p, e, width as int) + t.skip(e) =~= t.skip(p));
        } else {
            lemma_walk_on(t, p, far, kind, bottom);
            lemma_tail_comes_back(
                t,
                next,
                b,
                next_b,
                end,
                width,
                indent,
                kind,
                bottom,
                cursor,
            );
            assert(parse::past_line(t, le, stop) == next);
            assert(e == parse::item_end(t, next, stop, far, kind));
            lemma_cut_line(t, p, next, e);
            let seg = t.subrange(p, next);
            let rest = edit::outdented_lines(t, next, e, width as int);
            if text::blank(line) {
                assert(edit::lead_to_strip(seg, width as int) == 0);
                assert(seg.subrange(0, seg.len() as int) =~= line + feed);
            } else {
                lemma_taken_back(line, feed, width);
            }
            assert(edit::outdented_lines(t, p, e, width as int) =~= (line + feed) + rest);
            assert((line + feed) + b.skip(next_b) =~= b.skip(q)) by {
                assert(b.subrange(q, next_b) + b.skip(next_b) =~= b.skip(q));
            }
            assert((line + feed) + rest + t.skip(e) =~= (line + feed) + (rest + t.skip(e)));
        }
    }
}

/// A line that belongs to the list lies above its bottom, and the walk goes on below it.
proof fn lemma_walk_on(t: Seq<u8>, p: int, indent: Seq<u8>, kind: MarkerKind, bottom: int)
    requires
        1 <= p < t.len(),
        text::at_line_start(t, p),
        walk_at(t, p, indent, kind, bottom),
        parse::continuation(text::line_at(t, p), indent) || (text::blank(text::line_at(t, p))
            && parse::attach_end(t, p, indent) is Some),
    ensures
        text::line_end(t, p) <= bottom <= t.len(),
        text::line_end(t, p) < t.len() ==> walk_at(
            t,
            text::line_end(t, p) + 1,
            indent,
            kind,
            bottom,
        ),
{
    let line = text::line_at(t, p);
    let le = text::line_end(t, p);
    text::lemma_line_end(t, p);
    parse::lemma_attach_end(t, p, indent);
    parse::lemma_list_bottom(t, le, indent, kind);
    match parse::attach_end(t, p, indent) {
        Some(e) => {
            parse::lemma_list_bottom(t, e, indent, kind);
            if text::blank(line) {
                parse::lemma_attach_end(t, le + 1, indent);
            }
        },
        None => {},
    }
}

// ── The list around the item ─────────────────────────────────────────────
/// The bottom of a list stays where it is.
proof fn lemma_bottom_stays(b: Seq<u8>, last: int, indent: Seq<u8>, kind: MarkerKind)
    requires
        text::at_line_end(b, last),
    ensures
        ({
            let bottom = parse::list_bottom(b, last, indent, kind);
            parse::list_bottom(b, bottom, indent, kind) == bottom
        }),
    decreases b.len() - last,
{
    if last + 1 < b.len() {
        let ls = last + 1;
        text::lemma_line_end(b, ls);
        parse::lemma_attach_end(b, ls, indent);
        let le = text::line_end(b, ls);
        let line = b.subrange(ls, le);
        if parse::list_line(line, indent, kind) || parse::continuation(line, indent) {
            lemma_bottom_stays(b, le, indent, kind);
        } else if text::blank(line) {
            match parse::attach_end(b, ls, indent) {
                Some(e) => lemma_bottom_stays(b, e, indent, kind),
                None => {},
            }
        }
    }
}

/// What would extend a deeper item extends a shallower one.
proof fn lemma_attach_shallower(b: Seq<u8>, ls: int, deep: Seq<u8>, shallow: Seq<u8>)
    requires
        0 <= ls <= b.len(),
        shallow.len() <= deep.len(),
        deep.subrange(0, shallow.len() as int) == shallow,
        parse::attach_end(b, ls, deep) is Some,
    ensures
        parse::attach_end(b, ls, shallow) is Some,
    decreases b.len() - ls,
{
    let le = text::line_end(b, ls);
    let line = b.subrange(ls, le);
    text::lemma_line_end(b, ls);
    if text::blank(line) {
        lemma_attach_shallower(b, le + 1, deep, shallow);
    } else {
        parse::lemma_skip_indent(line, 0);
        let n = shallow.len() as int;
        assert(line.subrange(0, n) =~= line.subrange(0, deep.len() as int).subrange(0, n));
    }
}

/// No line below the marker line of an item begins another one.
proof fn lemma_item_is_one(
    b: Seq<u8>,
    p: int,
    end: int,
    indent: Seq<u8>,
    kind: MarkerKind,
    x: int,
)
    requires
        0 <= p <= end <= b.len(),
        parse::at_edge(b, p),
        parse::at_edge(b, end),
        p <= x < parse::item_end(b, p, end, indent, kind),
        text::at_line_start(b, x),
    ensures
        !parse::list_line(text::line_at(b, x), indent, kind),
    decreases end - p,
{
    parse::lemma_item_end(b, p, end, indent, kind);
    assert(p < end && !parse::list_line(text::line_at(b, p), indent, kind));
    text::lemma_line_end(b, p);
    let next = edit::next_line(b, p, end);
    edit::lemma_next_line(b, p, end);
    if p < x {
        if x < next {
            assert(b[x - 1] == text::NEWLINE);
        }
        lemma_item_is_one(b, next, end, indent, kind, x);
    }
}

proof fn lemma_indented_valid(b: Seq<u8>, p: int, end: int, width: nat)
    requires
        valid_utf8(b),
        0 <= p <= end <= b.len(),
        parse::at_edge(b, p),
        parse::at_edge(b, end),
    ensures
        valid_utf8(edit::indented_lines(b, p, end, width)),
    decreases end - p,
{
    if p < end {
        lemma_line_step(b, p, end);
        let next = edit::next_line(b, p, end);
        let seg = b.subrange(p, next);
        lemma_indented_valid(b, next, end, width);
        lemma_spaces(width);
        lemma_blank_concat(edit::spaces(width), seg);
        let rest = edit::indented_lines(b, next, end, width);
        lemma_blank_concat(seg, rest);
        lemma_blank_concat(edit::spaces(width) + seg, rest);
    } else {
        text::lemma_line_end(b, p);
        assert(edit::indented_lines(b, p, end, width) =~= Seq::<u8>::empty());
        lemma_spaces(0);
        assert(edit::spaces(0) =~= Seq::<u8>::empty());
    }
}

/// Lines below the cursor do not move it.
proof fn lemma_no_shift_below(b: Seq<u8>, p: int, end: int, width: nat, cursor: int)
    requires
        cursor < p || p >= end,
    ensures
        edit::indent_shift(b, p, end, width, cursor) == 0,
    decreases end - p,
{
    let next = edit::next_line(b, p, end);
    if p < next <= end {
        lemma_no_shift_below(b, next, end, width, cursor);
    }
}

/// Item `i` of a bullet list, when it is not empty and the cursor is on its marker line,
/// can go one level deeper.
pub open spec fn can_nest(b: Seq<u8>, info: ListInfo, i: int, cursor: int, width: nat) -> bool {
    &&& valid_utf8(b)
    &&& b.len() <= usize::MAX
    &&& parse::is_list_at(info, b, cursor)
    &&& info.kind is Bullet
    &&& parse::item_index(info, cursor) == Some(i)
    &&& 0 < i < info.items@.len()
    &&& info.items@[i].start <= cursor <= info.items@[i].line_end
    &&& !edit::empty_item(b, info.items@[i])
    &&& width > 0
}

/// No line below item `i` comes to belong to it when it goes one level deeper. So it is
/// wherever the list is indented by spaces alone.
pub open spec fn stays_apart(b: Seq<u8>, info: ListInfo, i: int, width: nat) -> bool {
    ||| forall|j: int|
        0 <= j < encode_utf8(info.indent@).len() ==> #[trigger] encode_utf8(info.indent@)[j]
            == text::SPACE
    ||| parse::attach_end(
        b,
        info.items@[i].end as int,
        edit::spaces(width) + encode_utf8(info.indent@),
    ) is None
}

/// The item and its list in the text before.
proof fn lemma_before(b: Seq<u8>, info: ListInfo, i: int, cursor: int, width: nat)
    requires
        can_nest(b, info, i, cursor, width),
    ensures
        ({
            let it = info.items@[i];
            let s = it.start as int;
            let ind = encode_utf8(info.indent@);
            let line = text::line_at(b, s);
            let q = edit::next_line(b, s, it.end as int);
            &&& text::at_line_start(b, s)
            &&& s < it.end <= info.end <= b.len()
            &&& parse::at_edge(b, it.end as int)
            &&& valid_utf8(line)
            &&& parse::list_line(line, ind, info.kind)
            &&& it.line_end == text::line_end(b, s)
            &&& parse::at_edge(b, q)
            &&& s < q <= it.end
            &&& tail_lines(b, q, it.end as int, ind, info.kind)
            &&& stays_apart(b, info, i, width) ==> parse::attach_end(
                b,
                it.end as int,
                edit::spaces(width) + ind,
            ) is None
        }),
{
    let it = info.items@[i];
    let s = it.start as int;
    let ind = encode_utf8(info.indent@);
    let kind = info.kind;
    let end = info.end as int;
    assert(parse::item_wf(b, info.items@[0]));
    assert(parse::item_wf(b, info.items@[info.items@.len() - 1]));
    assert(parse::item_wf(b, it));
    edit::lemma_items_in_list(b, info, i);
    toggle::lemma_items_are(b, info.start as int, end, ind, kind, i);
    let le = text::line_end(b, s);
    text::lemma_line_end(b, s);
    text::lemma_line_start_unique(b, s, cursor);
    let bottom = parse::list_bottom(b, le, ind, kind);
    assert(parse::anchor_of(b, s) == Some(s));
    assert(end == parse::past_line(b, bottom, b.len() as int));
    lemma_line_step(b, s, it.end as int);
    lemma_line_step(b, s, end);
    let q = edit::next_line(b, s, it.end as int);
    assert(parse::past_line(b, le, end) == q);
    parse::lemma_item_end(b, q, end, ind, kind);
    assert(it.end == parse::item_end(b, q, end, ind, kind));
    assert forall|x: int| q <= x < it.end && text::at_line_start(b, x) implies !parse::list_line(
        #[trigger] text::line_at(b, x),
        ind,
        kind,
    ) by {
        lemma_item_is_one(b, q, end, ind, kind, x);
    }
    lemma_tail_lines(b, q, it.end as int, ind, kind, bottom);
    if stays_apart(b, info, i, width) {
        let far = edit::spaces(width) + ind;
        let ie = it.end as int;
        if ie == b.len() {
            lemma_attach_at_end(b, far);
        } else if forall|j: int| 0 <= j < ind.len() ==> #[trigger] ind[j] == text::SPACE {
            assert(far.subrange(0, ind.len() as int) =~= ind);
            text::lemma_line_end(b, ie);
            if ie < end {
                let below = text::line_at(b, ie);
                text::lemma_line_edges(b, ie);
                text::lemma_line_edges(b, text::line_end(b, ie));
                text::lemma_boundary_of_part(b, ie, text::line_end(b, ie), ie);
                lemma_blank_is_no_item(below, ind, kind);
                parse::lemma_marker(below);
            } else {
                lemma_bottom_stays(b, le, ind, kind);
                parse::lemma_list_bottom(b, le, ind, kind);
                assert(bottom == ie - 1);
                match parse::attach_end(b, ie, ind) {
                    Some(e) => {
                        parse::lemma_attach_end(b, ie, ind);
                        parse::lemma_list_bottom(b, e, ind, kind);
                        parse::lemma_list_bottom(b, text::line_end(b, ie), ind, kind);
                    },
                    None => {},
                }
                assert(parse::attach_end(b, ie, ind) is None);
                if parse::attach_end(b, ie, far) is Some {
                    lemma_attach_shallower(b, ie, far, ind);
                }
            }
        }
    }
}

/// The item and its list in the text after.
proof fn lemma_after(b: Seq<u8>, info: ListInfo, i: int, cursor: int, width: nat)
    requires
        can_nest(b, info, i, cursor, width),
    ensures
        ({
            let it = info.items@[i];
            let s = it.start as int;
            let ind = encode_utf8(info.indent@);
            let far = edit::spaces(width) + ind;
            let line = text::line_at(b, s);
            let q = edit::next_line(b, s, it.end as int);
            let feed = feed_of(b, s, it.end as int);
            let e = edit::nested(b, info, cursor, width)->0;
            let t = after(b, e);
            let le = text::line_end(t, s);
            let p = (le + feed.len()) as int;
            &&& edit::nested(b, info, cursor, width) is Some
            &&& e.cursor == cursor + width
            &&& valid_utf8(t)
            &&& t.subrange(0, s) == b.subrange(0, s)
            &&& text::at_line_start(t, s)
            &&& s < le <= t.len()
            &&& e.cursor <= le
            &&& text::line_at(t, s) == edit::spaces(width) + line
            &&& !text::blank(line)
            &&& parse::list_line(text::line_at(t, s), far, info.kind)
            &&& text::line_start(t, e.cursor) == s
            &&& goes_on(t, p, b, q, it.end as int, width)
            &&& p == edit::next_line(t, s, t.len() as int)
            &&& feed.len() == 0 ==> p == t.len()
            &&& feed.len() > 0 ==> p == le + 1
            &&& t.subrange(s, p) == edit::spaces(width) + line + feed
            &&& b.subrange(s, q) == line + feed
            &&& !text::blank(t.subrange(s, p))
            &&& parse::list_at(t, e.cursor) matches Some(l) && {
                &&& l.end == parse::past_line(
                    t,
                    parse::list_bottom(t, le, far, info.kind),
                    t.len() as int,
                )
                &&& l.indent == far
                &&& l.kind == info.kind
            }
        }),
{
    let it = info.items@[i];
    let s = it.start as int;
    let ie = it.end as int;
    let ind = encode_utf8(info.indent@);
    let far = edit::spaces(width) + ind;
    let kind = info.kind;
    lemma_before(b, info, i, cursor, width);
    let line = text::line_at(b, s);
    let q = edit::next_line(b, s, ie);
    let feed = feed_of(b, s, ie);
    let il = edit::indented_lines(b, s, ie, width);
    let e = edit::nested(b, info, cursor, width)->0;
    let t = after(b, e);
    text::lemma_line_end(b, s);
    lemma_line_step(b, s, ie);
    lemma_spaced_marker(line, width, kind);
    assert(e == edit::indented_bullet(b, info, i, cursor, width));
    assert(e.inserted =~= il);
    assert(t =~= b.subrange(0, s) + il + b.skip(ie));
    lemma_indented_valid(b, s, ie, width);
    text::lemma_line_edges(b, s);
    text::lemma_boundary(b, ie);
    text::lemma_boundary(b, 0);
    text::lemma_boundary(b, b.len() as int);
    text::lemma_boundary_of_part(b, 0, s, 0);
    text::lemma_boundary_of_part(b, ie, b.len() as int, ie);
    lemma_blank_concat(b.subrange(0, s), il);
    lemma_blank_concat(b.subrange(0, s) + il, b.skip(ie));
    assert(t.subrange(0, s) =~= b.subrange(0, s));
    if s > 0 {
        assert(t[s - 1] == t.subrange(0, s)[s - 1]);
        assert(b[s - 1] == b.subrange(0, s)[s - 1]);
    }
    assert(t.skip(s) =~= il + b.skip(ie));
    lemma_one_line(t, s, b, s, ie, width);
    lemma_no_shift_below(b, q, ie, width, cursor);
    assert(e.cursor == cursor + width);
    text::lemma_line_end(t, s);
    let le = text::line_end(t, s);
    let p = (le + feed.len()) as int;
    text::lemma_line_start_unique(t, s, e.cursor);
    lemma_line_step(t, s, t.len() as int);
    assert(t.subrange(s, p) =~= edit::spaces(width) + line + feed);
    assert(parse::anchor_of(t, s) == Some(s));
}

/// The list around an item that went one level deeper is found again.
pub proof fn law_nested_item_is_found(
    b: Seq<u8>,
    info: ListInfo,
    i: int,
    cursor: int,
    width: nat,
)
    requires
        can_nest(b, info, i, cursor, width),
    ensures
        edit::nested(b, info, cursor, width) matches Some(e) && parse::list_at(
            after(b, e),
            e.cursor,
        ) is Some,
{
    lemma_after(b, info, i, cursor, width);
}

/// The item of a list that begins on the cursor's line is the one at the cursor.
proof fn lemma_item_on_line(t: Seq<u8>, again: ListInfo, cursor: int, s: int)
    requires
        t.len() <= usize::MAX,
        parse::is_list_at(again, t, cursor),
        0 <= s < cursor <= text::line_end(t, s),
        text::line_end(t, s) <= t.len(),
        text::at_line_start(t, s),
        parse::list_line(text::line_at(t, s), encode_utf8(again.indent@), again.kind),
    ensures
        parse::item_index(again, cursor) matches Some(k) && {
            &&& 0 <= k < again.items@.len()
            &&& again.items@[k] == parse::item_at(
                t,
                s,
                again.end as int,
                encode_utf8(again.indent@),
                again.kind,
            )
            &&& again.items@[k].start == s
        },
{
    let ind = encode_utf8(again.indent@);
    let kind = again.kind;
    let end = again.end as int;
    parse::law_list_holds_offset(again, t, cursor);
    edit::lemma_item_index(again, cursor);
    let k = parse::item_index(again, cursor)->0;
    let it = again.items@[k];
    assert(parse::item_wf(t, again.items@[0]));
    assert(parse::item_wf(t, again.items@[again.items@.len() - 1]));
    assert(parse::item_wf(t, it));
    toggle::lemma_items_are(t, again.start as int, end, ind, kind, k);
    let x = it.start as int;
    let from = parse::past_line(t, text::line_end(t, x), end);
    text::lemma_line_end(t, x);
    text::lemma_line_end(t, s);
    edit::lemma_next_line(t, x, end);
    parse::lemma_item_end(t, from, end, ind, kind);
    assert(x <= cursor <= it.end);
    if x < s {
        assert(t[s - 1] == text::NEWLINE);
        assert(from <= s < it.end);
        lemma_item_is_one(t, from, end, ind, kind, s);
    } else if x > s {
        assert(t[x - 1] == text::NEWLINE);
    }
}

/// A text whose lines from `s` on are taken back is the text that it was made from.
proof fn lemma_put_back(
    t: Seq<u8>,
    b: Seq<u8>,
    s: int,
    q: int,
    end: int,
    head: Seq<u8>,
    rest: Seq<u8>,
)
    requires
        0 <= s <= q <= b.len(),
        s <= end <= t.len(),
        t.subrange(0, s) == b.subrange(0, s),
        b.subrange(s, q) == head,
        rest + t.skip(end) == b.skip(q),
    ensures
        t.subrange(0, s) + (head + rest) + t.subrange(end, t.len() as int) == b,
{
    let x = t.subrange(0, s) + (head + rest) + t.subrange(end, t.len() as int);
    assert(x =~= t.subrange(0, s) + head + (rest + t.skip(end)));
    assert(b =~= b.subrange(0, s) + b.subrange(s, q) + b.skip(q));
}

/// The marker line of a moved item is taken back, and so is the cursor on it.
proof fn lemma_first_comes_back(
    t: Seq<u8>,
    s: int,
    p: int,
    end: int,
    line: Seq<u8>,
    feed: Seq<u8>,
    width: nat,
    cursor: int,
)
    requires
        0 <= s < p <= end <= t.len(),
        p == edit::next_line(t, s, t.len() as int),
        t.subrange(s, p) == edit::spaces(width) + line + feed,
        !text::blank(t.subrange(s, p)),
        s + width <= cursor,
        edit::outdent_shift(t, p, end, width as int, cursor) == 0,
    ensures
        edit::outdented_lines(t, s, end, width as int) == (line + feed) + edit::outdented_lines(
            t,
            p,
            end,
            width as int,
        ),
        edit::outdent_shift(t, s, end, width as int, cursor) == width,
{
    lemma_cut_line(t, s, p, end);
    lemma_taken_back(line, feed, width);
}

/// Where the moved item ends in the text after.
spec fn moved_end(t: Seq<u8>, s: int, indent: Seq<u8>, kind: MarkerKind) -> int {
    let le = text::line_end(t, s);
    let stop = parse::past_line(t, parse::list_bottom(t, le, indent, kind), t.len() as int);
    parse::item_end(t, parse::past_line(t, le, stop), stop, indent, kind)
}

/// The lines of the moved item, taken back.
proof fn lemma_lines_come_back(b: Seq<u8>, info: ListInfo, i: int, cursor: int, width: nat)
    requires
        can_nest(b, info, i, cursor, width),
        stays_apart(b, info, i, width),
    ensures
        ({
            let s = info.items@[i].start as int;
            let e = edit::nested(b, info, cursor, width)->0;
            let t = after(b, e);
            let far = edit::spaces(width) + encode_utf8(info.indent@);
            let end = moved_end(t, s, far, info.kind);
            &&& 0 <= s <= end <= t.len()
            &&& edit::outdent_shift(t, s, end, width as int, e.cursor) == width
            &&& t.subrange(0, s) + edit::outdented_lines(t, s, end, width as int) + t.subrange(
                end,
                t.len() as int,
            ) == b
        }),
{
    let it = info.items@[i];
    let s = it.start as int;
    let ie = it.end as int;
    let ind = encode_utf8(info.indent@);
    let far = edit::spaces(width) + ind;
    let kind = info.kind;
    let e = edit::nested(b, info, cursor, width)->0;
    let t = after(b, e);
    lemma_before(b, info, i, cursor, width);
    lemma_after(b, info, i, cursor, width);
    let line = text::line_at(b, s);
    let q = edit::next_line(b, s, ie);
    let feed = feed_of(b, s, ie);
    let le = text::line_end(t, s);
    let p = (le + feed.len()) as int;
    let bottom = parse::list_bottom(t, le, far, kind);
    let stop = parse::past_line(t, bottom, t.len() as int);
    text::lemma_line_end(t, s);
    parse::lemma_list_bottom(t, le, far, kind);
    assert(parse::past_line(t, le, stop) == p);
    lemma_tail_comes_back(t, p, b, q, ie, width, ind, kind, bottom, e.cursor);
    let end = parse::item_end(t, p, stop, far, kind);
    lemma_first_comes_back(t, s, p, end, line, feed, width, e.cursor);
    let rest = edit::outdented_lines(t, p, end, width as int);
    lemma_put_back(t, b, s, q, end, line + feed, rest);
}

/// The moved item, as it is found in the text after.
proof fn lemma_moved_item(
    b: Seq<u8>,
    info: ListInfo,
    i: int,
    cursor: int,
    width: nat,
    again: ListInfo,
)
    requires
        can_nest(b, info, i, cursor, width),
        ({
            let e = edit::nested(b, info, cursor, width)->0;
            &&& after(b, e).len() <= usize::MAX
            &&& parse::is_list_at(again, after(b, e), e.cursor)
        }),
    ensures
        ({
            let s = info.items@[i].start as int;
            let e = edit::nested(b, info, cursor, width)->0;
            let t = after(b, e);
            let far = edit::spaces(width) + encode_utf8(info.indent@);
            &&& e.cursor == cursor + width
            &&& encode_utf8(again.indent@).len() >= width
            &&& parse::item_index(again, e.cursor) matches Some(k) && {
                &&& again.items@[k].start == s
                &&& again.items@[k].end == moved_end(t, s, far, info.kind)
            }
        }),
{
    let it = info.items@[i];
    let s = it.start as int;
    let ind = encode_utf8(info.indent@);
    let far = edit::spaces(width) + ind;
    let e = edit::nested(b, info, cursor, width)->0;
    let t = after(b, e);
    lemma_after(b, info, i, cursor, width);
    assert(encode_utf8(again.indent@) == far);
    lemma_item_on_line(t, again, e.cursor, s);
    let k = parse::item_index(again, e.cursor)->0;
    assert(parse::item_wf(t, again.items@[k]));
    lemma_moved_end_fits(t, s, far, info.kind);
}

/// The end of the moved item lies in the text.
proof fn lemma_moved_end_fits(t: Seq<u8>, s: int, indent: Seq<u8>, kind: MarkerKind)
    requires
        0 <= s < t.len(),
    ensures
        0 <= moved_end(t, s, indent, kind) <= t.len(),
{
    let le = text::line_end(t, s);
    text::lemma_line_end(t, s);
    parse::lemma_list_bottom(t, le, indent, kind);
    let bottom = parse::list_bottom(t, le, indent, kind);
    let stop = parse::past_line(t, bottom, t.len() as int);
    parse::lemma_item_end(t, parse::past_line(t, le, stop), stop, indent, kind);
}

/// Outdenting an item that was indented gives the text and the cursor back. The item is
/// one of a bullet list with content, the cursor is on its marker line, and no line below
/// the item comes to belong to it one level deeper.
pub proof fn law_outdent_undoes_indent(
    b: Seq<u8>,
    info: ListInfo,
    i: int,
    cursor: int,
    width: nat,
    again: ListInfo,
)
    requires
        can_nest(b, info, i, cursor, width),
        stays_apart(b, info, i, width),
        ({
            let e = edit::nested(b, info, cursor, width)->0;
            &&& after(b, e).len() <= usize::MAX
            &&& parse::is_list_at(again, after(b, e), e.cursor)
        }),
    ensures
        ({
            let e = edit::nested(b, info, cursor, width)->0;
            let t = after(b, e);
            &&& edit::unnested(t, again, e.cursor, width) matches Some(back)
            &&& after(t, back) == b
            &&& back.cursor == cursor
        }),
{
    let e = edit::nested(b, info, cursor, width)->0;
    let t = after(b, e);
    lemma_lines_come_back(b, info, i, cursor, width);
    lemma_moved_item(b, info, i, cursor, width, again);
    edit::lemma_item_index(again, e.cursor);
    let k = parse::item_index(again, e.cursor)->0;
    let s = info.items@[i].start as int;
    let end = again.items@[k].end as int;
    let back = edit::unnested(t, again, e.cursor, width)->0;
    assert(back.removed.len() == end - s);
}

} // verus!
