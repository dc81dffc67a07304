//! A list that is continued has one item more.

use crate::editor::list_edit::edit;
use crate::editor::list_edit::nest;
use crate::editor::list_edit::parse;
use crate::editor::list_edit::parse::{ListInfo, ListItemInfo, MarkerKind};
use crate::editor::list_edit::renumber;
use crate::editor::list_edit::toggle;
use crate::text;
use vstd::prelude::*;
use vstd::utf8::*;

verus! {

// ── Markers ──────────────────────────────────────────────────────────────
/// The marker of a line is told by its first bytes.
pub proof fn lemma_marker_of_head(x: Seq<u8>, y: Seq<u8>)
    requires
        parse::marker_of(x) is Some,
        (parse::marker_of(x)->0).width <= y.len(),
        forall|j: int| 0 <= j < (parse::marker_of(x)->0).width ==> #[trigger] x[j] == y[j],
    ensures
        parse::marker_of(y) == parse::marker_of(x),
{
    let m = parse::marker_of(x)->0;
    parse::lemma_marker(x);
    parse::lemma_skip_indent(x, 0);
    let i = parse::skip_indent(x, 0);
    let d = parse::skip_digits(x, i);
    parse::lemma_skip_digits(x, i);
    assert forall|j: int| 0 <= j < i implies parse::is_indent_byte(#[trigger] y[j]) by {
        assert(x[j] == y[j]);
        assert(parse::is_indent_byte(x[j]));
    }
    assert(x[i] == y[i]);
    toggle::lemma_skip_indent_is(y, 0, i);
    assert(y.subrange(0, i) =~= x.subrange(0, i));
    if m.kind is Ordered {
        assert forall|j: int| i <= j < d implies text::is_digit(#[trigger] y[j]) by {
            assert(x[j] == y[j]);
            assert(text::is_digit(x[j]));
        }
        assert(y[d] == x[d]);
        toggle::lemma_skip_digits_is(y, i, d);
        assert(y.subrange(i, d) =~= x.subrange(i, d));
        assert(y[d + 1] == x[d + 1]);
        assert(!(y[i] == 45 || y[i] == 42 || y[i] == 43)) by {
            assert(text::is_digit(x[i]));
        }
    } else {
        assert(y[i + 1] == x[i + 1]);
    }
}

/// A marker that is written out is read again.
pub proof fn lemma_written_marker(indent: Seq<u8>, kind: MarkerKind, n: u64, rest: Seq<u8>)
    requires
        forall|i: int| 0 <= i < indent.len() ==> parse::is_indent_byte(#[trigger] indent[i]),
        parse::kind_wf(kind),
    ensures
        ({
            let head = edit::marker_text(indent, kind, n);
            let m = parse::marker_of(head + rest);
            &&& m is Some
            &&& m->0.indent == indent
            &&& m->0.kind == kind
            &&& m->0.width == head.len()
            &&& m->0.number == (if kind is Ordered {
                Some(n)
            } else {
                None
            })
            &&& forall|j: int| 0 <= j < head.len() ==> #[trigger] head[j] != text::NEWLINE
            &&& forall|j: int| 0 <= j < head.len() ==> #[trigger] head[j] < 0x80
            &&& head.len() >= indent.len() + 2
            &&& 33 <= head[indent.len() as int] < 127
        }),
{
    let head = edit::marker_text(indent, kind, n);
    let line = head + rest;
    match kind {
        MarkerKind::Ordered(delim) => {
            renumber::lemma_marker_read(indent, delim, n, rest);
            text::lemma_decimal(n as nat);
            let digits = text::decimal(n as nat);
            assert(head[indent.len() as int] == digits[0]);
            assert(text::is_digit(digits[0]));
        },
        MarkerKind::Bullet(c) => {
            let i = indent.len() as int;
            assert forall|j: int| 0 <= j < i implies parse::is_indent_byte(#[trigger] line[j]) by {
                assert(line[j] == indent[j]);
            }
            assert(line[i] == c as u8);
            assert(line[i + 1] == text::SPACE);
            toggle::lemma_skip_indent_is(line, 0, i);
            assert(line.subrange(0, i) =~= indent);
            assert(line[i] as char == c);
            assert forall|j: int| 0 <= j < head.len() implies #[trigger] head[j] != text::NEWLINE
                by {
                if j < i {
                    assert(head[j] == indent[j]);
                }
            }
        },
    }
    parse::lemma_marker(line);
    assert forall|j: int| 0 <= j < head.len() implies #[trigger] head[j] < 0x80 by {
        assert(line[j] == head[j]);
    }
}

/// A line that holds a visible ASCII character is not blank.
proof fn lemma_visible_not_blank(x: Seq<u8>, w: int)
    requires
        valid_utf8(x),
        0 <= w < x.len(),
        33 <= x[w] < 127,
    ensures
        !text::blank(x),
{
    text::lemma_boundary(x, w);
    decode_utf8_split(x, w);
    valid_utf8_split(x, w);
    let post = x.subrange(w, x.len() as int);
    let pre = x.subrange(0, w);
    decode_utf8_first_scalar(post);
    let all = decode_utf8(x);
    let n = decode_utf8(pre).len() as int;
    let v = x[w];
    assert(post[0] == v);
    assert(decode_utf8(post).len() > 0);
    assert(all[n] == decode_utf8(post)[0]);
    assert(v & 0x7F == v) by (bit_vector)
        requires
            33 <= v < 127,
    ;
    assert(v & 0x80 == 0) by (bit_vector)
        requires
            33 <= v < 127,
    ;
    assert(decode_utf8(post)[0] == v as char);
    if text::blank(x) {
        assert(text::is_whitespace_char(all[n]));
    }
}

/// A line that begins an item is not blank, and extends no other item.
proof fn lemma_item_line(line: Seq<u8>, indent: Seq<u8>, kind: MarkerKind)
    requires
        valid_utf8(line),
        parse::list_line(line, indent, kind),
    ensures
        !text::blank(line),
        !parse::continuation(line, indent),
{
    parse::lemma_marker(line);
    parse::lemma_skip_indent(line, 0);
    parse::lemma_skip_digits(line, parse::skip_indent(line, 0));
    lemma_visible_not_blank(line, parse::skip_indent(line, 0));
}

// ── Two texts side by side ───────────────────────────────────────────────
/// The lines `p..x` of `t` and `q..y` of `b` go together one by one: they are the same,
/// or both begin an item of the list.
#[verifier::opaque]
pub open spec fn pairs(
    t: Seq<u8>,
    p: int,
    x: int,
    b: Seq<u8>,
    q: int,
    y: int,
    indent: Seq<u8>,
    kind: MarkerKind,
) -> bool
    decreases y - q,
{
    if 0 <= p < x && 0 <= q < y && x <= t.len() && y <= b.len() {
        let le = text::line_end(t, p);
        let me = text::line_end(b, q);
        proof {
            text::lemma_line_end(b, q);
        }
        &&& text::at_line_start(t, p)
        &&& text::at_line_start(b, q)
        &&& {
            ||| text::line_at(t, p) == text::line_at(b, q)
            ||| {
                &&& parse::list_line(text::line_at(t, p), indent, kind)
                &&& parse::list_line(text::line_at(b, q), indent, kind)
                &&& !text::blank(text::line_at(t, p)) && !text::blank(text::line_at(b, q))
            }
        }
        &&& {
            ||| le < x && me < y && pairs(t, le + 1, x, b, me + 1, y, indent, kind)
            ||| le == x == t.len() && me == y == b.len()
        }
    } else {
        &&& p == x
        &&& q == y
        &&& text::at_line_start(t, p)
        &&& text::at_line_start(b, q)
    }
}

/// The same lines go together.
proof fn lemma_same_lines(
    t: Seq<u8>,
    p: int,
    x: int,
    b: Seq<u8>,
    q: int,
    y: int,
    n: int,
    indent: Seq<u8>,
    kind: MarkerKind,
)
    requires
        0 <= n,
        0 <= p && p + n <= x <= t.len(),
        0 <= q && q + n <= y <= b.len(),
        text::at_line_start(t, p),
        text::at_line_start(b, q),
        forall|j: int| 0 <= j < n ==> #[trigger] t[p + j] == b[q + j],
        ({
            ||| text::at_line_start(t, p + n) && text::at_line_start(b, q + n) && pairs(
                t,
                p + n,
                x,
                b,
                q + n,
                y,
                indent,
                kind,
            )
            ||| p + n == x == t.len() && q + n == y == b.len()
        }),
    ensures
        n > 0 || text::at_line_start(t, p + n) && text::at_line_start(b, q + n) && pairs(
            t,
            p + n,
            x,
            b,
            q + n,
            y,
            indent,
            kind,
        ) ==> pairs(t, p, x, b, q, y, indent, kind),
    decreases n,
{
    reveal_with_fuel(pairs, 2);
    if n > 0 {
        let me = text::line_end(b, q);
        text::lemma_line_end(b, q);
        if me < q + n {
            let k = me - q;
            assert forall|j: int| p <= j < p + k implies #[trigger] t[j] != text::NEWLINE by {
                assert(t[p + (j - p)] == b[q + (j - p)]);
            }
            assert(t[p + k] == b[q + k]);
            text::lemma_line_end_unique(t, p, p + k);
            assert(text::line_at(t, p) =~= text::line_at(b, q)) by {
                assert forall|j: int| 0 <= j < k implies #[trigger] t.subrange(p, p + k)[j] == b.subrange(
                    q,
                    q + k,
                )[j] by {
                    assert(t[p + j] == b[q + j]);
                }
            }
            assert forall|j: int| 0 <= j < n - k - 1 implies #[trigger] t[p + k + 1 + j] == b[q + k
                + 1 + j] by {
                assert(t[p + (k + 1 + j)] == b[q + (k + 1 + j)]);
            }
            lemma_same_lines(t, p + k + 1, x, b, q + k + 1, y, n - k - 1, indent, kind);
            if n - k - 1 == 0 && !text::at_line_start(t, p + n) {
                assert(t[p + k] == text::NEWLINE);
            }
            if n - k - 1 == 0 && p + n == x == t.len() && q + n == y == b.len() {
                assert(pairs(t, p + n, x, b, q + n, y, indent, kind));
            }
        } else {
            if q + n < b.len() {
                assert(b[q + n - 1] == text::NEWLINE);
            }
            assert(me == q + n);
            if text::at_line_start(b, q + n) {
                assert(b[q + n - 1] == text::NEWLINE);
            }
            assert forall|j: int| p <= j < p + n implies #[trigger] t[j] != text::NEWLINE by {
                assert(t[p + (j - p)] == b[q + (j - p)]);
            }
            text::lemma_line_end_unique(t, p, p + n);
            assert(text::line_at(t, p) =~= text::line_at(b, q)) by {
                assert forall|j: int| 0 <= j < n implies #[trigger] t.subrange(p, p + n)[j] == b.subrange(
                    q,
                    q + n,
                )[j] by {
                    assert(t[p + j] == b[q + j]);
                }
            }
        }
    }
}

/// What extends an item ends behind where the search began.
proof fn lemma_attach_goes_on(b: Seq<u8>, ls: int, indent: Seq<u8>)
    requires
        0 <= ls <= b.len(),
    ensures
        parse::attach_end(b, ls, indent) matches Some(e) ==> ls < e <= b.len(),
    decreases b.len() - ls,
{
    text::lemma_line_end(b, ls);
    let le = text::line_end(b, ls);
    let line = b.subrange(ls, le);
    if text::blank(line) {
        if le < b.len() {
            lemma_attach_goes_on(b, le + 1, indent);
        }
    } else if parse::continuation(line, indent) {
        parse::lemma_skip_indent(line, 0);
    }
}

/// Where the lines of two texts go together, and what follows them is the same, the list
/// ends at the same line in both.
proof fn lemma_bottom_pairs(
    t: Seq<u8>,
    p: int,
    x: int,
    b: Seq<u8>,
    q: int,
    y: int,
    indent: Seq<u8>,
    kind: MarkerKind,
)
    requires
        valid_utf8(b),
        1 <= p <= x <= t.len(),
        1 <= q <= y <= b.len(),
        text::at_line_start(t, p),
        text::at_line_start(b, q),
        pairs(t, p, x, b, q, y, indent, kind),
        t.skip(x) == b.skip(y),
    ensures
        parse::past_line(b, parse::list_bottom(b, q - 1, indent, kind), b.len() as int) == y
            ==> parse::past_line(t, parse::list_bottom(t, p - 1, indent, kind), t.len() as int)
            == x,
        parse::attach_end(b, q, indent) matches Some(e) ==> parse::past_line(
            b,
            parse::list_bottom(b, e, indent, kind),
            b.len() as int,
        ) == y ==> (parse::attach_end(t, p, indent) matches Some(f) && parse::past_line(
            t,
            parse::list_bottom(t, f, indent, kind),
            t.len() as int,
        ) == x),
    decreases y - q,
{
    reveal_with_fuel(pairs, 2);
    let tn = t.len() as int;
    let bn = b.len() as int;
    assert(t[p - 1] == text::NEWLINE && b[q - 1] == text::NEWLINE);
    text::lemma_line_end(b, q);
    text::lemma_line_end(t, p);
    let le = text::line_end(t, p);
    let me = text::line_end(b, q);
    let lt = text::line_at(t, p);
    let lb = text::line_at(b, q);
    parse::lemma_list_bottom(b, q - 1, indent, kind);
    parse::lemma_list_bottom(t, p - 1, indent, kind);
    lemma_attach_goes_on(b, q, indent);
    lemma_attach_goes_on(t, p, indent);
    parse::lemma_attach_end(b, q, indent);
    parse::lemma_attach_end(t, p, indent);
    if parse::attach_end(b, q, indent) is Some {
        parse::lemma_list_bottom(b, parse::attach_end(b, q, indent)->0, indent, kind);
    }
    if parse::attach_end(t, p, indent) is Some {
        parse::lemma_list_bottom(t, parse::attach_end(t, p, indent)->0, indent, kind);
    }
    if q == y {
        let tail = t.skip(x);
        assert(tail == b.skip(y));
        assert(tail.len() == tn - x && tail.len() == bn - y);
        assert forall|i: int| 0 <= i < bn - y implies #[trigger] t[x + i] == b[y + i] by {
            assert(tail[i] == t[x + i]);
            assert(tail[i] == b[y + i]);
        }
        let n = me - y;
        assert forall|i: int| x <= i < x + n implies #[trigger] t[i] != text::NEWLINE by {
            assert(t[x + (i - x)] == b[y + (i - x)]);
        }
        if n < bn - y {
            assert(t[x + n] == b[y + n]);
        }
        text::lemma_line_end_unique(t, x, x + n);
        assert(lt =~= lb);
        nest::lemma_attach_moved(t, x, b, y, indent);
        parse::lemma_list_bottom(b, me, indent, kind);
        parse::lemma_marker(lb);
        parse::lemma_skip_indent(lb, 0);
    } else {
        text::lemma_line_edges(b, q);
        text::lemma_line_edges(b, me);
        text::lemma_boundary_of_part(b, q, me, q);
        if parse::list_line(lb, indent, kind) {
            lemma_item_line(lb, indent, kind);
        }
        if le < x {
            lemma_bottom_pairs(t, le + 1, x, b, me + 1, y, indent, kind);
        } else {
            assert(parse::list_bottom(b, me, indent, kind) == me);
            assert(parse::list_bottom(t, le, indent, kind) == le);
        }
        if parse::past_line(b, parse::list_bottom(b, q - 1, indent, kind), bn) == y {
            if parse::list_line(lb, indent, kind) || parse::continuation(lb, indent) {
                assert(parse::list_bottom(b, q - 1, indent, kind) == parse::list_bottom(
                    b,
                    me,
                    indent,
                    kind,
                ));
                assert(parse::list_line(lt, indent, kind) || parse::continuation(lt, indent));
                assert(parse::list_bottom(t, p - 1, indent, kind) == parse::list_bottom(
                    t,
                    le,
                    indent,
                    kind,
                ));
            } else {
                assert(text::blank(lb));
                assert(lt == lb);
                assert(parse::attach_end(b, q, indent) is Some);
                assert(parse::attach_end(t, p, indent) is Some);
            }
        }
    }
}

/// Where the lines of two texts go together, so do the ends of their items.
proof fn lemma_item_end_pairs(
    t: Seq<u8>,
    p: int,
    x: int,
    tend: int,
    b: Seq<u8>,
    q: int,
    y: int,
    bend: int,
    indent: Seq<u8>,
    kind: MarkerKind,
)
    requires
        0 <= p <= x <= tend <= t.len(),
        0 <= q <= y <= bend <= b.len(),
        text::at_line_start(t, p),
        text::at_line_start(b, q),
        pairs(t, p, x, b, q, y, indent, kind),
        x == tend && y == bend || (x < tend && y < bend && parse::list_line(
            text::line_at(t, x),
            indent,
            kind,
        ) && parse::list_line(text::line_at(b, y), indent, kind)),
    ensures
        ({
            let r = parse::item_end(t, p, tend, indent, kind);
            let s = parse::item_end(b, q, bend, indent, kind);
            &&& p <= r <= x
            &&& q <= s <= y
            &&& r == x <==> s == y
            &&& r < x ==> text::at_line_start(t, r) && text::at_line_start(b, s) && pairs(
                t,
                r,
                x,
                b,
                s,
                y,
                indent,
                kind,
            ) && parse::list_line(text::line_at(t, r), indent, kind) && parse::list_line(
                text::line_at(b, s),
                indent,
                kind,
            )
        }),
    decreases y - q,
{
    reveal_with_fuel(pairs, 2);
    if p < x && q < y && !parse::list_line(text::line_at(b, q), indent, kind) {
        text::lemma_line_end(b, q);
        text::lemma_line_end(t, p);
        let le = text::line_end(t, p);
        let me = text::line_end(b, q);
        if le < x {
            assert(t[le] == text::NEWLINE && b[me] == text::NEWLINE);
            lemma_item_end_pairs(t, le + 1, x, tend, b, me + 1, y, bend, indent, kind);
        } else {
            assert(parse::item_end(t, le, tend, indent, kind) == le);
            assert(parse::item_end(b, me, bend, indent, kind) == me);
        }
    }
}

/// Where the lines of two texts go together, so do their items: before `x` and `y` there
/// are as many in both.
proof fn lemma_count_pairs(
    t: Seq<u8>,
    p: int,
    x: int,
    tend: int,
    b: Seq<u8>,
    q: int,
    y: int,
    bend: int,
    indent: Seq<u8>,
    kind: MarkerKind,
)
    requires
        0 <= p <= x <= tend <= t.len(),
        0 <= q <= y <= bend <= b.len(),
        text::at_line_start(t, p),
        text::at_line_start(b, q),
        p == x <==> q == y,
        p < x ==> pairs(t, p, x, b, q, y, indent, kind) && parse::list_line(
            text::line_at(t, p),
            indent,
            kind,
        ) && parse::list_line(text::line_at(b, q), indent, kind),
        x == tend && y == bend || (x < tend && y < bend && text::at_line_start(t, x)
            && text::at_line_start(b, y) && parse::list_line(text::line_at(t, x), indent, kind)
            && parse::list_line(text::line_at(b, y), indent, kind)),
        parse::items_from(t, x, tend, indent, kind) is Some,
        parse::items_from(b, y, bend, indent, kind) is Some,
    ensures
        ({
            let a = parse::items_from(t, p, tend, indent, kind);
            let rest = parse::items_from(t, x, tend, indent, kind)->0;
            let c = parse::items_from(b, q, bend, indent, kind);
            let below = parse::items_from(b, y, bend, indent, kind)->0;
            &&& a is Some
            &&& c is Some
            &&& a->0.len() - rest.len() == c->0.len() - below.len()
            &&& a->0.len() >= rest.len()
            &&& a->0.skip(a->0.len() - rest.len()) == rest
            &&& c->0.skip(c->0.len() - below.len()) == below
        }),
    decreases y - q,
{
    reveal_with_fuel(pairs, 2);
    if p < x {
        text::lemma_line_end(b, q);
        text::lemma_line_end(t, p);
        let le = text::line_end(t, p);
        let me = text::line_end(b, q);
        parse::lemma_marker(text::line_at(t, p));
        parse::lemma_marker(text::line_at(b, q));
        let next = parse::item_end(
            t,
            parse::past_line(t, le, tend),
            tend,
            indent,
            kind,
        );
        let below_next = parse::item_end(
            b,
            parse::past_line(b, me, bend),
            bend,
            indent,
            kind,
        );
        if le < x {
            assert(t[le] == text::NEWLINE && b[me] == text::NEWLINE);
            lemma_item_end_pairs(t, le + 1, x, tend, b, me + 1, y, bend, indent, kind);
        }
        if next < x {
            lemma_count_pairs(t, next, x, tend, b, below_next, y, bend, indent, kind);
        }
        let rest = parse::items_from(t, x, tend, indent, kind)->0;
        let below = parse::items_from(b, y, bend, indent, kind)->0;
        let a = parse::items_from(t, next, tend, indent, kind)->0;
        let c = parse::items_from(b, below_next, bend, indent, kind)->0;
        let i0 = parse::item_at(t, p, tend, indent, kind);
        let j0 = parse::item_at(b, q, bend, indent, kind);
        assert((seq![i0] + a).skip(1 + a.len() - rest.len()) =~= a.skip(a.len() - rest.len()));
        assert((seq![j0] + c).skip(1 + c.len() - below.len()) =~= c.skip(c.len() - below.len()));
        if next == x {
            assert(a.skip(0) =~= a);
            assert(c.skip(0) =~= c);
        }
    } else {
        let rest = parse::items_from(t, x, tend, indent, kind)->0;
        let below = parse::items_from(b, y, bend, indent, kind)->0;
        assert(rest.skip(0) =~= rest);
        assert(below.skip(0) =~= below);
    }
}

/// An item whose first line is another goes together with the item that it was.
proof fn lemma_item_pairs(
    t: Seq<u8>,
    p: int,
    x: int,
    b: Seq<u8>,
    it: ListItemInfo,
    y: int,
    line: Seq<u8>,
    indent: Seq<u8>,
    kind: MarkerKind,
)
    requires
        valid_utf8(b),
        parse::item_wf(b, it),
        it.line_end == text::line_end(b, it.start as int),
        parse::list_line(text::line_at(b, it.start as int), indent, kind),
        parse::list_line(line, indent, kind),
        valid_utf8(line),
        forall|j: int| 0 <= j < line.len() ==> #[trigger] line[j] != text::NEWLINE,
        0 <= p && p + line.len() + (it.end - it.line_end) <= x <= t.len(),
        it.end <= y <= b.len(),
        text::at_line_start(t, p),
        forall|j: int| 0 <= j < line.len() ==> #[trigger] t[p + j] == line[j],
        forall|j: int|
            0 <= j < it.end - it.line_end ==> #[trigger] t[p + line.len() + j] == b[it.line_end + j],
        ({
            let r = p + line.len() + (it.end - it.line_end);
            ||| text::at_line_start(t, r) && text::at_line_start(b, it.end as int) && pairs(
                t,
                r,
                x,
                b,
                it.end as int,
                y,
                indent,
                kind,
            )
            ||| r == x == t.len() && it.end == y == b.len()
        }),
    ensures
        pairs(t, p, x, b, it.start as int, y, indent, kind),
{
    reveal_with_fuel(pairs, 2);
    let q = it.start as int;
    let me = it.line_end as int;
    let k = line.len() as int;
    let own = text::line_at(b, q);
    text::lemma_line_end(b, q);
    text::lemma_line_edges(b, q);
    text::lemma_line_edges(b, me);
    text::lemma_boundary_of_part(b, q, me, q);
    lemma_item_line(own, indent, kind);
    lemma_item_line(line, indent, kind);
    parse::lemma_marker(line);
    assert forall|j: int| p <= j < p + k implies #[trigger] t[j] != text::NEWLINE by {
        assert(t[p + (j - p)] == line[j - p]);
    }
    if me < it.end {
        assert(t[p + k + 0] == b[me + 0]);
        text::lemma_line_end_unique(t, p, p + k);
        assert(b[me] == text::NEWLINE);
        assert(t[p + k] == text::NEWLINE);
        let n = it.end - me - 1;
        assert forall|j: int| 0 <= j < n implies #[trigger] t[p + k + 1 + j] == b[me + 1 + j] by {
            assert(t[p + k + (1 + j)] == b[me + (1 + j)]);
        }
        lemma_same_lines(t, p + k + 1, x, b, me + 1, y, n, indent, kind);
        if n == 0 && !(text::at_line_start(t, p + k + 1) && pairs(
            t,
            p + k + 1,
            x,
            b,
            me + 1,
            y,
            indent,
            kind,
        )) {
            assert(pairs(t, p + k + 1, x, b, me + 1, y, indent, kind));
        }
    } else {
        assert(b[it.end - 1] != text::NEWLINE);
        text::lemma_line_end_unique(t, p, p + k);
    }
    assert(text::line_at(t, p) =~= line) by {
        assert forall|j: int| 0 <= j < k implies #[trigger] t.subrange(p, p + k)[j] == line[j] by {
            assert(t[p + j] == line[j]);
        }
    }
}

/// The parts of a text that goes on at `p` with `a`, `rest` and `suf`.
pub proof fn lemma_parts(t: Seq<u8>, p: int, a: Seq<u8>, rest: Seq<u8>, suf: Seq<u8>)
    requires
        0 <= p <= t.len(),
        t.skip(p) == a + rest + suf,
    ensures
        t.len() == p + a.len() + rest.len() + suf.len(),
        forall|j: int| 0 <= j < a.len() ==> #[trigger] t[p + j] == a[j],
        t.skip((p + a.len()) as int) == rest + suf,
        t.skip((p + a.len() + rest.len()) as int) == suf,
{
    let all = a + rest + suf;
    let tail = t.skip(p);
    assert(tail.len() == t.len() - p);
    assert forall|j: int| 0 <= j < all.len() implies #[trigger] t[p + j] == all[j] by {
        assert(tail[j] == t[p + j]);
    }
    let r = (p + a.len()) as int;
    assert forall|j: int| 0 <= j < a.len() implies #[trigger] t[p + j] == a[j] by {
        assert(all[j] == a[j]);
    }
    assert forall|j: int| 0 <= j < rest.len() + suf.len() implies #[trigger] t.skip(r)[j] == (rest
        + suf)[j] by {
        assert(t[p + (a.len() + j)] == all[(a.len() + j) as int]);
    }
    assert(t.skip(r) =~= rest + suf);
    let x = (r + rest.len()) as int;
    assert forall|j: int| 0 <= j < suf.len() implies #[trigger] t.skip(x)[j] == suf[j] by {
        assert(t[p + (a.len() + rest.len() + j)] == all[(a.len() + rest.len() + j) as int]);
    }
    assert(t.skip(x) =~= suf);
}

/// The first line of an item with its marker written again.
proof fn lemma_rewritten_line(
    b: Seq<u8>,
    it: ListItemInfo,
    from: int,
    indent: Seq<u8>,
    kind: MarkerKind,
    n: u64,
    mark: Seq<u8>,
)
    requires
        valid_utf8(b),
        parse::item_wf(b, it),
        it.line_end == text::line_end(b, it.start as int),
        forall|i: int| 0 <= i < indent.len() ==> parse::is_indent_byte(#[trigger] indent[i]),
        parse::kind_wf(kind),
        it.marker_end <= from <= it.line_end,
        is_char_boundary(b, from),
        forall|j: int| 0 <= j < mark.len() ==> 0x20 <= #[trigger] mark[j] < 0x80,
    ensures
        ({
            let line = edit::marker_text(indent, kind, n) + (mark + b.subrange(
                from,
                it.line_end as int,
            ));
            &&& valid_utf8(line)
            &&& parse::list_line(line, indent, kind)
            &&& forall|j: int| 0 <= j < line.len() ==> #[trigger] line[j] != text::NEWLINE
        }),
{
    let head = edit::marker_text(indent, kind, n);
    let mid = b.subrange(from, it.line_end as int);
    let line = head + (mark + mid);
    lemma_written_marker(indent, kind, n, mark + mid);
    text::lemma_line_end(b, it.start as int);
    assert forall|j: int| 0 <= j < line.len() implies #[trigger] line[j] != text::NEWLINE by {
        if j < head.len() {
            assert(line[j] == head[j]);
        } else if j < head.len() + mark.len() {
            assert(line[j] == mark[j - head.len()]);
        } else {
            assert(line[j] == b[from + (j - head.len() - mark.len())]);
        }
    }
    lemma_ascii_valid(head);
    lemma_ascii_valid(mark);
    text::lemma_boundary_of_part(b, from, it.line_end as int, from);
    valid_utf8_concat(mark, mid);
    valid_utf8_concat(head, mark + mid);
}

/// An item that a text goes on with, its first line written again, goes together with the
/// item that it was, if what follows does.
proof fn lemma_rewritten_item(
    t: Seq<u8>,
    p: int,
    x: int,
    b: Seq<u8>,
    info: ListInfo,
    k: int,
    from: int,
    line: Seq<u8>,
    rest: Seq<u8>,
)
    requires
        valid_utf8(b),
        b.len() <= usize::MAX,
        info.wf(b),
        parse::items_from(
            b,
            info.start as int,
            info.end as int,
            encode_utf8(info.indent@),
            info.kind,
        ) == Some(info.items@),
        0 <= k < info.items@.len(),
        0 <= p <= t.len(),
        text::at_line_start(t, p),
        valid_utf8(line),
        parse::list_line(line, encode_utf8(info.indent@), info.kind),
        forall|j: int| 0 <= j < line.len() ==> #[trigger] line[j] != text::NEWLINE,
        t.skip(p) == line + b.subrange(
            info.items@[k].line_end as int,
            info.items@[k].end as int,
        ) + rest + b.skip(info.end as int),
        x == p + line.len() + (info.items@[k].end - info.items@[k].line_end) + rest.len(),
        ({
            let r = p + line.len() + (info.items@[k].end - info.items@[k].line_end);
            if k + 1 < info.items@.len() {
                text::at_line_start(t, r) ==> pairs(
                    t,
                    r,
                    x,
                    b,
                    info.items@[k + 1].start as int,
                    info.end as int,
                    encode_utf8(info.indent@),
                    info.kind,
                )
            } else {
                rest.len() == 0
            }
        }),
    ensures
        pairs(
            t,
            p,
            x,
            b,
            info.items@[k].start as int,
            info.end as int,
            encode_utf8(info.indent@),
            info.kind,
        ),
{
    let ind = encode_utf8(info.indent@);
    let it = info.items@[k];
    let end = info.end as int;
    edit::lemma_items_in_list(b, info, k);
    assert(parse::item_wf(b, it));
    toggle::lemma_items_are(b, info.start as int, end, ind, info.kind, k);
    let tail = b.subrange(it.line_end as int, it.end as int);
    let suf = b.skip(end);
    let own = text::line_at(b, it.start as int);
    text::lemma_line_end(b, it.start as int);
    lemma_parts(t, p, line + tail, rest, suf);
    let r = p + line.len() + tail.len();
    assert forall|j: int| 0 <= j < line.len() implies #[trigger] t[p + j] == line[j] by {
        assert(t[p + j] == (line + tail)[j]);
    }
    assert forall|j: int| 0 <= j < it.end - it.line_end implies #[trigger] t[p + line.len() + j]
        == b[it.line_end + j] by {
        assert(t[p + (line.len() + j)] == (line + tail)[(line.len() + j) as int]);
    }
    if it.line_end == it.end {
        assert(own[own.len() - 1] == b[it.end - 1]);
        parse::lemma_marker(own);
    }
    if text::at_line_start(b, it.end as int) {
        assert(b[it.end - 1] == text::NEWLINE);
        assert(it.line_end < it.end);
        let j = it.end - it.line_end - 1;
        assert(t[p + line.len() + j] == b[it.line_end + j]);
        assert(text::at_line_start(t, r as int));
    }
    if k + 1 < info.items@.len() {
        assert(parse::item_wf(b, info.items@[k + 1]));
        assert(it.end == info.items@[k + 1].start);
    } else {
        assert(it.end == info.end);
        assert(x == r);
        if text::at_line_start(b, it.end as int) {
            assert(pairs(t, r as int, x, b, it.end as int, end, ind, info.kind)) by {
                reveal(pairs);
            }
        } else {
            assert(it.end == b.len());
            assert(suf.len() == 0);
        }
    }
    lemma_item_pairs(t, p, x, b, it, end, line, ind, info.kind);
}

/// The items below go together with what they are numbered to.
proof fn lemma_below_pairs(t: Seq<u8>, p: int, b: Seq<u8>, info: ListInfo, k: int, n: u64)
    requires
        valid_utf8(b),
        b.len() <= usize::MAX,
        info.wf(b),
        parse::items_from(
            b,
            info.start as int,
            info.end as int,
            encode_utf8(info.indent@),
            info.kind,
        ) == Some(info.items@),
        0 <= k <= info.items@.len(),
        0 <= p <= t.len(),
        t.skip(p) == edit::renumbered(
            b,
            info.items@,
            k,
            n,
            encode_utf8(info.indent@),
            info.kind,
        ) + b.skip(info.end as int),
        k < info.items@.len() ==> text::at_line_start(t, p),
    ensures
        ({
            let ind = encode_utf8(info.indent@);
            let x = p + edit::renumbered(b, info.items@, k, n, ind, info.kind).len();
            &&& k < info.items@.len() ==> pairs(
                t,
                p,
                x as int,
                b,
                info.items@[k].start as int,
                info.end as int,
                ind,
                info.kind,
            )
        }),
    decreases info.items@.len() - k,
{
    let ind = encode_utf8(info.indent@);
    let suf = b.skip(info.end as int);
    if k < info.items@.len() {
        let it = info.items@[k];
        assert(parse::item_wf(b, it));
        toggle::lemma_items_are(b, info.start as int, info.end as int, ind, info.kind, k);
        text::lemma_line_end(b, it.start as int);
        let head = edit::marker_text(ind, info.kind, n);
        let mid = b.subrange(it.marker_end as int, it.line_end as int);
        let none = Seq::<u8>::empty();
        let line = head + (none + mid);
        let part = b.subrange(it.marker_end as int, it.end as int);
        let tail = b.subrange(it.line_end as int, it.end as int);
        let rest = edit::renumbered(b, info.items@, k + 1, n.wrapping_add(1), ind, info.kind);
        lemma_rewritten_line(b, it, it.marker_end as int, ind, info.kind, n, none);
        assert(head + part =~= line + tail);
        let x = p + line.len() + tail.len() + rest.len();
        let r = (p + line.len() + tail.len()) as int;
        lemma_parts(t, p, line + tail, rest, suf);
        if k + 1 < info.items@.len() && text::at_line_start(t, r) {
            lemma_below_pairs(t, r, b, info, k + 1, n.wrapping_add(1));
        }
        lemma_rewritten_item(
            t,
            p,
            x as int,
            b,
            info,
            k,
            it.marker_end as int,
            line,
            rest,
        );
    }
}

/// Bytes of ASCII characters are a text.
pub proof fn lemma_ascii_valid(x: Seq<u8>)
    requires
        forall|j: int| 0 <= j < x.len() ==> #[trigger] x[j] < 0x80,
    ensures
        valid_utf8(x),
    decreases x.len(),
{
    if x.len() > 0 {
        let rest = x.drop_last();
        assert forall|j: int| 0 <= j < rest.len() implies #[trigger] rest[j] < 0x80 by {
            assert(rest[j] == x[j]);
        }
        lemma_ascii_valid(rest);
        let c = x.last() as char;
        text::lemma_encode_ascii(c);
        encode_utf8_valid_utf8(seq![c]);
        assert(seq![x.last()] =~= seq![c as u8]);
        valid_utf8_concat(rest, seq![x.last()]);
        assert(rest + seq![x.last()] =~= x);
    } else {
        encode_utf8_valid_utf8(Seq::empty());
        assert(encode_utf8(Seq::empty()) =~= x);
    }
}

/// The items of a bullet list are as they are when their markers are written again.
pub proof fn lemma_bullets_stay(b: Seq<u8>, info: ListInfo, k: int, n: u64)
    requires
        valid_utf8(b),
        b.len() <= usize::MAX,
        info.wf(b),
        info.kind is Bullet,
        parse::items_from(
            b,
            info.start as int,
            info.end as int,
            encode_utf8(info.indent@),
            info.kind,
        ) == Some(info.items@),
        0 <= k <= info.items@.len(),
    ensures
        edit::renumbered(b, info.items@, k, n, encode_utf8(info.indent@), info.kind) == b.subrange(
            if k < info.items@.len() {
                info.items@[k].start as int
            } else {
                info.end as int
            },
            info.end as int,
        ),
    decreases info.items@.len() - k,
{
    let ind = encode_utf8(info.indent@);
    edit::lemma_items_in_list(b, info, 0);
    if k < info.items@.len() {
        let it = info.items@[k];
        assert(parse::item_wf(b, it));
        edit::lemma_items_in_list(b, info, k);
        toggle::lemma_items_are(b, info.start as int, info.end as int, ind, info.kind, k);
        let own = text::line_at(b, it.start as int);
        let m = parse::marker_of(own)->0;
        parse::lemma_marker(own);
        text::lemma_line_end(b, it.start as int);
        let head = edit::marker_text(ind, info.kind, n);
        assert(head =~= b.subrange(it.start as int, it.marker_end as int)) by {
            assert forall|j: int| 0 <= j < head.len() implies #[trigger] head[j] == b[it.start + j]
                by {
                assert(own[j] == b[it.start + j]);
                if j < ind.len() {
                    assert(m.indent[j] == own[j]);
                }
            }
        }
        lemma_bullets_stay(b, info, k + 1, n.wrapping_add(1));
        if k + 1 < info.items@.len() {
            assert(it.end == info.items@[k + 1].start);
        } else {
            assert(it.end == info.end);
        }
        assert(edit::renumbered(b, info.items@, k, n, ind, info.kind) =~= b.subrange(
            it.start as int,
            info.end as int,
        ));
    } else {
        assert(edit::renumbered(b, info.items@, k, n, ind, info.kind) =~= b.subrange(
            info.end as int,
            info.end as int,
        ));
    }
}

/// The top of a list is told by what stands above.
proof fn lemma_top_same(
    t: Seq<u8>,
    b: Seq<u8>,
    at: int,
    first: int,
    below: bool,
    indent: Seq<u8>,
    kind: MarkerKind,
)
    requires
        0 <= at <= t.len(),
        at <= b.len(),
        forall|j: int| 0 <= j < at ==> #[trigger] t[j] == b[j],
    ensures
        parse::list_top(t, at, first, below, indent, kind) == parse::list_top(
            b,
            at,
            first,
            below,
            indent,
            kind,
        ),
    decreases at,
{
    if at > 0 {
        let ps = text::line_start(b, at - 1);
        text::lemma_line_start(b, at - 1);
        if ps > 0 {
            assert(t[ps - 1] == b[ps - 1]);
        }
        text::lemma_line_start_unique(t, ps, at - 1);
        assert(t.subrange(ps, at - 1) =~= b.subrange(ps, at - 1));
        let line = b.subrange(ps, at - 1);
        if parse::list_line(line, indent, kind) {
            lemma_top_same(t, b, ps, ps, true, indent, kind);
        } else {
            lemma_top_same(t, b, ps, first, false, indent, kind);
        }
    }
}

/// The parts of a text that was put together.
pub proof fn lemma_assembled(
    t: Seq<u8>,
    pre: Seq<u8>,
    head: Seq<u8>,
    mark: Seq<u8>,
    rest: Seq<u8>,
    tail: Seq<u8>,
    below: Seq<u8>,
    suf: Seq<u8>,
)
    requires
        t == pre + seq![text::NEWLINE] + (head + mark) + (rest + tail) + below + suf,
    ensures
        ({
            let at = pre.len() + 1 + head.len() + mark.len();
            &&& t.len() == at + rest.len() + tail.len() + below.len() + suf.len()
            &&& t.skip((pre.len() + 1) as int) == (head + (mark + rest)) + tail + below + suf
            &&& t[pre.len() as int] == text::NEWLINE
            &&& forall|j: int| 0 <= j < pre.len() ==> #[trigger] t[j] == pre[j]
            &&& t.subrange(0, pre.len() as int) == pre
            &&& t.subrange(at as int, (at + rest.len() + tail.len()) as int) == rest + tail
        }),
{
    let at = (pre.len() + 1 + head.len() + mark.len()) as int;
    assert(t.skip((pre.len() + 1) as int) =~= (head + (mark + rest)) + tail + below + suf);
    assert(t.subrange(0, pre.len() as int) =~= pre);
    assert(t.subrange(at, at + rest.len() + tail.len()) =~= rest + tail);
}

/// A text that was continued is a list that has grown.
proof fn lemma_has_grown(
    t: Seq<u8>,
    b: Seq<u8>,
    info: ListInfo,
    cursor: int,
    i: int,
    n: u64,
    line: Seq<u8>,
    x: int,
)
    requires
        valid_utf8(b),
        b.len() <= usize::MAX,
        t.len() <= usize::MAX,
        0 <= cursor <= b.len(),
        is_char_boundary(b, cursor),
        parse::is_list_at(info, b, cursor),
        0 <= i < info.items@.len(),
        info.items@[i].marker_end <= cursor <= info.items@[i].line_end,
        forall|j: int| 0 <= j < cursor ==> #[trigger] t[j] == b[j],
        cursor < t.len(),
        t[cursor] == text::NEWLINE,
        line == edit::marker_text(encode_utf8(info.indent@), info.kind, n) + (edit::new_checkbox(
            info.items@[i].task,
        ) + b.subrange(cursor, info.items@[i].line_end as int)),
        t.skip(cursor + 1) == line + b.subrange(
            info.items@[i].line_end as int,
            info.items@[i].end as int,
        ) + edit::renumbered(
            b,
            info.items@,
            i + 1,
            n.wrapping_add(1),
            encode_utf8(info.indent@),
            info.kind,
        ) + b.skip(info.end as int),
        x == cursor + 1 + line.len() + (info.items@[i].end - info.items@[i].line_end)
            + edit::renumbered(
            b,
            info.items@,
            i + 1,
            n.wrapping_add(1),
            encode_utf8(info.indent@),
            info.kind,
        ).len(),
    ensures
        grown(t, b, info, cursor, i, x, line),
{
    let ind = encode_utf8(info.indent@);
    let kind = info.kind;
    let item = info.items@[i];
    let start = info.start as int;
    let end = info.end as int;
    edit::lemma_items_in_list(b, info, i);
    assert(parse::item_wf(b, item));
    toggle::lemma_items_are(b, start, end, ind, kind, i);
    let me = item.line_end as int;
    text::lemma_line_end(b, item.start as int);
    let mark = edit::new_checkbox(item.task);
    let below = edit::renumbered(b, info.items@, i + 1, n.wrapping_add(1), ind, kind);
    let suf = b.skip(end);
    let nl = cursor + 1;
    let tail = b.subrange(me, item.end as int);
    lemma_rewritten_line(b, item, cursor, ind, kind, n, mark);
    lemma_parts(t, nl, line + tail, below, suf);
    let r = (nl + line.len() + tail.len()) as int;
    if i + 1 < info.items@.len() && text::at_line_start(t, r) {
        lemma_below_pairs(t, r, b, info, i + 1, n.wrapping_add(1));
    }
    lemma_rewritten_item(t, nl, x, b, info, i, cursor, line, below);
    if tail.len() == 0 {
        let own = text::line_at(b, item.start as int);
        parse::lemma_marker(own);
        assert(own[own.len() - 1] == b[item.end - 1]);
        assert(item.end == b.len());
        if i + 1 < info.items@.len() {
            assert(parse::item_wf(b, info.items@[i + 1]));
            assert(item.end == info.items@[i + 1].start);
            edit::lemma_items_in_list(b, info, i + 1);
        }
        assert(below.len() == 0 && suf.len() == 0);
    }
    assert(line + tail + below + suf =~= line + tail + (below + suf));
    lemma_new_line(t, nl, line, tail, below + suf);
}

/// The list of a text that was continued.
proof fn lemma_grown(t: Seq<u8>, b: Seq<u8>, info: ListInfo, cursor: int, i: int, n: u64)
    requires
        valid_utf8(b),
        b.len() <= usize::MAX,
        t.len() <= usize::MAX,
        0 <= cursor <= b.len(),
        is_char_boundary(b, cursor),
        parse::is_list_at(info, b, cursor),
        0 <= i < info.items@.len(),
        info.items@[i].marker_end <= cursor <= info.items@[i].line_end,
        info.items@[i].task is None ==> parse::checkbox(
            b.subrange(cursor, info.items@[i].line_end as int),
        ) is None,
        t == b.subrange(0, cursor) + seq![text::NEWLINE] + (edit::marker_text(
            encode_utf8(info.indent@),
            info.kind,
            n,
        ) + edit::new_checkbox(info.items@[i].task)) + (b.subrange(
            cursor,
            info.items@[i].line_end as int,
        ) + b.subrange(info.items@[i].line_end as int, info.items@[i].end as int))
            + edit::renumbered(
            b,
            info.items@,
            i + 1,
            n.wrapping_add(1),
            encode_utf8(info.indent@),
            info.kind,
        ) + b.skip(info.end as int),
    ensures
        ({
            let ind = encode_utf8(info.indent@);
            let item = info.items@[i];
            let head = edit::marker_text(ind, info.kind, n);
            let at = cursor + 1 + head.len() + edit::new_checkbox(item.task).len();
            let span = parse::list_at(t, at as int);
            let found = parse::items_from(
                t,
                span->0.start,
                span->0.end,
                span->0.indent,
                span->0.kind,
            );
            let new = found->0[i + 1];
            &&& span is Some
            &&& span->0.start == info.start
            &&& span->0.kind == info.kind
            &&& span->0.indent == ind
            &&& found is Some
            &&& found->0.len() == info.items@.len() + 1
            &&& new.start == cursor + 1
            &&& new.marker_end == cursor + 1 + head.len()
            &&& new.content_start == at
            &&& new.line_end == at + (item.line_end - cursor)
            &&& new.number == (if info.kind is Ordered {
                Some(n)
            } else {
                None
            })
            &&& new.task == (if item.task is Some {
                Some(false)
            } else {
                None
            })
            &&& found->0[i].start == item.start
            &&& found->0[i].number == item.number
            &&& found->0[i].line_end == cursor
        }),
{
    let ind = encode_utf8(info.indent@);
    let kind = info.kind;
    let item = info.items@[i];
    assert(parse::item_wf(b, item));
    let me = item.line_end as int;
    let head = edit::marker_text(ind, kind, n);
    let mark = edit::new_checkbox(item.task);
    let below = edit::renumbered(b, info.items@, i + 1, n.wrapping_add(1), ind, kind);
    let suf = b.skip(info.end as int);
    let nl = cursor + 1;
    let rest = b.subrange(cursor, me);
    let tail = b.subrange(me, item.end as int);
    let line = head + (mark + rest);
    let pre = b.subrange(0, cursor);
    lemma_assembled(t, pre, head, mark, rest, tail, below, suf);
    assert forall|j: int| 0 <= j < cursor implies #[trigger] t[j] == b[j] by {
        assert(t[j] == pre[j]);
    }
    let x = (nl + line.len() + tail.len() + below.len()) as int;
    lemma_has_grown(t, b, info, cursor, i, n, line, x);
    lemma_around(t, b, info, cursor, i, x, line);
    lemma_new_item(t, nl, x, ind, kind, n, item.task, rest);
    let at = (nl + head.len() + mark.len()) as int;
    assert(parse::list_at(t, at) is Some);
}

/// What is read of the line of the new item.
proof fn lemma_new_item(
    t: Seq<u8>,
    nl: int,
    x: int,
    indent: Seq<u8>,
    kind: MarkerKind,
    n: u64,
    task: Option<bool>,
    rest: Seq<u8>,
)
    requires
        forall|i: int| 0 <= i < indent.len() ==> parse::is_indent_byte(#[trigger] indent[i]),
        parse::kind_wf(kind),
        t.len() <= usize::MAX,
        ({
            let line = edit::marker_text(indent, kind, n) + (edit::new_checkbox(task) + rest);
            &&& 0 <= nl && nl + line.len() <= t.len()
            &&& text::line_at(t, nl) == line
            &&& text::line_end(t, nl) == nl + line.len()
        }),
        task is None ==> parse::checkbox(rest) is None,
    ensures
        ({
            let head = edit::marker_text(indent, kind, n);
            let at = nl + head.len() + edit::new_checkbox(task).len();
            let new = parse::item_at(t, nl, x, indent, kind);
            &&& new.start == nl
            &&& new.marker_end == nl + head.len()
            &&& new.content_start == at
            &&& new.line_end == at + rest.len()
            &&& new.number == (if kind is Ordered {
                Some(n)
            } else {
                None
            })
            &&& new.task == (if task is Some {
                Some(false)
            } else {
                None
            })
        }),
{
    let head = edit::marker_text(indent, kind, n);
    let mark = edit::new_checkbox(task);
    let line = head + (mark + rest);
    lemma_written_marker(indent, kind, n, mark + rest);
    let own_rest = t.subrange((nl + head.len()) as int, text::line_end(t, nl));
    assert(own_rest =~= mark + rest) by {
        assert forall|j: int| 0 <= j < mark.len() + rest.len() implies #[trigger] own_rest[j] == (
        mark + rest)[j] by {
            assert(own_rest[j] == t[nl + head.len() + j]);
            assert(text::line_at(t, nl)[(head.len() + j) as int] == t[nl + (head.len() + j)]);
            assert(line[(head.len() + j) as int] == (mark + rest)[j]);
        }
    }
    lemma_open_box(task, rest);
}

/// The checkbox that a new item begins with.
proof fn lemma_open_box(task: Option<bool>, rest: Seq<u8>)
    ensures
        task is Some ==> parse::checkbox(edit::new_checkbox(task) + rest) == Some(false),
        task is None ==> edit::new_checkbox(task) + rest == rest,
{
    let mark = edit::new_checkbox(task);
    let all = mark + rest;
    if task is Some {
        assert(all[0] == mark[0] && all[1] == mark[1] && all[2] == mark[2] && all[3] == mark[3]);
    } else {
        assert(all =~= rest);
    }
}

/// The line that a text goes on with.
proof fn lemma_new_line(t: Seq<u8>, p: int, line: Seq<u8>, tail: Seq<u8>, rest: Seq<u8>)
    requires
        0 <= p <= t.len(),
        t.skip(p) == line + tail + rest,
        forall|j: int| 0 <= j < line.len() ==> #[trigger] line[j] != text::NEWLINE,
        tail.len() > 0 ==> tail[0] == text::NEWLINE,
        tail.len() == 0 ==> rest.len() == 0,
    ensures
        text::line_end(t, p) == p + line.len(),
        text::line_at(t, p) == line,
{
    lemma_parts(t, p, line + tail, rest, Seq::empty());
    let e = (p + line.len()) as int;
    assert forall|j: int| p <= j < e implies #[trigger] t[j] != text::NEWLINE by {
        assert(t[p + (j - p)] == (line + tail)[j - p]);
        assert((line + tail)[j - p] == line[j - p]);
    }
    if tail.len() > 0 {
        assert(t[p + line.len()] == (line + tail)[line.len() as int]);
    }
    text::lemma_line_end_unique(t, p, e);
    assert(text::line_at(t, p) =~= line) by {
        assert forall|j: int| 0 <= j < line.len() implies #[trigger] t.subrange(p, e)[j] == line[j]
            by {
            assert(t[p + j] == (line + tail)[j]);
        }
    }
}

/// What the text of a list looks like after it was continued from its item `i`: the item
/// ends at the cursor, and `line` is the line below.
spec fn grown(
    t: Seq<u8>,
    b: Seq<u8>,
    info: ListInfo,
    cursor: int,
    i: int,
    x: int,
    line: Seq<u8>,
) -> bool {
    &&& valid_utf8(b)
    &&& b.len() <= usize::MAX
    &&& t.len() <= usize::MAX
    &&& 0 <= cursor <= b.len()
    &&& parse::is_list_at(info, b, cursor)
    &&& 0 <= i < info.items@.len()
    &&& info.items@[i].marker_end <= cursor <= info.items@[i].line_end
    &&& cursor + 1 + line.len() <= x <= t.len()
    &&& forall|j: int| 0 <= j < cursor ==> #[trigger] t[j] == b[j]
    &&& t[cursor] == text::NEWLINE
    &&& text::line_at(t, cursor + 1) == line
    &&& text::line_end(t, cursor + 1) == cursor + 1 + line.len()
    &&& parse::list_line(line, encode_utf8(info.indent@), info.kind)
    &&& pairs(
        t,
        cursor + 1,
        x,
        b,
        info.items@[i].start as int,
        info.end as int,
        encode_utf8(info.indent@),
        info.kind,
    )
    &&& t.skip(x) == b.skip(info.end as int)
}

/// The line that the item was on, cut at the cursor, is the item's marker line still.
proof fn lemma_cut_item(
    t: Seq<u8>,
    b: Seq<u8>,
    info: ListInfo,
    cursor: int,
    i: int,
    x: int,
    line: Seq<u8>,
)
    requires
        grown(t, b, info, cursor, i, x, line),
    ensures
        ({
            let ind = encode_utf8(info.indent@);
            let item = info.items@[i];
            let q = item.start as int;
            &&& 0 <= q < cursor
            &&& q < info.end <= b.len()
            &&& text::at_line_start(b, q) && text::at_line_start(t, q)
            &&& text::line_start(b, cursor) == q
            &&& text::line_end(b, q) == item.line_end
            &&& parse::list_line(text::line_at(b, q), ind, info.kind)
            &&& text::line_end(t, q) == cursor
            &&& text::line_start(t, cursor) == q
            &&& parse::list_line(text::line_at(t, q), ind, info.kind)
            &&& parse::marker_of(text::line_at(t, q)) == parse::marker_of(text::line_at(b, q))
            &&& item == parse::item_at(b, q, info.end as int, ind, info.kind)
        }),
{
    let ind = encode_utf8(info.indent@);
    let kind = info.kind;
    let item = info.items@[i];
    let q = item.start as int;
    edit::lemma_items_in_list(b, info, i);
    assert(parse::item_wf(b, item));
    toggle::lemma_items_are(b, info.start as int, info.end as int, ind, kind, i);
    text::lemma_line_end(b, q);
    let own = text::line_at(b, q);
    parse::lemma_marker(own);
    if q > 0 {
        assert(t[q - 1] == b[q - 1]);
    }
    assert forall|j: int| q <= j < cursor implies #[trigger] t[j] != text::NEWLINE by {
        assert(t[j] == b[j]);
    }
    text::lemma_line_end_unique(t, q, cursor);
    text::lemma_line_start_unique(t, q, cursor);
    text::lemma_line_start_unique(b, q, cursor);
    let cut_line = t.subrange(q, cursor);
    let m = parse::marker_of(own)->0;
    assert forall|j: int| 0 <= j < m.width implies #[trigger] own[j] == cut_line[j] by {
        assert(t[q + j] == b[q + j]);
    }
    lemma_marker_of_head(own, cut_line);
}

/// The list around the new item.
proof fn lemma_span_around(
    t: Seq<u8>,
    b: Seq<u8>,
    info: ListInfo,
    cursor: int,
    i: int,
    x: int,
    line: Seq<u8>,
    at: int,
)
    requires
        grown(t, b, info, cursor, i, x, line),
        cursor + 1 <= at <= cursor + 1 + line.len(),
    ensures
        parse::list_at(t, at) == Some(
            (parse::ListSpan {
                start: info.start as int,
                end: x,
                indent: encode_utf8(info.indent@),
                kind: info.kind,
            }),
        ),
{
    let ind = encode_utf8(info.indent@);
    let kind = info.kind;
    let q = info.items@[i].start as int;
    let me = info.items@[i].line_end as int;
    let nl = cursor + 1;
    let le = (nl + line.len()) as int;
    lemma_cut_item(t, b, info, cursor, i, x, line);
    assert(parse::anchor_of(b, q) == Some(q));
    assert(parse::list_top(b, q, q, true, ind, kind) == info.start);
    assert(parse::past_line(b, parse::list_bottom(b, me, ind, kind), b.len() as int) == info.end);
    lemma_top_same(t, b, q, q, true, ind, kind);
    assert(t.subrange(q, nl - 1) == text::line_at(t, q));
    assert(parse::list_top(t, nl, nl, true, ind, kind) == info.start);
    text::lemma_line_end(t, nl);
    text::lemma_line_end(b, q);
    assert(parse::past_line(t, parse::list_bottom(t, le, ind, kind), t.len() as int) == x) by {
        reveal_with_fuel(pairs, 2);
        parse::lemma_marker(line);
        if le < x {
            lemma_bottom_pairs(t, le + 1, x, b, me + 1, info.end as int, ind, kind);
        } else {
            assert(parse::list_bottom(t, le, ind, kind) == le);
        }
    }
    assert forall|j: int| nl <= j < at implies #[trigger] t[j] != text::NEWLINE by {}
    text::lemma_line_start_unique(t, nl, at);
    assert(parse::anchor_of(t, nl) == Some(nl));
}

/// The items of the list around the new item.
proof fn lemma_items_around(
    t: Seq<u8>,
    b: Seq<u8>,
    info: ListInfo,
    cursor: int,
    i: int,
    x: int,
    line: Seq<u8>,
)
    requires
        grown(t, b, info, cursor, i, x, line),
    ensures
        ({
            let ind = encode_utf8(info.indent@);
            let nl = cursor + 1;
            let found = parse::items_from(t, info.start as int, x, ind, info.kind);
            &&& found is Some
            &&& found->0.len() == info.items@.len() + 1
            &&& found->0[i] == parse::item_at(t, info.items@[i].start as int, x, ind, info.kind)
            &&& found->0[i + 1] == parse::item_at(t, nl, x, ind, info.kind)
        }),
{
    let ind = encode_utf8(info.indent@);
    let kind = info.kind;
    let start = info.start as int;
    let end = info.end as int;
    let q = info.items@[i].start as int;
    let nl = cursor + 1;
    lemma_cut_item(t, b, info, cursor, i, x, line);
    edit::lemma_items_in_list(b, info, i);
    assert(parse::item_wf(b, info.items@[0]));
    assert(parse::item_wf(b, info.items@[i]));
    assert(parse::item_wf(b, info.items@[info.items@.len() - 1]));
    lemma_items_split(b, start, end, ind, kind, i);
    let own_on = parse::items_from(b, q, end, ind, kind)->0;
    assert(parse::items_from(t, x, x, ind, kind) == Some(Seq::<ListItemInfo>::empty()));
    assert(parse::items_from(b, end, end, ind, kind) == Some(Seq::<ListItemInfo>::empty()));
    parse::lemma_marker(line);
    lemma_count_pairs(t, nl, x, x, b, q, end, end, ind, kind);
    let from_new = parse::items_from(t, nl, x, ind, kind)->0;
    assert(from_new.len() == own_on.len());
    assert(parse::past_line(t, cursor, x) == nl);
    assert(parse::item_end(t, nl, x, ind, kind) == nl);
    let it = parse::item_at(t, q, x, ind, kind);
    assert(parse::items_from(t, q, x, ind, kind) == Some(seq![it] + from_new));
    assert(from_new[0] == parse::item_at(t, nl, x, ind, kind));
    lemma_prefix_pairs(t, b, start, q, ind, kind);
    if start < q {
        toggle::lemma_items_are(b, start, end, ind, kind, 0);
        lemma_first_line(t, b, start, q, ind, kind);
    }
    lemma_count_pairs(t, start, q, x, b, start, q, end, ind, kind);
    let found = parse::items_from(t, start, x, ind, kind)->0;
    assert(info.items@.len() - own_on.len() == i);
    assert(found.skip(i) == seq![it] + from_new);
    assert(found[i] == found.skip(i)[0]);
    assert(found[i + 1] == found.skip(i)[1]);
}

/// What two texts share goes together.
proof fn lemma_prefix_pairs(
    t: Seq<u8>,
    b: Seq<u8>,
    start: int,
    q: int,
    indent: Seq<u8>,
    kind: MarkerKind,
)
    requires
        0 <= start <= q <= b.len(),
        q <= t.len(),
        text::at_line_start(b, start),
        text::at_line_start(b, q),
        forall|j: int| 0 <= j < q ==> #[trigger] t[j] == b[j],
    ensures
        pairs(t, start, q, b, start, q, indent, kind),
        text::at_line_start(t, start),
{
    if start > 0 {
        assert(t[start - 1] == b[start - 1]);
    }
    if q > 0 {
        assert(t[q - 1] == b[q - 1]);
    }
    assert(pairs(t, q, q, b, q, q, indent, kind)) by {
        reveal(pairs);
    }
    assert forall|j: int| 0 <= j < q - start implies #[trigger] t[start + j] == b[start + j] by {}
    lemma_same_lines(t, start, q, b, start, q, q - start, indent, kind);
}

/// The list around the new item, and its items.
proof fn lemma_around(
    t: Seq<u8>,
    b: Seq<u8>,
    info: ListInfo,
    cursor: int,
    i: int,
    x: int,
    line: Seq<u8>,
)
    requires
        grown(t, b, info, cursor, i, x, line),
    ensures
        ({
            let ind = encode_utf8(info.indent@);
            let nl = cursor + 1;
            let found = parse::items_from(t, info.start as int, x, ind, info.kind);
            &&& parse::list_at(t, nl) is Some
            &&& forall|at: int|
                nl <= at <= nl + line.len() ==> #[trigger] parse::list_at(t, at) == Some(
                    (parse::ListSpan {
                        start: info.start as int,
                        end: x,
                        indent: ind,
                        kind: info.kind,
                    }),
                )
            &&& found is Some
            &&& found->0.len() == info.items@.len() + 1
            &&& found->0[i].start == info.items@[i].start
            &&& found->0[i].number == info.items@[i].number
            &&& found->0[i].line_end == cursor
            &&& found->0[i + 1] == parse::item_at(t, nl, x, ind, info.kind)
        }),
{
    lemma_cut_item(t, b, info, cursor, i, x, line);
    lemma_items_around(t, b, info, cursor, i, x, line);
    assert forall|at: int| cursor + 1 <= at <= cursor + 1 + line.len() implies #[trigger] parse::list_at(
        t,
        at,
    ) == Some(
        (parse::ListSpan {
            start: info.start as int,
            end: x,
            indent: encode_utf8(info.indent@),
            kind: info.kind,
        }),
    ) by {
        lemma_span_around(t, b, info, cursor, i, x, line, at);
    }
}

/// The first line of a stretch that two texts share is one line of both.
proof fn lemma_first_line(
    t: Seq<u8>,
    b: Seq<u8>,
    start: int,
    q: int,
    indent: Seq<u8>,
    kind: MarkerKind,
)
    requires
        0 <= start < q <= b.len(),
        q <= t.len(),
        b[q - 1] == text::NEWLINE,
        forall|j: int| 0 <= j < q ==> #[trigger] t[j] == b[j],
    ensures
        text::line_at(t, start) == text::line_at(b, start),
{
    text::lemma_line_end(b, start);
    let e = text::line_end(b, start);
    assert(e < q);
    assert forall|j: int| start <= j < e implies #[trigger] t[j] != text::NEWLINE by {
        assert(t[j] == b[j]);
    }
    assert(t[e] == b[e]);
    text::lemma_line_end_unique(t, start, e);
    assert(text::line_at(t, start) =~= text::line_at(b, start));
}

/// The items of a list from its item `i` on are those behind the first `i`.
proof fn lemma_items_split(
    b: Seq<u8>,
    q: int,
    end: int,
    indent: Seq<u8>,
    kind: MarkerKind,
    i: int,
)
    requires
        0 <= q <= b.len(),
        b.len() <= usize::MAX,
        parse::at_edge(b, q),
        end <= b.len(),
        parse::at_edge(b, end),
        parse::items_from(b, q, end, indent, kind) is Some,
        0 <= i < (parse::items_from(b, q, end, indent, kind)->0).len(),
    ensures
        ({
            let all = parse::items_from(b, q, end, indent, kind)->0;
            let from = parse::items_from(b, all[i].start as int, end, indent, kind);
            from is Some && from->0.len() == all.len() - i
        }),
    decreases end - q,
{
    let e = text::line_end(b, q);
    text::lemma_line_end(b, q);
    let from = parse::past_line(b, e, end);
    if e >= end && end < b.len() {
        assert(b[end - 1] == text::NEWLINE);
    }
    let next = parse::item_end(b, from, end, indent, kind);
    parse::lemma_item_end(b, from, end, indent, kind);
    if i > 0 {
        lemma_items_split(b, next, end, indent, kind, i - 1);
    }
}

/// A list that is continued from the line of an item's marker, at `cursor`, and found
/// again around the cursor has one item more than before. The item that holds the cursor
/// then is the new one, directly below the one that it was split from: a task that is not
/// done where that was a task, done or not, and otherwise none, unless what comes to stand
/// in it begins with a checkbox of its own. Its number is the next one. What stood before
/// the cursor stays, and what stood behind it in the item stands behind the cursor again.
pub proof fn law_continued_list_grows(b: Seq<u8>, info: ListInfo, cursor: int)
    requires
        valid_utf8(b),
        b.len() <= usize::MAX,
        0 <= cursor <= b.len(),
        is_char_boundary(b, cursor),
        parse::is_list_at(info, b, cursor),
        parse::item_index(info, cursor) matches Some(i) && {
            let item = info.items@[i];
            &&& item.marker_end <= cursor <= item.line_end
            &&& item.task is None ==> parse::checkbox(b.subrange(cursor, item.line_end as int))
                is None
        },
        ({
            let t = toggle::after(b, edit::continued(b, info, cursor)->0);
            t.len() <= usize::MAX
        }),
    ensures
        edit::continued(b, info, cursor) is Some,
        ({
            let e = edit::continued(b, info, cursor)->0;
            let t = toggle::after(b, e);
            let i = parse::item_index(info, cursor)->0;
            let item = info.items@[i];
            let span = parse::list_at(t, e.cursor);
            let found = parse::items_from(
                t,
                span->0.start,
                span->0.end,
                span->0.indent,
                span->0.kind,
            );
            let new = found->0[i + 1];
            &&& span is Some
            &&& span->0.start == info.start
            &&& span->0.kind == info.kind
            &&& span->0.indent == encode_utf8(info.indent@)
            &&& found is Some
            &&& found->0.len() == info.items@.len() + 1
            &&& new.start <= e.cursor <= new.line_end
            &&& new.content_start == e.cursor
            &&& new.task == (if item.task is Some {
                Some(false)
            } else {
                None
            })
            &&& new.number == (match item.number {
                Some(n) => Some(n.wrapping_add(1)),
                None => None,
            })
            &&& found->0[i].start == item.start
            &&& found->0[i].number == item.number
            &&& found->0[i].line_end == cursor
            &&& t.subrange(0, cursor) == b.subrange(0, cursor)
            &&& t[cursor] == text::NEWLINE
            &&& t.subrange(e.cursor, e.cursor + (item.end - cursor)) == b.subrange(
                cursor,
                item.end as int,
            )
        }),
{
    let i = parse::item_index(info, cursor)->0;
    let item = info.items@[i];
    let ind = encode_utf8(info.indent@);
    edit::lemma_item_index(info, cursor);
    assert(parse::item_wf(b, item));
    let n = edit::next_number(info.kind, item.number);
    lemma_continued_text(b, info, cursor, i, n);
    let t = toggle::after(b, edit::continued(b, info, cursor)->0);
    lemma_assembled(
        t,
        b.subrange(0, cursor),
        edit::marker_text(ind, info.kind, n),
        edit::new_checkbox(item.task),
        b.subrange(cursor, item.line_end as int),
        b.subrange(item.line_end as int, item.end as int),
        edit::renumbered(b, info.items@, i + 1, n.wrapping_add(1), ind, info.kind),
        b.skip(info.end as int),
    );
    assert(b.subrange(cursor, item.line_end as int) + b.subrange(
        item.line_end as int,
        item.end as int,
    ) =~= b.subrange(cursor, item.end as int));
    lemma_grown(t, b, info, cursor, i, n);
}

/// The text after a list was continued, and the number of the new item.
pub proof fn lemma_continued_text(b: Seq<u8>, info: ListInfo, cursor: int, i: int, n: u64)
    requires
        valid_utf8(b),
        b.len() <= usize::MAX,
        0 <= cursor <= b.len(),
        parse::is_list_at(info, b, cursor),
        parse::item_index(info, cursor) == Some(i),
        0 <= i < info.items@.len(),
        info.items@[i].marker_end <= cursor <= info.items@[i].line_end,
        n == edit::next_number(info.kind, info.items@[i].number),
    ensures
        edit::continued(b, info, cursor) is Some,
        ({
            let ind = encode_utf8(info.indent@);
            let item = info.items@[i];
            let e = edit::continued(b, info, cursor)->0;
            let head = edit::marker_text(ind, info.kind, n);
            let mark = edit::new_checkbox(item.task);
            let below = edit::renumbered(b, info.items@, i + 1, n.wrapping_add(1), ind, info.kind);
            &&& e.cursor == cursor + 1 + head.len() + mark.len()
            &&& toggle::after(b, e) == b.subrange(0, cursor) + seq![text::NEWLINE] + (head + mark)
                + (b.subrange(cursor, item.line_end as int) + b.subrange(
                item.line_end as int,
                item.end as int,
            )) + below + b.skip(info.end as int)
            &&& info.kind is Ordered ==> item.number is Some
            &&& info.kind is Bullet ==> item.number is None
        }),
{
    let ind = encode_utf8(info.indent@);
    let item = info.items@[i];
    edit::lemma_items_in_list(b, info, i);
    assert(parse::item_wf(b, item));
    toggle::lemma_items_are(b, info.start as int, info.end as int, ind, info.kind, i);
    parse::lemma_marker(text::line_at(b, item.start as int));
    let e = edit::continued(b, info, cursor)->0;
    let head = edit::marker_text(ind, info.kind, n);
    let mark = edit::new_checkbox(item.task);
    let below = edit::renumbered(b, info.items@, i + 1, n.wrapping_add(1), ind, info.kind);
    if info.kind is Bullet {
        lemma_bullets_stay(b, info, i + 1, n.wrapping_add(1));
        if i + 1 < info.items@.len() {
            assert(item.end == info.items@[i + 1].start);
        } else {
            assert(item.end == info.end);
        }
    }
    let mid = b.subrange(cursor, item.end as int);
    assert(b.subrange(cursor, item.line_end as int) + b.subrange(
        item.line_end as int,
        item.end as int,
    ) =~= mid);
    let put = seq![text::NEWLINE] + (head + mark) + mid + below;
    assert(e.inserted == put);
    assert(e.offset + e.removed.len() == info.end);
    assert(toggle::after(b, e) =~= b.subrange(0, cursor) + seq![text::NEWLINE] + (head + mark)
        + mid + below + b.skip(info.end as int));
}

} // verus!
