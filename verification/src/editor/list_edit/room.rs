//! How much room the offsets of list edits need.

use crate::editor::list_edit::edit;
use crate::editor::list_edit::parse;
use crate::editor::list_edit::parse::{ListInfo, MarkerKind};
use crate::text;
use vstd::prelude::*;
use vstd::utf8::*;

verus! {

/// The offsets of a text of `len` bytes, indented by `width` at a time, fit in a
/// `usize` with room to spare for markers and indents.
pub open spec fn roomy(len: nat, width: nat) -> bool {
    (len + 1) * (width + 32) <= usize::MAX
}

/// A marker is its indent and 22 bytes at most.
proof fn lemma_marker_len(indent: Seq<u8>, kind: MarkerKind, n: u64)
    ensures
        edit::marker_text(indent, kind, n).len() <= indent.len() + 22,
{
    assert(n < vstd::arithmetic::power::pow(10, 20)) by {
        reveal(vstd::arithmetic::power::pow);
        reveal_with_fuel(vstd::arithmetic::power::pow, 21);
    }
    text::lemma_decimal_len(n as nat, 20);
}

proof fn lemma_shift_room(b: Seq<u8>, p: int, end: int, width: nat, cursor: int)
    ensures
        p <= end ==> edit::indent_shift(b, p, end, width, cursor) <= width * (end - p),
        p > end ==> edit::indent_shift(b, p, end, width, cursor) == 0,
    decreases end - p,
{
    let next = edit::next_line(b, p, end);
    if p < next <= end {
        lemma_shift_room(b, next, end, width, cursor);
        assert(width + width * (end - next) <= width * (end - p)) by (nonlinear_arith)
            requires
                p < next <= end,
                width >= 0,
        ;
    } else if p <= end {
        assert(width * (end - p) >= 0) by (nonlinear_arith)
            requires
                p <= end,
                width >= 0,
        ;
    }
}

/// Where the cursor goes in a run whose items are numbered anew.
proof fn lemma_run_room(
    b: Seq<u8>,
    info: ListInfo,
    k: int,
    i: int,
    counter: u64,
    width: nat,
    cursor: int,
)
    requires
        info.wf(b),
        0 <= k <= i < info.items@.len(),
    ensures
        info.items@[k].start <= info.items@[i].start,
        edit::indented_run_cursor(b, info, k, i, counter, width, cursor) <= 23 * (
        info.items@[i].start - info.items@[k].start) + 23 + (info.items@[i].end
            - info.items@[i].start) + width + width * (info.items@[i].end - info.items@[i].start),
    decreases i - k,
{
    let item = info.items@[k];
    let indent = encode_utf8(info.indent@);
    assert(parse::item_wf(b, item));
    assert(item.marker_start == item.start + indent.len());
    if k < i {
        assert(parse::item_wf(b, info.items@[k + 1]));
        assert(info.items@[k].end == info.items@[k + 1].start);
        lemma_run_room(b, info, k + 1, i, counter.wrapping_add(1), width, cursor);
        lemma_marker_len(indent, info.kind, counter);
    } else {
        lemma_marker_len(indent + edit::spaces(width), info.kind, 1);
        let q = edit::next_line(b, item.marker_end as int, item.end as int);
        let at = item.marker_end + edit::offset_in_rest(item, cursor);
        lemma_shift_room(b, q, item.end as int, width, at);
        text::lemma_line_end(b, item.marker_end as int);
        assert(edit::indent_shift(b, q, item.end as int, width, at) <= width * (item.end
            - item.start)) by {
            assert(item.marker_end <= q);
            let w = width as int;
            let x = item.end - q;
            let y = item.end - item.start;
            if q <= item.end {
                assert(w * x <= w * y) by (nonlinear_arith)
                    requires
                        w >= 0,
                        x <= y,
                ;
            } else {
                assert(w * y >= 0) by (nonlinear_arith)
                    requires
                        w >= 0,
                        y >= 0,
                ;
            }
        }
    }
}

/// Where a text has room to spare, every list edit puts the cursor to an offset.
pub proof fn law_list_cursors_fit(b: Seq<u8>, info: ListInfo, cursor: int, width: nat)
    requires
        info.wf(b),
        0 <= cursor <= b.len(),
        roomy(b.len(), width),
    ensures
        edit::cursor_fits(edit::continued(b, info, cursor)),
        edit::cursor_fits(edit::exited(b, info, cursor)),
        edit::cursor_fits(edit::spaced_out(b, info, cursor)),
        edit::cursor_fits(edit::nested(b, info, cursor, width)),
{
    let len = b.len() as int;
    let w = width as int;
    assert((len + 1) * (w + 32) == w * (len + 1) + 32 * (len + 1)) by (nonlinear_arith);
    assert(w * (len + 1) >= 0) by (nonlinear_arith)
        requires
            w >= 0,
            len >= 0,
    ;
    match parse::item_index(info, cursor) {
        Some(i) => {
            edit::lemma_item_index(info, cursor);
            edit::lemma_items_in_list(b, info, i);
            let item = info.items@[i];
            assert(parse::item_wf(b, item));
            let indent = encode_utf8(info.indent@);
            lemma_marker_len(indent, info.kind, edit::next_number(info.kind, item.number));
            lemma_shift_room(b, item.start as int, item.end as int, width, cursor);
            let span = item.end - item.start;
            assert(w * span + w <= w * (len + 1)) by (nonlinear_arith)
                requires
                    w >= 0,
                    span <= len,
            ;
            lemma_run_room(b, info, 0, i, edit::first_number(info), width, cursor);
            assert(info.items@[0].start == info.start);
        },
        None => {},
    }
}

} // verus!
