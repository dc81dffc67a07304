//! List structure edits.
//!
//! Each function takes a list (as `find_list_at` returns it), the source text
//! and a cursor offset, and returns the edit to apply and the offset at which
//! the cursor then stands. Nothing is changed here.

use crate::document::history::EditDelta;
use crate::editor::list_edit::parse;
use crate::editor::list_edit::parse::{ContinueResult, ListInfo, ListItemInfo, MarkerKind};
use crate::text;
use vstd::prelude::*;
use vstd::string::*;
use vstd::utf8::*;

verus! {

broadcast use {vstd::utf8::encode_utf8_valid_utf8, vstd::utf8::encode_utf8_decode_utf8};

/// An edit over bytes: at `offset`, `removed` gives way to `inserted`, and the
/// cursor goes to `cursor`.
pub struct ListEdit {
    pub offset: int,
    pub removed: Seq<u8>,
    pub inserted: Seq<u8>,
    pub cursor: int,
}

/// `r` is the edit `e`.
pub open spec fn is_edit(r: ContinueResult, e: ListEdit) -> bool {
    &&& r.delta.offset == e.offset
    &&& encode_utf8(r.delta.removed@) == e.removed
    &&& encode_utf8(r.delta.inserted@) == e.inserted
    &&& r.cursor_byte == e.cursor
}

/// The result of a list operation, or its absence.
pub open spec fn is_edit_option(r: Option<ContinueResult>, e: Option<ListEdit>) -> bool {
    match (r, e) {
        (Some(x), Some(y)) => is_edit(x, y),
        (None, None) => true,
        _ => false,
    }
}

/// The offset to which an edit puts the cursor is an offset.
pub open spec fn cursor_fits(e: Option<ListEdit>) -> bool {
    e matches Some(x) ==> x.cursor <= usize::MAX
}

/// The text of a marker: indent, bullet or number and delimiter, space.
pub open spec fn marker_text(indent: Seq<u8>, kind: MarkerKind, number: u64) -> Seq<u8> {
    match kind {
        MarkerKind::Bullet(c) => indent + seq![c as u8, text::SPACE],
        MarkerKind::Ordered(c) => indent + text::decimal(number as nat) + seq![c as u8, text::SPACE],
    }
}

/// Appends the text of a marker to `out`.
fn append_marker(out: &mut String, indent: &str, kind: MarkerKind, number: u64)
    requires
        parse::kind_wf(kind),
    ensures
        encode_utf8(final(out)@) == encode_utf8(old(out)@) + marker_text(
            indent.spec_bytes(),
            kind,
            number,
        ),
{
    let ghost o = encode_utf8(out@);
    text::append_text(out, indent);
    let c: char = match kind {
        MarkerKind::Bullet(c) => c,
        MarkerKind::Ordered(c) => {
            text::append_number(out, number);
            c
        },
    };
    text::append_ascii(out, c);
    text::append_ascii(out, ' ');
    assert(encode_utf8(out@) =~= o + marker_text(indent.spec_bytes(), kind, number));
}

/// The items from index `k` on, numbered from `n` up, each with its text
/// behind the marker as it was.
pub open spec fn renumbered(
    b: Seq<u8>,
    items: Seq<ListItemInfo>,
    k: int,
    n: u64,
    indent: Seq<u8>,
    kind: MarkerKind,
) -> Seq<u8>
    decreases items.len() - k,
{
    if 0 <= k < items.len() {
        marker_text(indent, kind, n) + b.subrange(items[k].marker_end as int, items[k].end as int)
            + renumbered(b, items, k + 1, n.wrapping_add(1), indent, kind)
    } else {
        Seq::empty()
    }
}

/// Appends the items from index `from` on to `out`, numbered from `first` up.
fn append_renumbered(out: &mut String, info: &ListInfo, source: &str, from: usize, first: u64)
    requires
        info.wf(source.spec_bytes()),
        from <= info.items@.len(),
    ensures
        encode_utf8(final(out)@) == encode_utf8(old(out)@) + renumbered(
            source.spec_bytes(),
            info.items@,
            from as int,
            first,
            encode_utf8(info.indent@),
            info.kind,
        ),
{
    let ghost b = source.spec_bytes();
    let ghost ind = encode_utf8(info.indent@);
    let ghost all = encode_utf8(out@) + renumbered(b, info.items@, from as int, first, ind, info.kind);
    let mut k: usize = from;
    let mut n: u64 = first;
    while k < info.items.len()
        invariant
            info.wf(source.spec_bytes()),
            b == source.spec_bytes(),
            ind == encode_utf8(info.indent@),
            k <= info.items@.len(),
            encode_utf8(out@) + renumbered(b, info.items@, k as int, n, ind, info.kind) == all,
        decreases info.items@.len() - k,
    {
        let ghost o = encode_utf8(out@);
        assert(parse::item_wf(b, info.items@[k as int]));
        append_marker(out, info.indent.as_str(), info.kind, n);
        text::append_slice(out, source, info.items[k].marker_end, info.items[k].end);
        proof {
            let item = info.items@[k as int];
            let head = marker_text(ind, info.kind, n) + b.subrange(
                item.marker_end as int,
                item.end as int,
            );
            let rest = renumbered(b, info.items@, k + 1, n.wrapping_add(1), ind, info.kind);
            assert(encode_utf8(out@) =~= o + head);
            assert(o + (head + rest) =~= (o + head) + rest);
        }
        k += 1;
        n = n.wrapping_add(1);
    }
    assert(encode_utf8(out@) + Seq::<u8>::empty() =~= encode_utf8(out@));
}

/// The number of an item that follows `number`.
pub open spec fn next_number(kind: MarkerKind, number: Option<u64>) -> u64 {
    match kind {
        MarkerKind::Ordered(_) => match number {
            Some(n) => n.wrapping_add(1),
            None => 1,
        },
        MarkerKind::Bullet(_) => 0,
    }
}

/// The checkbox of a new item below one with or without a checkbox.
pub open spec fn new_checkbox(task: Option<bool>) -> Seq<u8> {
    if task is Some {
        seq![91u8, text::SPACE, 93u8, text::SPACE]
    } else {
        Seq::empty()
    }
}

/// Where the item's text ends, before its final line feed.
pub open spec fn content_end(b: Seq<u8>, item: ListItemInfo) -> int {
    if b[item.end - 1] == text::NEWLINE {
        item.end - 1
    } else {
        item.end as int
    }
}

/// The edit that splits the item at `cursor` and gives the second part a
/// marker of its own: from the marker line behind the marker, or from the very
/// end of the item. The items below are numbered on.
pub open spec fn continued(b: Seq<u8>, info: ListInfo, cursor: int) -> Option<ListEdit> {
    match parse::item_index(info, cursor) {
        Some(i) => {
            let item = info.items@[i];
            if cursor < item.marker_end || (cursor > item.line_end && cursor != content_end(b, item)) {
                None
            } else {
                let indent = encode_utf8(info.indent@);
                let n = next_number(info.kind, item.number);
                let prefix = marker_text(indent, info.kind, n) + new_checkbox(item.task);
                let below = match info.kind {
                    MarkerKind::Ordered(_) => renumbered(
                        b,
                        info.items@,
                        i + 1,
                        n.wrapping_add(1),
                        indent,
                        info.kind,
                    ),
                    MarkerKind::Bullet(_) => b.subrange(item.end as int, info.end as int),
                };
                Some(
                    ListEdit {
                        offset: cursor,
                        removed: b.subrange(cursor, info.end as int),
                        inserted: seq![text::NEWLINE] + prefix + b.subrange(cursor, item.end as int)
                            + below,
                        cursor: cursor + 1 + prefix.len(),
                    },
                )
            }
        },
        None => None,
    }
}

/// Every item of a list lies between the list's ends.
pub proof fn lemma_items_in_list(b: Seq<u8>, info: ListInfo, i: int)
    requires
        info.wf(b),
        0 <= i < info.items@.len(),
    ensures
        info.start <= info.items@[i].start,
        info.items@[i].end <= info.end,
        info.end <= b.len(),
        is_char_boundary(b, info.start as int),
        is_char_boundary(b, info.end as int),
{
    lemma_items_up(b, info, i);
    lemma_items_down(b, info, i);
    assert(parse::item_wf(b, info.items@[0]));
    assert(parse::item_wf(b, info.items@[info.items@.len() - 1]));
}

proof fn lemma_items_up(b: Seq<u8>, info: ListInfo, i: int)
    requires
        info.wf(b),
        0 <= i < info.items@.len(),
    ensures
        info.start <= info.items@[i].start,
    decreases i,
{
    assert(parse::item_wf(b, info.items@[i]));
    if i > 0 {
        lemma_items_up(b, info, i - 1);
        assert(parse::item_wf(b, info.items@[i - 1]));
        assert(info.items@[i - 1].end == info.items@[i].start);
    }
}

proof fn lemma_items_down(b: Seq<u8>, info: ListInfo, i: int)
    requires
        info.wf(b),
        0 <= i < info.items@.len(),
    ensures
        info.items@[i].end <= info.end,
    decreases info.items@.len() - i,
{
    assert(parse::item_wf(b, info.items@[i]));
    if i + 1 < info.items@.len() {
        lemma_items_down(b, info, i + 1);
        assert(parse::item_wf(b, info.items@[i + 1]));
        assert(info.items@[i].end == info.items@[i + 1].start);
    }
}

/// The item that an offset resolves to holds it, or the offset is the list's
/// end and the item the last one.
pub proof fn lemma_item_index(info: ListInfo, cursor: int)
    ensures
        parse::item_index(info, cursor) matches Some(i) ==> 0 <= i < info.items@.len() && ({
            ||| info.items@[i].start <= cursor < info.items@[i].end
            ||| cursor == info.end && i == info.items@.len() - 1
        }),
{
    lemma_item_holding(info.items@, cursor, 0);
}

proof fn lemma_item_holding(items: Seq<ListItemInfo>, cursor: int, i: int)
    requires
        0 <= i,
    ensures
        parse::item_holding(items, cursor, i) matches Some(k) ==> i <= k < items.len()
            && items[k].start <= cursor < items[k].end,
    decreases items.len() - i,
{
    if i < items.len() {
        lemma_item_holding(items, cursor, i + 1);
    }
}

/// Continues the list at `cursor_byte` with a new item. The rest of the
/// current item goes to the new one; the items below an ordered one are
/// numbered on.
///
/// `None` if `cursor_byte` is in no item, in front of or inside a marker, or on
/// a continuation line other than at the item's very end.
pub fn continue_item(info: &ListInfo, source: &str, cursor_byte: usize) -> (r: Option<
    ContinueResult,
>)
    requires
        info.wf(source.spec_bytes()),
        continued(source.spec_bytes(), *info, cursor_byte as int) is Some ==> is_char_boundary(
            source.spec_bytes(),
            cursor_byte as int,
        ),
        cursor_fits(continued(source.spec_bytes(), *info, cursor_byte as int)),
    ensures
        is_edit_option(r, continued(source.spec_bytes(), *info, cursor_byte as int)),
{
    let ghost b = source.spec_bytes();
    let item_idx: usize = match parse::cursor_item_idx(info, cursor_byte) {
        Some(i) => i,
        None => {
            return None;
        },
    };
    let item = &info.items[item_idx];
    proof {
        assert(info.items.len() == info.items@.len());
        assert(parse::item_wf(b, *item));
        lemma_items_in_list(b, *info, item_idx as int);
        lemma_item_index(*info, cursor_byte as int);
    }
    if cursor_byte < item.marker_end {
        return None;
    }
    if cursor_byte > item.line_end {
        let end_of_content: usize = if source.as_bytes()[item.end - 1] == text::NEWLINE {
            item.end - 1
        } else {
            item.end
        };
        if cursor_byte != end_of_content {
            return None;
        }
    }
    let new_number: u64 = match info.kind {
        MarkerKind::Ordered(_) => match item.number {
            Some(n) => n.wrapping_add(1),
            None => 1,
        },
        MarkerKind::Bullet(_) => 0,
    };
    let mut new_prefix: String = String::new();
    append_marker(&mut new_prefix, info.indent.as_str(), info.kind, new_number);
    if item.task.is_some() {
        text::append_ascii(&mut new_prefix, '[');
        text::append_ascii(&mut new_prefix, ' ');
        text::append_ascii(&mut new_prefix, ']');
        text::append_ascii(&mut new_prefix, ' ');
    }
    let ghost prefix = marker_text(encode_utf8(info.indent@), info.kind, new_number)
        + new_checkbox(item.task);
    assert(encode_utf8(new_prefix@) =~= prefix);
    let mut inserted: String = String::new();
    text::append_ascii(&mut inserted, '\n');
    text::append_text(&mut inserted, new_prefix.as_str());
    text::append_slice(&mut inserted, source, cursor_byte, item.end);
    let ghost head = encode_utf8(inserted@);
    assert(head =~= seq![text::NEWLINE] + prefix + b.subrange(cursor_byte as int, item.end as int));
    match info.kind {
        MarkerKind::Ordered(_) => {
            append_renumbered(
                &mut inserted,
                info,
                source,
                item_idx + 1,
                new_number.wrapping_add(1),
            );
        },
        MarkerKind::Bullet(_) => {
            text::append_slice(&mut inserted, source, item.end, info.end);
        },
    }
    let removed: String = text::slice(source, cursor_byte, info.end).to_owned();
    let cursor_target: usize = cursor_byte + 1 + text::byte_len(new_prefix.as_str());
    Some(
        ContinueResult {
            delta: EditDelta { offset: cursor_byte, removed, inserted },
            cursor_byte: cursor_target,
        },
    )
}


/// The line above the line start `p` is blank, or there is none.
pub open spec fn blank_above(b: Seq<u8>, p: int) -> bool {
    p == 0 || (0 < p <= b.len() && b[p - 1] == text::NEWLINE && text::blank(
        b.subrange(text::line_start(b, p - 1), p - 1),
    ))
}

/// True iff the line directly above `item_start` is whitespace only, or
/// `item_start` is 0: with no line above, an empty item is left at once.
pub fn is_blank_line_above(source: &str, item_start: usize) -> (r: bool)
    ensures
        r == blank_above(source.spec_bytes(), item_start as int),
{
    if item_start == 0 {
        return true;
    }
    let bytes = source.as_bytes();
    if item_start > bytes.len() || bytes[item_start - 1] != text::NEWLINE {
        return false;
    }
    let prev: usize = text::line_start_byte(bytes, item_start - 1);
    text::is_blank(text::line_slice(source, prev, item_start - 1))
}

/// The item holds nothing but whitespace behind its marker and checkbox.
pub open spec fn empty_item(b: Seq<u8>, item: ListItemInfo) -> bool {
    text::blank(b.subrange(item.content_start as int, item.end as int))
}

/// The edit that takes the empty item at `cursor` out and breaks the list
/// there. A blank line above it is kept as the gap, else a line feed becomes
/// the gap; ordered items below are numbered from 1.
pub open spec fn exited(b: Seq<u8>, info: ListInfo, cursor: int) -> Option<ListEdit> {
    match parse::item_index(info, cursor) {
        Some(i) => {
            let item = info.items@[i];
            let above = blank_above(b, item.start as int);
            let gap = if above {
                Seq::empty()
            } else {
                seq![text::NEWLINE]
            };
            if !empty_item(b, item) {
                None
            } else if i + 1 == info.items@.len() {
                Some(
                    ListEdit {
                        offset: item.start as int,
                        removed: b.subrange(item.start as int, item.end as int),
                        inserted: gap,
                        cursor: item.start + gap.len(),
                    },
                )
            } else {
                let below = match info.kind {
                    MarkerKind::Ordered(_) => renumbered(
                        b,
                        info.items@,
                        i + 1,
                        1,
                        encode_utf8(info.indent@),
                        info.kind,
                    ),
                    MarkerKind::Bullet(_) => b.subrange(item.end as int, info.end as int),
                };
                Some(
                    ListEdit {
                        offset: item.start as int,
                        removed: b.subrange(item.start as int, info.end as int),
                        inserted: gap + below,
                        cursor: if above && item.start > 0 {
                            item.start - 1
                        } else {
                            item.start as int
                        },
                    },
                )
            }
        },
        None => None,
    }
}

/// Breaks the list at the cursor's empty item: the last step of the triple
/// Enter that leaves a list (`continue_item`, `space_out_empty_item`,
/// `exit_list`). `None` if the cursor is in no item or the item is not empty.
pub fn exit_list(info: &ListInfo, source: &str, cursor_byte: usize) -> (r: Option<ContinueResult>)
    requires
        info.wf(source.spec_bytes()),
        cursor_fits(exited(source.spec_bytes(), *info, cursor_byte as int)),
    ensures
        is_edit_option(r, exited(source.spec_bytes(), *info, cursor_byte as int)),
{
    let ghost b = source.spec_bytes();
    let item_idx: usize = match parse::cursor_item_idx(info, cursor_byte) {
        Some(i) => i,
        None => {
            return None;
        },
    };
    let item = &info.items[item_idx];
    proof {
        assert(info.items.len() == info.items@.len());
        assert(parse::item_wf(b, *item));
        lemma_items_in_list(b, *info, item_idx as int);
    }
    if !item.content_is_empty(source) {
        return None;
    }
    let above: bool = is_blank_line_above(source, item.start);
    let mut inserted: String = String::new();
    if !above {
        text::append_ascii(&mut inserted, '\n');
    }
    let ghost gap = if above {
        Seq::empty()
    } else {
        seq![text::NEWLINE]
    };
    assert(encode_utf8(inserted@) =~= gap);
    if item_idx + 1 == info.items.len() {
        let removed: String = text::slice(source, item.start, item.end).to_owned();
        let cursor_target: usize = if above {
            item.start
        } else {
            item.start + 1
        };
        return Some(
            ContinueResult {
                delta: EditDelta { offset: item.start, removed, inserted },
                cursor_byte: cursor_target,
            },
        );
    }
    match info.kind {
        MarkerKind::Ordered(_) => {
            append_renumbered(&mut inserted, info, source, item_idx + 1, 1);
        },
        MarkerKind::Bullet(_) => {
            text::append_slice(&mut inserted, source, item.end, info.end);
        },
    }
    let removed: String = text::slice(source, item.start, info.end).to_owned();
    let cursor_target: usize = if above && item.start > 0 {
        item.start - 1
    } else {
        item.start
    };
    Some(
        ContinueResult {
            delta: EditDelta { offset: item.start, removed, inserted },
            cursor_byte: cursor_target,
        },
    )
}

/// The edit that puts a blank line above the empty item at `cursor`, which
/// moves down with it.
pub open spec fn spaced_out(b: Seq<u8>, info: ListInfo, cursor: int) -> Option<ListEdit> {
    match parse::item_index(info, cursor) {
        Some(i) => if empty_item(b, info.items@[i]) {
            Some(
                ListEdit {
                    offset: info.items@[i].start as int,
                    removed: Seq::empty(),
                    inserted: seq![text::NEWLINE],
                    cursor: cursor + 1,
                },
            )
        } else {
            None
        },
        None => None,
    }
}

/// Widens the gap above an empty item by one blank line and keeps the item, and
/// the cursor on it. `None` if the cursor is in no item or the item is not
/// empty.
pub fn space_out_empty_item(info: &ListInfo, source: &str, cursor_byte: usize) -> (r: Option<
    ContinueResult,
>)
    requires
        info.wf(source.spec_bytes()),
        cursor_fits(spaced_out(source.spec_bytes(), *info, cursor_byte as int)),
    ensures
        is_edit_option(r, spaced_out(source.spec_bytes(), *info, cursor_byte as int)),
{
    let ghost b = source.spec_bytes();
    let item_idx: usize = match parse::cursor_item_idx(info, cursor_byte) {
        Some(i) => i,
        None => {
            return None;
        },
    };
    let item = &info.items[item_idx];
    proof {
        assert(parse::item_wf(b, *item));
    }
    if !item.content_is_empty(source) {
        return None;
    }
    let mut inserted: String = String::new();
    text::append_ascii(&mut inserted, '\n');
    assert(encode_utf8(inserted@) =~= seq![text::NEWLINE]);
    Some(
        ContinueResult {
            delta: EditDelta { offset: item.start, removed: String::new(), inserted },
            cursor_byte: cursor_byte + 1,
        },
    )
}

/// The edit that flips the checkbox of the task item at `cursor`.
pub open spec fn toggled(b: Seq<u8>, info: ListInfo, cursor: int) -> Option<ListEdit> {
    match parse::item_index(info, cursor) {
        Some(i) => match (info.items@[i].task, info.items@[i].task_box) {
            (Some(checked), Some(k)) => Some(
                ListEdit {
                    offset: k + 1,
                    removed: seq![b[k + 1]],
                    inserted: seq![
                        if checked {
                            text::SPACE
                        } else {
                            120u8
                        },
                    ],
                    cursor,
                },
            ),
            _ => None,
        },
        None => None,
    }
}

/// Flips the checkbox of the item at `cursor_byte`; the cursor stays. `None` if
/// the cursor is on no task item.
pub fn toggle_checkbox(info: &ListInfo, source: &str, cursor_byte: usize) -> (r: Option<
    ContinueResult,
>)
    requires
        info.wf(source.spec_bytes()),
    ensures
        is_edit_option(r, toggled(source.spec_bytes(), *info, cursor_byte as int)),
{
    let ghost b = source.spec_bytes();
    let item_idx: usize = match parse::cursor_item_idx(info, cursor_byte) {
        Some(i) => i,
        None => {
            return None;
        },
    };
    let item = &info.items[item_idx];
    proof {
        assert(parse::item_wf(b, *item));
    }
    let (checked, box_off) = match (item.task, item.task_box) {
        (Some(c), Some(k)) => (c, k),
        _ => {
            return None;
        },
    };
    let mut inserted: String = String::new();
    text::append_ascii(
        &mut inserted,
        if checked {
            ' '
        } else {
            'x'
        },
    );
    proof {
        assert(encode_utf8(Seq::<char>::empty()) =~= Seq::<u8>::empty());
        text::lemma_boundary(b, box_off + 1);
        text::lemma_boundary(b, box_off + 2);
        assert(b.subrange(box_off + 1, box_off + 2) =~= seq![b[box_off + 1]]);
    }
    let removed: String = text::slice(source, box_off + 1, box_off + 2).to_owned();
    Some(
        ContinueResult {
            delta: EditDelta { offset: box_off + 1, removed, inserted },
            cursor_byte,
        },
    )
}

/// `width` spaces.
pub open spec fn spaces(width: nat) -> Seq<u8> {
    Seq::new(width, |i: int| text::SPACE)
}

/// Appends `width` spaces to `out`.
fn append_spaces(out: &mut String, width: usize)
    ensures
        encode_utf8(final(out)@) == encode_utf8(old(out)@) + spaces(width as nat),
{
    let ghost o = encode_utf8(out@);
    let mut i: usize = 0;
    assert(o + spaces(0) =~= o);
    while i < width
        invariant
            i <= width,
            encode_utf8(out@) == o + spaces(i as nat),
        decreases width - i,
    {
        text::append_ascii(out, ' ');
        i += 1;
        assert(encode_utf8(out@) =~= o + spaces(i as nat));
    }
}

/// The start of the line below the line that begins at `p`, or `end`.
pub open spec fn next_line(b: Seq<u8>, p: int, end: int) -> int {
    parse::past_line(b, text::line_end(b, p), end)
}

/// The lines of `p..end` with `width` spaces in front of each line that is not
/// blank.
pub open spec fn indented_lines(b: Seq<u8>, p: int, end: int, width: nat) -> Seq<u8>
    decreases end - p,
{
    let next = next_line(b, p, end);
    if p < next <= end {
        let line = b.subrange(p, next);
        (if text::blank(line) {
            line
        } else {
            spaces(width) + line
        }) + indented_lines(b, next, end, width)
    } else {
        Seq::empty()
    }
}

/// By how much `indented_lines` moves the text at offset `cursor`: the spaces
/// that it puts at or before that offset.
pub open spec fn indent_shift(b: Seq<u8>, p: int, end: int, width: nat, cursor: int) -> int
    decreases end - p,
{
    let next = next_line(b, p, end);
    if p < next <= end {
        (if !text::blank(b.subrange(p, next)) && p <= cursor {
            width as int
        } else {
            0
        }) + indent_shift(b, next, end, width, cursor)
    } else {
        0
    }
}

/// The line below begins past the line, at an edge, and not past the end.
pub proof fn lemma_next_line(b: Seq<u8>, p: int, end: int)
    requires
        0 <= p < end <= b.len(),
        parse::at_edge(b, end),
    ensures
        p < next_line(b, p, end) <= end,
        parse::at_edge(b, next_line(b, p, end)),
{
    text::lemma_line_end(b, p);
    let e = text::line_end(b, p);
    if e >= end && end < b.len() {
        assert(b[end - 1] == text::NEWLINE);
    }
}

proof fn lemma_indent_shift_nonneg(b: Seq<u8>, p: int, end: int, width: nat, cursor: int)
    ensures
        indent_shift(b, p, end, width, cursor) >= 0,
    decreases end - p,
{
    let next = next_line(b, p, end);
    if p < next <= end {
        lemma_indent_shift_nonneg(b, next, end, width, cursor);
    }
}

/// Appends the lines of `from..end` to `out`, with `width` spaces in front of
/// each line that is not blank, and returns by how much the text at `cursor`
/// moved.
fn append_indented(out: &mut String, source: &str, from: usize, end: usize, width: usize, cursor: usize) -> (shift:
    usize)
    requires
        from <= end <= source.spec_bytes().len(),
        from == end || is_char_boundary(source.spec_bytes(), from as int),
        parse::at_edge(source.spec_bytes(), end as int),
        indent_shift(source.spec_bytes(), from as int, end as int, width as nat, cursor as int)
            <= usize::MAX,
    ensures
        encode_utf8(final(out)@) == encode_utf8(old(out)@) + indented_lines(
            source.spec_bytes(),
            from as int,
            end as int,
            width as nat,
        ),
        shift == indent_shift(
            source.spec_bytes(),
            from as int,
            end as int,
            width as nat,
            cursor as int,
        ),
{
    let bytes = source.as_bytes();
    let ghost b = source.spec_bytes();
    let ghost all = encode_utf8(out@) + indented_lines(b, from as int, end as int, width as nat);
    let ghost total = indent_shift(b, from as int, end as int, width as nat, cursor as int);
    let mut shift: usize = 0;
    let mut pos: usize = from;
    while pos < end
        invariant
            b == source.spec_bytes(),
            b == bytes@,
            pos <= end <= b.len(),
            pos == end || is_char_boundary(b, pos as int),
            parse::at_edge(b, end as int),
            encode_utf8(out@) + indented_lines(b, pos as int, end as int, width as nat) == all,
            shift + indent_shift(b, pos as int, end as int, width as nat, cursor as int) == total,
            total <= usize::MAX,
        decreases end - pos,
    {
        let ghost o = encode_utf8(out@);
        let stop: usize = text::line_end_byte(bytes, pos);
        proof {
            lemma_next_line(b, pos as int, end as int);
        }
        let next: usize = if stop < end {
            stop + 1
        } else {
            stop
        };
        proof {
            assert(next == next_line(b, pos as int, end as int));
            text::lemma_boundary(b, next as int);
            lemma_indent_shift_nonneg(b, next as int, end as int, width as nat, cursor as int);
        }
        let line = text::slice(source, pos, next);
        if !text::is_blank(line) {
            append_spaces(out, width);
            if cursor >= pos {
                shift = shift + width;
            }
        }
        text::append_text(out, line);
        proof {
            let rest = indented_lines(b, next as int, end as int, width as nat);
            let l = b.subrange(pos as int, next as int);
            let head = if text::blank(l) {
                l
            } else {
                spaces(width as nat) + l
            };
            assert(encode_utf8(out@) =~= o + head);
            assert(o + (head + rest) =~= (o + head) + rest);
        }
        pos = next;
    }
    assert(encode_utf8(out@) + Seq::<u8>::empty() =~= encode_utf8(out@));
    shift
}


/// A line feed in front of an empty item, which keeps the indented marker from
/// reading as part of the paragraph above it.
pub open spec fn separator(b: Seq<u8>, item: ListItemInfo) -> Seq<u8> {
    if empty_item(b, item) {
        seq![text::NEWLINE]
    } else {
        Seq::empty()
    }
}

/// The bullet item at index `i` one level deeper: its lines move together.
pub open spec fn indented_bullet(
    b: Seq<u8>,
    info: ListInfo,
    i: int,
    cursor: int,
    width: nat,
) -> ListEdit {
    let item = info.items@[i];
    let gap = separator(b, item);
    ListEdit {
        offset: item.start as int,
        removed: b.subrange(item.start as int, item.end as int),
        inserted: gap + indented_lines(b, item.start as int, item.end as int, width),
        cursor: cursor + gap.len() + indent_shift(
            b,
            item.start as int,
            item.end as int,
            width,
            cursor,
        ),
    }
}

/// The item at index `k` of an ordered run, behind its marker, one level
/// deeper: the lines below the first move with it.
pub open spec fn indented_rest(b: Seq<u8>, item: ListItemInfo, width: nat) -> Seq<u8> {
    let q = next_line(b, item.marker_end as int, item.end as int);
    b.subrange(item.marker_end as int, q) + indented_lines(b, q, item.end as int, width)
}

/// The item at index `k` when the item at index `i` goes one level deeper: that
/// one gets the number 1, the others are counted on without it.
pub open spec fn indented_item(
    b: Seq<u8>,
    info: ListInfo,
    k: int,
    i: int,
    counter: u64,
    width: nat,
) -> Seq<u8> {
    let item = info.items@[k];
    let indent = encode_utf8(info.indent@);
    if k == i {
        separator(b, item) + marker_text(indent + spaces(width), info.kind, 1) + indented_rest(
            b,
            item,
            width,
        )
    } else {
        marker_text(indent, info.kind, counter) + b.subrange(
            item.marker_end as int,
            item.end as int,
        )
    }
}

/// The items of an ordered run from index `k` on, with the one at index `i` one
/// level deeper.
pub open spec fn indented_run(
    b: Seq<u8>,
    info: ListInfo,
    k: int,
    i: int,
    counter: u64,
    width: nat,
) -> Seq<u8>
    decreases info.items@.len() - k,
{
    if 0 <= k < info.items@.len() {
        indented_item(b, info, k, i, counter, width) + indented_run(
            b,
            info,
            k + 1,
            i,
            if k == i {
                counter
            } else {
                counter.wrapping_add(1)
            },
            width,
        )
    } else {
        Seq::empty()
    }
}

/// How far `cursor` is into the item's text behind the marker; 0 before it.
pub open spec fn offset_in_rest(item: ListItemInfo, cursor: int) -> int {
    if cursor <= item.marker_end {
        0
    } else if cursor <= item.end {
        cursor - item.marker_end
    } else {
        item.end - item.marker_end
    }
}

/// Where `cursor`, in the item at index `i`, goes in `indented_run`.
pub open spec fn indented_run_cursor(
    b: Seq<u8>,
    info: ListInfo,
    k: int,
    i: int,
    counter: u64,
    width: nat,
    cursor: int,
) -> int
    decreases i - k,
{
    let item = info.items@[k];
    if 0 <= k < i {
        indented_item(b, info, k, i, counter, width).len() + indented_run_cursor(
            b,
            info,
            k + 1,
            i,
            counter.wrapping_add(1),
            width,
            cursor,
        )
    } else {
        separator(b, item).len() + marker_text(
            encode_utf8(info.indent@) + spaces(width),
            info.kind,
            1,
        ).len() + offset_in_rest(item, cursor) + indent_shift(
            b,
            next_line(b, item.marker_end as int, item.end as int),
            item.end as int,
            width,
            item.marker_end + offset_in_rest(item, cursor),
        )
    }
}

/// The first number of an ordered list.
pub open spec fn first_number(info: ListInfo) -> u64 {
    match info.items@[0].number {
        Some(n) => n,
        None => 1,
    }
}

/// The edit that nests the item at `cursor` one level deeper, `width` spaces to
/// the right. The first item of a list has nothing to nest under.
pub open spec fn nested(b: Seq<u8>, info: ListInfo, cursor: int, width: nat) -> Option<ListEdit> {
    match parse::item_index(info, cursor) {
        Some(i) => if i == 0 || width == 0 {
            None
        } else {
            match info.kind {
                MarkerKind::Bullet(_) => Some(indented_bullet(b, info, i, cursor, width)),
                MarkerKind::Ordered(_) => Some(
                    ListEdit {
                        offset: info.start as int,
                        removed: b.subrange(info.start as int, info.end as int),
                        inserted: indented_run(b, info, 0, i, first_number(info), width),
                        cursor: info.start + indented_run_cursor(
                            b,
                            info,
                            0,
                            i,
                            first_number(info),
                            width,
                            cursor,
                        ),
                    },
                ),
            }
        },
        None => None,
    }
}

fn indent_bullet_item(
    info: &ListInfo,
    source: &str,
    item_idx: usize,
    cursor_byte: usize,
    indent_width: usize,
) -> (r: ContinueResult)
    requires
        info.wf(source.spec_bytes()),
        item_idx < info.items@.len(),
        indented_bullet(
            source.spec_bytes(),
            *info,
            item_idx as int,
            cursor_byte as int,
            indent_width as nat,
        ).cursor <= usize::MAX,
    ensures
        is_edit(
            r,
            indented_bullet(
                source.spec_bytes(),
                *info,
                item_idx as int,
                cursor_byte as int,
                indent_width as nat,
            ),
        ),
{
    let ghost b = source.spec_bytes();
    let item = &info.items[item_idx];
    proof {
        assert(parse::item_wf(b, *item));
        lemma_indent_shift_nonneg(
            b,
            item.start as int,
            item.end as int,
            indent_width as nat,
            cursor_byte as int,
        );
    }
    let mut inserted: String = String::new();
    let mut gap: usize = 0;
    if item.content_is_empty(source) {
        text::append_ascii(&mut inserted, '\n');
        gap = 1;
    }
    assert(encode_utf8(inserted@) =~= separator(b, *item));
    let shift: usize = append_indented(
        &mut inserted,
        source,
        item.start,
        item.end,
        indent_width,
        cursor_byte,
    );
    let removed: String = text::slice(source, item.start, item.end).to_owned();
    ContinueResult {
        delta: EditDelta { offset: item.start, removed, inserted },
        cursor_byte: cursor_byte + gap + shift,
    }
}

/// Appends the ordered item at `item_idx` one level deeper to `out`, and
/// returns the offset in `out` to which `cursor_byte` goes.
fn append_nested_item(
    out: &mut String,
    info: &ListInfo,
    source: &str,
    item_idx: usize,
    cursor_byte: usize,
    indent_width: usize,
) -> (cursor_out: usize)
    requires
        info.wf(source.spec_bytes()),
        item_idx < info.items@.len(),
        encode_utf8(old(out)@).len() + indented_run_cursor(
            source.spec_bytes(),
            *info,
            item_idx as int,
            item_idx as int,
            0,
            indent_width as nat,
            cursor_byte as int,
        ) <= usize::MAX,
    ensures
        encode_utf8(final(out)@) == encode_utf8(old(out)@) + indented_item(
            source.spec_bytes(),
            *info,
            item_idx as int,
            item_idx as int,
            0,
            indent_width as nat,
        ),
        cursor_out == encode_utf8(old(out)@).len() + indented_run_cursor(
            source.spec_bytes(),
            *info,
            item_idx as int,
            item_idx as int,
            0,
            indent_width as nat,
            cursor_byte as int,
        ),
{
    let ghost b = source.spec_bytes();
    let ghost o = encode_utf8(out@);
    let item = &info.items[item_idx];
    proof {
        assert(parse::item_wf(b, *item));
    }
    if item.content_is_empty(source) {
        text::append_ascii(out, '\n');
    }
    assert(encode_utf8(out@) =~= o + separator(b, *item));
    let mut nested_indent: String = info.indent.clone();
    append_spaces(&mut nested_indent, indent_width);
    let ghost marker = marker_text(
        encode_utf8(info.indent@) + spaces(indent_width as nat),
        info.kind,
        1,
    );
    append_marker(out, nested_indent.as_str(), info.kind, 1);
    assert(encode_utf8(out@) =~= o + separator(b, *item) + marker);
    let at: usize = text::byte_len(out.as_str());
    let in_item: usize = if cursor_byte <= item.marker_end {
        0
    } else if cursor_byte <= item.end {
        cursor_byte - item.marker_end
    } else {
        item.end - item.marker_end
    };
    let stop: usize = text::line_end_byte(source.as_bytes(), item.marker_end);
    let q: usize = if stop < item.end {
        stop + 1
    } else {
        stop
    };
    proof {
        if item.marker_end < item.end {
            lemma_next_line(b, item.marker_end as int, item.end as int);
        } else {
            text::lemma_line_end_unique(b, item.end as int, item.end as int);
        }
        assert(q == next_line(b, item.marker_end as int, item.end as int));
        text::lemma_boundary(b, q as int);
        lemma_indent_shift_nonneg(
            b,
            q as int,
            item.end as int,
            indent_width as nat,
            item.marker_end + in_item,
        );
    }
    text::append_slice(out, source, item.marker_end, q);
    let shift: usize = append_indented(
        out,
        source,
        q,
        item.end,
        indent_width,
        item.marker_end + in_item,
    );
    assert(encode_utf8(out@) =~= o + indented_item(
        b,
        *info,
        item_idx as int,
        item_idx as int,
        0,
        indent_width as nat,
    ));
    at + in_item + shift
}

/// A nested item and its cursor do not depend on the outer count.
proof fn lemma_nested_counter(b: Seq<u8>, info: ListInfo, i: int, c1: u64, c2: u64, width: nat, cursor: int)
    ensures
        indented_item(b, info, i, i, c1, width) == indented_item(b, info, i, i, c2, width),
        indented_run_cursor(b, info, i, i, c1, width, cursor) == indented_run_cursor(
            b,
            info,
            i,
            i,
            c2,
            width,
            cursor,
        ),
{
}

fn indent_ordered_item(
    info: &ListInfo,
    source: &str,
    item_idx: usize,
    cursor_byte: usize,
    indent_width: usize,
) -> (r: (String, usize))
    requires
        info.wf(source.spec_bytes()),
        item_idx < info.items@.len(),
        indented_run_cursor(
            source.spec_bytes(),
            *info,
            0,
            item_idx as int,
            first_number(*info),
            indent_width as nat,
            cursor_byte as int,
        ) <= usize::MAX,
    ensures
        encode_utf8(r.0@) == indented_run(
            source.spec_bytes(),
            *info,
            0,
            item_idx as int,
            first_number(*info),
            indent_width as nat,
        ),
        r.1 == indented_run_cursor(
            source.spec_bytes(),
            *info,
            0,
            item_idx as int,
            first_number(*info),
            indent_width as nat,
            cursor_byte as int,
        ),
{
    let ghost b = source.spec_bytes();
    let ghost w = indent_width as nat;
    let ghost i = item_idx as int;
    let ghost first = first_number(*info);
    let ghost all = indented_run(b, *info, 0, i, first, w);
    let ghost target = indented_run_cursor(b, *info, 0, i, first, w, cursor_byte as int);
    let mut counter: u64 = match info.items[0].number {
        Some(n) => n,
        None => 1,
    };
    let mut out: String = String::new();
    let mut cursor_out: usize = 0;
    let mut k: usize = 0;
    assert(encode_utf8(Seq::<char>::empty()) =~= Seq::<u8>::empty());
    assert(Seq::<u8>::empty() + all =~= all);
    while k < info.items.len()
        invariant
            info.wf(source.spec_bytes()),
            b == source.spec_bytes(),
            w == indent_width as nat,
            i == item_idx as int,
            i < info.items@.len(),
            k <= info.items@.len(),
            target <= usize::MAX,
            encode_utf8(out@) + indented_run(b, *info, k as int, i, counter, w) == all,
            k <= i ==> encode_utf8(out@).len() + indented_run_cursor(
                b,
                *info,
                k as int,
                i,
                counter,
                w,
                cursor_byte as int,
            ) == target,
            k > i ==> cursor_out == target,
        decreases info.items@.len() - k,
    {
        let ghost o = encode_utf8(out@);
        let ghost head = indented_item(b, *info, k as int, i, counter, w);
        let ghost c = counter;
        assert(parse::item_wf(b, info.items@[k as int]));
        if k == item_idx {
            proof {
                lemma_nested_counter(b, *info, i, c, 0, w, cursor_byte as int);
            }
            cursor_out = append_nested_item(
                &mut out,
                info,
                source,
                item_idx,
                cursor_byte,
                indent_width,
            );
        } else {
            append_marker(&mut out, info.indent.as_str(), info.kind, counter);
            text::append_slice(&mut out, source, info.items[k].marker_end, info.items[k].end);
            counter = counter.wrapping_add(1);
        }
        proof {
            assert(encode_utf8(out@) =~= o + head);
            let rest = indented_run(b, *info, k + 1, i, counter, w);
            assert(o + (head + rest) =~= (o + head) + rest);
        }
        k += 1;
    }
    assert(encode_utf8(out@) + Seq::<u8>::empty() =~= encode_utf8(out@));
    (out, cursor_out)
}

/// Nests the item at `cursor_byte` one level deeper, `indent_width` spaces to
/// the right. An ordered item starts a nested list at 1, and the other items
/// close the gap; a bullet item's lines just move.
///
/// `None` if `cursor_byte` is in no item, in the list's first item, or the
/// width is 0.
pub fn indent_item(info: &ListInfo, source: &str, cursor_byte: usize, indent_width: usize) -> (r:
    Option<ContinueResult>)
    requires
        info.wf(source.spec_bytes()),
        cursor_fits(
            nested(source.spec_bytes(), *info, cursor_byte as int, indent_width as nat),
        ),
    ensures
        is_edit_option(
            r,
            nested(source.spec_bytes(), *info, cursor_byte as int, indent_width as nat),
        ),
{
    if indent_width == 0 {
        return None;
    }
    let item_idx: usize = match parse::cursor_item_idx(info, cursor_byte) {
        Some(i) => i,
        None => {
            return None;
        },
    };
    if item_idx == 0 {
        return None;
    }
    match info.kind {
        MarkerKind::Bullet(_) => Some(
            indent_bullet_item(info, source, item_idx, cursor_byte, indent_width),
        ),
        MarkerKind::Ordered(_) => {
            proof {
                lemma_items_in_list(source.spec_bytes(), *info, 0);
                assert(parse::item_wf(source.spec_bytes(), info.items@[0]));
                assert(parse::item_wf(source.spec_bytes(), info.items@[info.items@.len() - 1]));
            }
            let (inserted, cursor_out) = indent_ordered_item(
                info,
                source,
                item_idx,
                cursor_byte,
                indent_width,
            );
            let removed: String = text::slice(source, info.start, info.end).to_owned();
            Some(
                ContinueResult {
                    delta: EditDelta { offset: info.start, removed, inserted },
                    cursor_byte: info.start + cursor_out,
                },
            )
        },
    }
}


/// How many leading spaces and tabs `line` loses when `strip` are taken off:
/// no more than it has, and none if it is blank.
pub open spec fn lead_to_strip(line: Seq<u8>, strip: int) -> int {
    if text::blank(line) {
        0
    } else if strip <= parse::skip_indent(line, 0) {
        strip
    } else {
        parse::skip_indent(line, 0)
    }
}

/// The lines of `p..end`, each without up to `strip` leading spaces and tabs.
pub open spec fn outdented_lines(b: Seq<u8>, p: int, end: int, strip: int) -> Seq<u8>
    decreases end - p,
{
    let next = next_line(b, p, end);
    if p < next <= end {
        let line = b.subrange(p, next);
        line.subrange(lead_to_strip(line, strip), line.len() as int) + outdented_lines(
            b,
            next,
            end,
            strip,
        )
    } else {
        Seq::empty()
    }
}

/// How many of the bytes that `outdented_lines` takes off stand before
/// `cursor`.
pub open spec fn outdent_shift(b: Seq<u8>, p: int, end: int, strip: int, cursor: int) -> int
    decreases end - p,
{
    let next = next_line(b, p, end);
    if p < next <= end {
        let s = lead_to_strip(b.subrange(p, next), strip);
        (if cursor >= p + s {
            s
        } else if cursor > p {
            cursor - p
        } else {
            0
        }) + outdent_shift(b, next, end, strip, cursor)
    } else {
        0
    }
}

/// No more is taken off before `cursor` than stands there.
proof fn lemma_outdent_shift(b: Seq<u8>, p: int, end: int, strip: int, cursor: int)
    requires
        0 <= p,
        0 <= strip,
        end <= b.len(),
    ensures
        0 <= outdent_shift(b, p, end, strip, cursor),
        outdent_shift(b, p, end, strip, cursor) <= if cursor > p {
            cursor - p
        } else {
            0
        },
    decreases end - p,
{
    let next = next_line(b, p, end);
    if p < next <= end {
        lemma_outdent_shift(b, next, end, strip, cursor);
        parse::lemma_skip_indent(b.subrange(p, next), 0);
    }
}

/// The edit that moves the item at `cursor` up to `width` bytes to the left.
pub open spec fn unnested(b: Seq<u8>, info: ListInfo, cursor: int, width: nat) -> Option<ListEdit> {
    let indent = encode_utf8(info.indent@).len();
    let strip = if width <= indent {
        width as int
    } else {
        indent as int
    };
    match parse::item_index(info, cursor) {
        Some(i) => if strip == 0 {
            None
        } else {
            let item = info.items@[i];
            Some(
                ListEdit {
                    offset: item.start as int,
                    removed: b.subrange(item.start as int, item.end as int),
                    inserted: outdented_lines(b, item.start as int, item.end as int, strip),
                    cursor: cursor - outdent_shift(
                        b,
                        item.start as int,
                        item.end as int,
                        strip,
                        cursor,
                    ),
                },
            )
        },
        None => None,
    }
}

/// Takes up to `indent_width` leading spaces and tabs off each line of the item
/// at `cursor_byte` that is not blank. `None` when the list has no indent, the
/// width is 0, or `cursor_byte` is in no item.
pub fn outdent_item(info: &ListInfo, source: &str, cursor_byte: usize, indent_width: usize) -> (r:
    Option<ContinueResult>)
    requires
        info.wf(source.spec_bytes()),
    ensures
        is_edit_option(
            r,
            unnested(source.spec_bytes(), *info, cursor_byte as int, indent_width as nat),
        ),
{
    let ghost b = source.spec_bytes();
    if indent_width == 0 {
        return None;
    }
    let item_idx: usize = match parse::cursor_item_idx(info, cursor_byte) {
        Some(i) => i,
        None => {
            return None;
        },
    };
    let item = &info.items[item_idx];
    let indent_len: usize = text::byte_len(info.indent.as_str());
    if indent_len == 0 {
        return None;
    }
    let strip: usize = if indent_width <= indent_len {
        indent_width
    } else {
        indent_len
    };
    proof {
        assert(parse::item_wf(b, *item));
        lemma_item_index(*info, cursor_byte as int);
        lemma_items_in_list(b, *info, item_idx as int);
        lemma_outdent_shift(
            b,
            item.start as int,
            item.end as int,
            strip as int,
            cursor_byte as int,
        );
    }
    let bytes = source.as_bytes();
    let end: usize = item.end;
    let ghost all = outdented_lines(b, item.start as int, end as int, strip as int);
    let ghost total = outdent_shift(
        b,
        item.start as int,
        end as int,
        strip as int,
        cursor_byte as int,
    );
    let mut inserted: String = String::new();
    let mut removed_before: usize = 0;
    let mut pos: usize = item.start;
    assert(encode_utf8(inserted@) + all =~= all);
    while pos < end
        invariant
            b == source.spec_bytes(),
            b == bytes@,
            pos <= end <= b.len(),
            is_char_boundary(b, pos as int),
            parse::at_edge(b, end as int),
            encode_utf8(inserted@) + outdented_lines(b, pos as int, end as int, strip as int)
                == all,
            removed_before + outdent_shift(
                b,
                pos as int,
                end as int,
                strip as int,
                cursor_byte as int,
            ) == total,
            0 <= total <= usize::MAX,
        decreases end - pos,
    {
        let ghost o = encode_utf8(inserted@);
        let stop: usize = text::line_end_byte(bytes, pos);
        proof {
            lemma_next_line(b, pos as int, end as int);
        }
        let next: usize = if stop < end {
            stop + 1
        } else {
            stop
        };
        proof {
            assert(next == next_line(b, pos as int, end as int));
            text::lemma_boundary(b, next as int);
            lemma_outdent_shift(b, next as int, end as int, strip as int, cursor_byte as int);
        }
        let line = text::slice(source, pos, next);
        let ghost l = b.subrange(pos as int, next as int);
        let lead: usize = parse::lead_len(line);
        let s: usize = if text::is_blank(line) {
            0
        } else if strip <= lead {
            strip
        } else {
            lead
        };
        proof {
            parse::lemma_skip_indent(l, 0);
            text::lemma_boundary(l, l.len() as int);
            if s > 0 {
                assert(parse::is_indent_byte(l[s - 1]));
            }
            text::lemma_boundary(l, s as int);
        }
        text::append_slice(&mut inserted, line, s, next - pos);
        if cursor_byte >= pos + s {
            removed_before = removed_before + s;
        } else if cursor_byte > pos {
            removed_before = removed_before + (cursor_byte - pos);
        }
        proof {
            let rest = outdented_lines(b, next as int, end as int, strip as int);
            let head = l.subrange(s as int, l.len() as int);
            assert(encode_utf8(inserted@) =~= o + head);
            assert(o + (head + rest) =~= (o + head) + rest);
        }
        pos = next;
    }
    assert(encode_utf8(inserted@) + Seq::<u8>::empty() =~= encode_utf8(inserted@));
    let removed: String = text::slice(source, item.start, end).to_owned();
    Some(
        ContinueResult {
            delta: EditDelta { offset: item.start, removed, inserted },
            cursor_byte: cursor_byte - removed_before,
        },
    )
}

/// A line that the renumbering takes as part of a list: a marker line, or an
/// indented line that is not blank.
pub open spec fn block_line(line: Seq<u8>) -> bool {
    parse::marker_of(line) is Some || (parse::indented(line) && !text::blank(line))
}

/// The start of the run of list lines that ends above the line start `at`.
pub open spec fn block_top(b: Seq<u8>, at: int) -> int
    decreases at,
{
    if 0 < at <= b.len() {
        let ps = text::line_start(b, at - 1);
        proof {
            text::lemma_line_start(b, at - 1);
        }
        if block_line(b.subrange(ps, at - 1)) {
            block_top(b, ps)
        } else {
            at
        }
    } else {
        at
    }
}

/// The end of the run of list lines from the line start `at` down.
pub open spec fn block_bottom(b: Seq<u8>, at: int) -> int
    decreases b.len() - at,
{
    let next = next_line(b, at, b.len() as int);
    if 0 <= at < next <= b.len() && block_line(text::line_at(b, at)) {
        block_bottom(b, next)
    } else {
        at
    }
}

/// An ordered run that the walk is inside of: its indent, its delimiter, and
/// the number that its next item gets.
#[derive(Clone, Copy, Debug)]
pub struct Run {
    pub indent: usize,
    pub delim: char,
    pub next: u64,
}

/// The runs that a line with this indent leaves open: those that are indented
/// less, and the one at the same indent if `keep_same`.
pub open spec fn open_runs(stack: Seq<Run>, indent: int, keep_same: bool) -> Seq<Run>
    decreases stack.len(),
{
    if stack.len() > 0 && (stack.last().indent > indent || (!keep_same && stack.last().indent
        == indent)) {
        open_runs(stack.drop_last(), indent, keep_same)
    } else {
        stack
    }
}

/// The run on top is the one that an ordered line with this indent and
/// delimiter belongs to.
pub open spec fn continues_run(stack: Seq<Run>, indent: int, delim: char) -> bool {
    stack.len() > 0 && stack.last().indent == indent && stack.last().delim == delim
}

/// The number that an ordered line gets: the next one of its run, or its own if
/// it starts a run.
pub open spec fn run_number(stack: Seq<Run>, m: parse::Marker, delim: char) -> u64 {
    let inner = open_runs(stack, m.indent.len() as int, true);
    if continues_run(inner, m.indent.len() as int, delim) {
        inner.last().next
    } else {
        m.number->0
    }
}

/// The open runs after an ordered line. A run at the same indent with another
/// delimiter is another list, which this one replaces.
pub open spec fn runs_after(stack: Seq<Run>, m: parse::Marker, delim: char) -> Seq<Run> {
    let indent = m.indent.len() as int;
    let run = Run {
        indent: indent as usize,
        delim,
        next: run_number(stack, m, delim).wrapping_add(1),
    };
    open_runs(stack, indent, false).push(run)
}

/// What one line of a block becomes, the runs open behind it, and whether its
/// number changed.
pub struct Renumbered {
    pub line: Seq<u8>,
    pub stack: Seq<Run>,
    pub changed: bool,
}

/// One step of the renumbering: an ordered marker is rewritten with its number
/// in its run, a bullet closes the runs at its indent and deeper, and any other
/// line is left alone.
pub open spec fn renumber_line(line: Seq<u8>, stack: Seq<Run>) -> Renumbered {
    match parse::marker_of(line) {
        Some(m) => match m.kind {
            MarkerKind::Ordered(delim) => {
                let n = run_number(stack, m, delim);
                Renumbered {
                    line: marker_text(m.indent, m.kind, n) + line.subrange(
                        m.width as int,
                        line.len() as int,
                    ),
                    stack: runs_after(stack, m, delim),
                    changed: n != m.number->0,
                }
            },
            MarkerKind::Bullet(_) => Renumbered {
                line,
                stack: open_runs(stack, m.indent.len() as int, false),
                changed: false,
            },
        },
        None => Renumbered { line, stack, changed: false },
    }
}

/// The lines of `p..end`, renumbered.
pub open spec fn renumber_lines(b: Seq<u8>, p: int, end: int, stack: Seq<Run>) -> Seq<u8>
    decreases end - p,
{
    let next = next_line(b, p, end);
    if p < next <= end {
        let e = text::line_end(b, p);
        let step = renumber_line(b.subrange(p, e), stack);
        step.line + b.subrange(e, next) + renumber_lines(b, next, end, step.stack)
    } else {
        Seq::empty()
    }
}

/// Some number in `p..end` changes.
pub open spec fn renumber_changes(b: Seq<u8>, p: int, end: int, stack: Seq<Run>) -> bool
    decreases end - p,
{
    let next = next_line(b, p, end);
    if p < next <= end {
        let step = renumber_line(b.subrange(p, text::line_end(b, p)), stack);
        step.changed || renumber_changes(b, next, end, step.stack)
    } else {
        false
    }
}

/// Where the list block around `cursor` stands: the run of list lines that holds
/// the line of `cursor`, if that line is one.
pub open spec fn block_at(b: Seq<u8>, cursor: int) -> Option<(int, int)> {
    let c = if cursor <= b.len() {
        cursor
    } else {
        b.len() as int
    };
    let cs = text::line_start(b, c);
    if block_line(text::line_at(b, cs)) {
        Some((block_top(b, cs), block_bottom(b, cs)))
    } else {
        None
    }
}

/// True iff `line` is part of a list for the renumbering.
fn is_block_line(line: &str) -> (r: bool)
    ensures
        r == block_line(line.spec_bytes()),
{
    parse::parse_line_start(line).is_some() || is_block_continuation_line(line)
}

/// A line that is not blank and begins with a space or a tab.
fn is_block_continuation_line(line: &str) -> (r: bool)
    ensures
        r == (parse::indented(line.spec_bytes()) && !text::blank(line.spec_bytes())),
{
    parse::is_indented(line) && !text::is_blank(line)
}

/// Closes the runs that a line with this indent leaves.
fn close_runs(stack: &mut Vec<Run>, indent: usize, keep_same: bool)
    ensures
        final(stack)@ == open_runs(old(stack)@, indent as int, keep_same),
{
    let ghost s0 = stack@;
    loop
        invariant
            open_runs(stack@, indent as int, keep_same) == open_runs(s0, indent as int, keep_same),
            s0 == old(stack)@,
        decreases stack@.len(),
    {
        let n: usize = stack.len();
        if n == 0 {
            return;
        }
        let top: Run = stack[n - 1];
        if top.indent > indent || (!keep_same && top.indent == indent) {
            stack.pop();
        } else {
            return;
        }
    }
}

/// Leaving the run at the same indent open, then closing it, is closing it.
proof fn lemma_open_runs(stack: Seq<Run>, indent: int)
    ensures
        open_runs(open_runs(stack, indent, true), indent, false) == open_runs(stack, indent, false),
    decreases stack.len(),
{
    if stack.len() > 0 && stack.last().indent > indent {
        lemma_open_runs(stack.drop_last(), indent);
    }
}

/// Appends `line`, renumbered, to `out`, and returns whether its number changed.
fn append_renumbered_line(out: &mut String, stack: &mut Vec<Run>, line: &str) -> (changed: bool)
    ensures
        ({
            let step = renumber_line(line.spec_bytes(), old(stack)@);
            &&& encode_utf8(final(out)@) == encode_utf8(old(out)@) + step.line
            &&& final(stack)@ == step.stack
            &&& changed == step.changed
        }),
{
    let ghost l = line.spec_bytes();
    let ghost o = encode_utf8(out@);
    proof {
        parse::lemma_marker(l);
    }
    match parse::parse_line_start(line) {
        None => {
            text::append_text(out, line);
            false
        },
        Some((indent, kind, number)) => {
            let k: usize = text::byte_len(indent.as_str());
            match kind {
                MarkerKind::Bullet(_) => {
                    close_runs(stack, k, false);
                    text::append_text(out, line);
                    false
                },
                MarkerKind::Ordered(delim) => {
                    let num: u64 = match number {
                        Some(n) => n,
                        None => 0,
                    };
                    proof {
                        lemma_open_runs(stack@, k as int);
                    }
                    close_runs(stack, k, true);
                    let depth: usize = stack.len();
                    let new_num: u64 = if depth > 0 && stack[depth - 1].indent == k && stack[depth
                        - 1].delim == delim {
                        stack[depth - 1].next
                    } else {
                        num
                    };
                    close_runs(stack, k, false);
                    stack.push(Run { indent: k, delim, next: new_num.wrapping_add(1) });
                    let width: usize = marker_width(line, k);
                    append_marker(out, indent.as_str(), kind, new_num);
                    proof {
                        text::lemma_boundary(l, width as int);
                        text::lemma_boundary(l, l.len() as int);
                    }
                    text::append_slice(out, line, width, text::byte_len(line));
                    assert(encode_utf8(out@) =~= o + renumber_line(l, old(stack)@).line);
                    new_num != num
                },
            }
        },
    }
}

/// The length of the indent, number, delimiter and space of an ordered line
/// whose indent is `indent` bytes long.
fn marker_width(line: &str, indent: usize) -> (r: usize)
    requires
        parse::marker_of(line.spec_bytes()) matches Some(m) && m.kind is Ordered && m.indent.len()
            == indent,
    ensures
        r == parse::marker_of(line.spec_bytes())->0.width,
{
    let lb = line.as_bytes();
    proof {
        parse::lemma_marker(lb@);
        parse::lemma_skip_digits(lb@, indent as int);
    }
    let mut d: usize = indent;
    while d < lb.len() && 48 <= lb[d] && lb[d] <= 57
        invariant
            indent <= d <= lb@.len(),
            parse::skip_digits(lb@, d as int) == parse::skip_digits(lb@, indent as int),
        decreases lb@.len() - d,
    {
        d += 1;
    }
    d + 2
}

/// Renumbers each ordered run of the list block around `cursor_byte`, with its
/// nesting: an outer list counts on across a nested one, and each nested list
/// counts for itself. Bullet lines and other lines stay as they are.
///
/// The block is bounded by blank lines and lines that belong to no list. `None`
/// when the cursor is on no list line or every number is right already.
pub fn renumber_list_block(source: &str, cursor_byte: usize) -> (r: Option<EditDelta>)
    ensures
        match block_at(source.spec_bytes(), cursor_byte as int) {
            Some((start, end)) => {
                let b = source.spec_bytes();
                &&& r is Some <==> renumber_changes(b, start, end, Seq::empty())
                &&& r matches Some(d) ==> {
                    &&& d.offset == start
                    &&& text::sliceable(b, start, end)
                    &&& encode_utf8(d.removed@) == b.subrange(start, end)
                    &&& encode_utf8(d.inserted@) == renumber_lines(b, start, end, Seq::empty())
                }
            },
            None => r is None,
        },
{
    let bytes = source.as_bytes();
    let ghost b = source.spec_bytes();
    let len: usize = bytes.len();
    let clamped: usize = if cursor_byte <= len {
        cursor_byte
    } else {
        len
    };
    let cur_start: usize = text::line_start_byte(bytes, clamped);
    let cur_end: usize = text::line_end_byte(bytes, cur_start);
    if !is_block_line(text::line_slice(source, cur_start, cur_end)) {
        return None;
    }
    let block_start: usize = find_block_start(source, bytes, cur_start);
    let block_end: usize = find_block_end(source, bytes, cur_start);
    let mut out: String = String::new();
    let mut stack: Vec<Run> = Vec::new();
    let mut changed: bool = false;
    let mut pos: usize = block_start;
    let ghost all = renumber_lines(b, block_start as int, block_end as int, Seq::empty());
    let ghost any = renumber_changes(b, block_start as int, block_end as int, Seq::empty());
    assert(encode_utf8(out@) + all =~= all);
    assert(stack@ =~= Seq::empty());
    while pos < block_end
        invariant
            b == source.spec_bytes(),
            b == bytes@,
            pos <= block_end <= b.len(),
            parse::at_edge(b, pos as int),
            parse::at_edge(b, block_end as int),
            encode_utf8(out@) + renumber_lines(b, pos as int, block_end as int, stack@) == all,
            any == (changed || renumber_changes(b, pos as int, block_end as int, stack@)),
        decreases block_end - pos,
    {
        let ghost o = encode_utf8(out@);
        let ghost st = stack@;
        let stop: usize = text::line_end_byte(bytes, pos);
        proof {
            lemma_next_line(b, pos as int, block_end as int);
            text::lemma_line_end(b, pos as int);
        }
        let next: usize = if stop < block_end {
            stop + 1
        } else {
            stop
        };
        assert(next == next_line(b, pos as int, block_end as int));
        let line = text::line_slice(source, pos, stop);
        let line_changed: bool = append_renumbered_line(&mut out, &mut stack, line);
        changed = changed || line_changed;
        proof {
            text::lemma_boundary(b, stop as int);
            text::lemma_boundary(b, next as int);
        }
        text::append_slice(&mut out, source, stop, next);
        proof {
            let step = renumber_line(b.subrange(pos as int, stop as int), st);
            let head = step.line + b.subrange(stop as int, next as int);
            let rest = renumber_lines(b, next as int, block_end as int, step.stack);
            assert(encode_utf8(out@) =~= o + head);
            assert(o + (head + rest) =~= (o + head) + rest);
        }
        pos = next;
    }
    assert(encode_utf8(out@) + Seq::<u8>::empty() =~= encode_utf8(out@));
    if !changed {
        return None;
    }
    proof {
        text::lemma_boundary(b, block_start as int);
        text::lemma_boundary(b, block_end as int);
    }
    let removed: String = text::slice(source, block_start, block_end).to_owned();
    Some(EditDelta { offset: block_start, removed, inserted: out })
}

/// Walks up over the list lines above the line that begins at `from`.
fn find_block_start(source: &str, bytes: &[u8], from: usize) -> (r: usize)
    requires
        bytes@ == source.spec_bytes(),
        text::at_line_start(bytes@, from as int),
    ensures
        r == block_top(bytes@, from as int),
        r <= from,
        text::at_line_start(bytes@, r as int),
{
    let mut at: usize = from;
    while at > 0
        invariant
            bytes@ == source.spec_bytes(),
            at <= from,
            text::at_line_start(bytes@, at as int),
            block_top(bytes@, at as int) == block_top(bytes@, from as int),
        decreases at,
    {
        let prev: usize = text::line_start_byte(bytes, at - 1);
        if !is_block_line(text::line_slice(source, prev, at - 1)) {
            return at;
        }
        at = prev;
    }
    at
}

/// Walks down over the list lines from the line that begins at `from`.
fn find_block_end(source: &str, bytes: &[u8], from: usize) -> (r: usize)
    requires
        bytes@ == source.spec_bytes(),
        text::at_line_start(bytes@, from as int),
    ensures
        r == block_bottom(bytes@, from as int),
        from <= r <= bytes@.len(),
        parse::at_edge(bytes@, r as int),
{
    let len: usize = bytes.len();
    let mut at: usize = from;
    while at < len
        invariant
            bytes@ == source.spec_bytes(),
            len == bytes@.len(),
            from <= at <= len,
            parse::at_edge(bytes@, at as int),
            block_bottom(bytes@, at as int) == block_bottom(bytes@, from as int),
        decreases len - at,
    {
        let stop: usize = text::line_end_byte(bytes, at);
        if !is_block_line(text::line_slice(source, at, stop)) {
            return at;
        }
        proof {
            lemma_next_line(bytes@, at as int, len as int);
        }
        at = if stop < len {
            stop + 1
        } else {
            stop
        };
    }
    at
}

} // verus!
