//! What the keys do in a list of the rendered view.

use crate::document::graphemes;
use crate::document::rope;
use crate::editor::edit_ops::action::{Action, Near};
use crate::editor::list_edit::edit;
use crate::editor::list_edit::edit::ListEdit;
use crate::editor::list_edit::growth;
use crate::editor::list_edit::laws as edit_fits;
use crate::editor::list_edit::parse;
use crate::editor::list_edit::parse::{ListInfo, MarkerKind};
use crate::editor::list_edit::toggle;
use crate::editor::mode::Mode;
use crate::editor::state;
use crate::editor::state::EditorView;
use crate::text;
use vstd::prelude::*;
use vstd::utf8::*;

verus! {

/// The bytes after a list edit, and where the cursor is then.
proof fn lemma_list_edited(v: EditorView, e: ListEdit)
    requires
        !v.readonly,
        edit_fits::edit_fits(v.bytes(), e),
        valid_utf8(e.inserted),
        0 <= e.cursor <= toggle::after(v.bytes(), e).len(),
        is_char_boundary(toggle::after(v.bytes(), e), e.cursor),
        toggle::after(v.bytes(), e).len() <= usize::MAX,
    ensures
        ({
            let w = v.list_edited(e);
            &&& w.bytes() == toggle::after(v.bytes(), e)
            &&& w.cursor_byte() == e.cursor
            &&& w.mode == v.mode
            &&& w.selection == v.selection
        }),
{
    let b = v.bytes();
    encode_utf8_valid_utf8(v.text);
    let to = e.offset + e.removed.len();
    text::lemma_boundary_of_part(b, e.offset, to, e.offset);
    decode_utf8_encode_utf8(e.removed);
    decode_utf8_encode_utf8(e.inserted);
    let d = crate::editor::edit_ops::list_ops::delta_of(e);
    assert(state::stands_at_byte(v.text, d));
    state::lemma_in_chars_bytes(v.text, d);
    crate::editor::edit_ops::basic::lemma_edited_text(v, state::in_chars(v.text, d));
    let w0 = v.edited(state::in_chars(v.text, d));
    assert(w0.selection == v.selection) by {
        reveal(EditorView::edited);
        reveal(EditorView::followed);
        reveal(EditorView::refreshed);
    }
    assert(w0.bytes() == toggle::after(b, e));
    encode_utf8_valid_utf8(w0.text);
    rope::lemma_boundary_is_offset(w0.text, e.cursor);
    rope::lemma_encode_len(w0.text);
    reveal(EditorView::at);
    reveal(EditorView::aimed);
    reveal(EditorView::followed);
}

/// What is written for the items below is a text.
proof fn lemma_renumbered_valid(b: Seq<u8>, info: ListInfo, k: int, n: u64)
    requires
        valid_utf8(b),
        info.wf(b),
        0 <= k <= info.items@.len(),
    ensures
        valid_utf8(
            edit::renumbered(b, info.items@, k, n, encode_utf8(info.indent@), info.kind),
        ),
    decreases info.items@.len() - k,
{
    let ind = encode_utf8(info.indent@);
    if k < info.items@.len() {
        let it = info.items@[k];
        assert(parse::item_wf(b, it));
        let head = edit::marker_text(ind, info.kind, n);
        growth::lemma_written_marker(ind, info.kind, n, Seq::empty());
        growth::lemma_ascii_valid(head);
        let part = b.subrange(it.marker_end as int, it.end as int);
        text::lemma_boundary_of_part(b, it.marker_end as int, it.end as int, it.end as int);
        lemma_renumbered_valid(b, info, k + 1, n.wrapping_add(1));
        valid_utf8_concat(head, part);
        valid_utf8_concat(
            head + part,
            edit::renumbered(b, info.items@, k + 1, n.wrapping_add(1), ind, info.kind),
        );
    } else {
        growth::lemma_ascii_valid(
            edit::renumbered(b, info.items@, k, n, ind, info.kind),
        );
    }
}

/// What continuing a list puts in is a text, and the cursor is at a character of it.
proof fn lemma_continued_valid(b: Seq<u8>, info: ListInfo, cursor: int, i: int)
    requires
        valid_utf8(b),
        b.len() <= usize::MAX,
        0 <= cursor <= b.len(),
        is_char_boundary(b, cursor),
        parse::is_list_at(info, b, cursor),
        parse::item_index(info, cursor) == Some(i),
        0 <= i < info.items@.len(),
        info.items@[i].marker_end <= cursor <= info.items@[i].line_end,
    ensures
        edit::continued(b, info, cursor) matches Some(e) && valid_utf8(e.inserted) && e.cursor
            <= toggle::after(b, e).len() && valid_utf8(toggle::after(b, e)) && is_char_boundary(
            toggle::after(b, e),
            e.cursor,
        ),
{
    let ind = encode_utf8(info.indent@);
    let item = info.items@[i];
    assert(parse::item_wf(b, item));
    edit::lemma_items_in_list(b, info, i);
    let n = edit::next_number(info.kind, item.number);
    growth::lemma_continued_text(b, info, cursor, i, n);
    let e = edit::continued(b, info, cursor)->0;
    let t = toggle::after(b, e);
    let feed = seq![text::NEWLINE];
    let head = edit::marker_text(ind, info.kind, n);
    let mark = edit::new_checkbox(item.task);
    let mid = b.subrange(cursor, item.end as int);
    let below = match info.kind {
        MarkerKind::Ordered(_) => edit::renumbered(
            b,
            info.items@,
            i + 1,
            n.wrapping_add(1),
            ind,
            info.kind,
        ),
        MarkerKind::Bullet(_) => b.subrange(item.end as int, info.end as int),
    };
    growth::lemma_written_marker(ind, info.kind, n, Seq::empty());
    text::lemma_boundary_of_part(b, cursor, item.end as int, cursor);
    text::lemma_boundary_of_part(b, item.end as int, info.end as int, item.end as int);
    lemma_renumbered_valid(b, info, i + 1, n.wrapping_add(1));
    let pre = b.subrange(0, cursor);
    let suf = b.subrange(info.end as int, b.len() as int);
    valid_utf8_split(b, cursor);
    valid_utf8_split(b, info.end as int);
    lemma_parts_valid(pre, head, mark, mid, below, suf);
    assert(e.inserted == feed + (head + mark) + mid + below);
    assert(t == pre + e.inserted + suf);
    assert(e.cursor == pre.len() + 1 + head.len() + mark.len());
}

/// A text that is put together of texts is one, and a character begins behind the ASCII
/// characters in it.
proof fn lemma_parts_valid(
    pre: Seq<u8>,
    head: Seq<u8>,
    mark: Seq<u8>,
    mid: Seq<u8>,
    below: Seq<u8>,
    suf: Seq<u8>,
)
    requires
        valid_utf8(pre),
        valid_utf8(mid),
        valid_utf8(below),
        valid_utf8(suf),
        head.len() > 0,
        forall|j: int| 0 <= j < head.len() ==> #[trigger] head[j] < 0x80,
        forall|j: int| 0 <= j < mark.len() ==> #[trigger] mark[j] < 0x80,
    ensures
        ({
            let put = seq![text::NEWLINE] + (head + mark) + mid + below;
            let t = pre + put + suf;
            &&& valid_utf8(put)
            &&& valid_utf8(t)
            &&& pre.len() + 1 + head.len() + mark.len() <= t.len()
            &&& is_char_boundary(t, (pre.len() + 1 + head.len() + mark.len()) as int)
        }),
{
    let feed = seq![text::NEWLINE];
    growth::lemma_ascii_valid(feed);
    growth::lemma_ascii_valid(head);
    growth::lemma_ascii_valid(mark);
    valid_utf8_concat(head, mark);
    valid_utf8_concat(feed, head + mark);
    valid_utf8_concat(feed + (head + mark), mid);
    valid_utf8_concat(feed + (head + mark) + mid, below);
    let put = feed + (head + mark) + mid + below;
    valid_utf8_concat(pre, put);
    valid_utf8_concat(pre + put, suf);
    let t = pre + put + suf;
    let at = (pre.len() + 1 + head.len() + mark.len()) as int;
    assert(t[at - 1] == put[at - 1 - pre.len()]);
    if mark.len() > 0 {
        assert(put[at - 1 - pre.len()] == mark[mark.len() - 1]);
    } else {
        assert(put[at - 1 - pre.len()] == head[head.len() - 1]);
    }
    text::lemma_boundary(t, at);
}

/// The enter key behind the marker of an item with text continues the list: the list
/// around the cursor has one item more then, and the one that the cursor is in is a task
/// that is not done, if the item was a task, and none otherwise, unless what comes to
/// stand in it begins with a checkbox. The cursor is at the start of its text.
pub proof fn law_enter_continues_list(v: EditorView, near: Near, info: ListInfo, i: int)
    requires
        v.wf(),
        !v.readonly,
        v.mode == Mode::Rendered,
        !near.in_table,
        v.list() == Some(info),
        v.list_item() == Some(i),
        ({
            let item = info.items@[i];
            let c = v.cursor_byte();
            let b = v.bytes();
            &&& b.len() <= usize::MAX
            &&& item.marker_end <= c <= item.line_end
            &&& !text::blank(b.subrange(item.content_start as int, item.end as int))
            &&& item.task is None ==> parse::checkbox(b.subrange(c, item.line_end as int)) is None
            &&& toggle::after(b, edit::continued(b, info, c)->0).len() <= usize::MAX
        }),
    ensures
        ({
            let w = v.action_made(Action::Newline, near).state;
            let c = v.cursor_byte();
            let item = info.items@[i];
            let span = parse::list_at(w.bytes(), w.cursor_byte());
            let found = parse::items_from(
                w.bytes(),
                span->0.start,
                span->0.end,
                span->0.indent,
                span->0.kind,
            );
            let new = found->0[i + 1];
            &&& span is Some && found is Some
            &&& found->0.len() == info.items@.len() + 1
            &&& new.content_start == w.cursor_byte()
            &&& new.task == (if item.task is Some {
                Some(false)
            } else {
                None
            })
            &&& new.number == (match item.number {
                Some(n) => Some(n.wrapping_add(1)),
                None => None,
            })
            &&& w.bytes().subrange(0, c) == v.bytes().subrange(0, c)
            &&& w.bytes()[c] == text::NEWLINE
            &&& w.bytes().subrange(w.cursor_byte(), w.cursor_byte() + (item.end - c))
                == v.bytes().subrange(c, item.end as int)
        }),
{
    let b = v.bytes();
    let c = v.cursor_byte();
    encode_utf8_valid_utf8(v.text);
    rope::lemma_part_bytes(v.text, 0, v.cursor.offset as int);
    rope::lemma_offset_is_boundary(v.text, v.cursor.offset as int);
    assert(parse::is_list_at(info, b, c));
    edit::lemma_item_index(info, c);
    assert(parse::item_wf(b, info.items@[i]));
    growth::law_continued_list_grows(b, info, c);
    lemma_continued_valid(b, info, c, i);
    edit_fits::law_list_edits_fit(b, info, c, 0);
    let e = edit::continued(b, info, c)->0;
    lemma_list_edited(v, e);
    reveal(EditorView::edit_made);
    reveal(EditorView::newline_typed);
    assert(v.list_newline_edit() == Some(e));
}

/// The enter key in an item without text sets the item off by a blank line above it, and
/// where that is there already takes the item out: the steps by which a list is left.
pub proof fn law_enter_leaves_list(v: EditorView, near: Near, info: ListInfo, i: int)
    requires
        v.wf(),
        !v.readonly,
        v.mode == Mode::Rendered,
        !near.in_table,
        v.list() == Some(info),
        v.list_item() == Some(i),
        i + 1 == info.items@.len(),
        ({
            let item = info.items@[i];
            let c = v.cursor_byte();
            let b = v.bytes();
            &&& b.len() < usize::MAX
            &&& item.marker_end <= c
            &&& text::blank(b.subrange(item.content_start as int, item.end as int))
        }),
    ensures
        ({
            let w = v.action_made(Action::Newline, near).state;
            let b = v.bytes();
            let item = info.items@[i];
            let s = item.start as int;
            if edit::blank_above(b, s) {
                &&& w.bytes() == b.subrange(0, s) + b.subrange(item.end as int, b.len() as int)
                &&& w.cursor_byte() == s
            } else {
                &&& w.bytes() == b.subrange(0, s) + seq![text::NEWLINE] + b.subrange(
                    s,
                    b.len() as int,
                )
                &&& w.cursor_byte() == v.cursor_byte() + 1
            }
        }),
{
    let b = v.bytes();
    let c = v.cursor_byte();
    encode_utf8_valid_utf8(v.text);
    rope::lemma_part_bytes(v.text, 0, v.cursor.offset as int);
    rope::lemma_part_bytes(v.text, v.cursor.offset as int, v.text.len() as int);
    rope::lemma_offset_is_boundary(v.text, v.cursor.offset as int);
    assert(parse::is_list_at(info, b, c));
    edit::lemma_item_index(info, c);
    edit::lemma_items_in_list(b, info, i);
    let item = info.items@[i];
    assert(parse::item_wf(b, item));
    assert(item.end == info.end);
    edit_fits::law_list_edits_fit(b, info, c, 0);
    let s = item.start as int;
    reveal(EditorView::edit_made);
    reveal(EditorView::newline_typed);
    valid_utf8_split(b, s);
    valid_utf8_split(b, item.end as int);
    if edit::blank_above(b, s) {
        let e = edit::exited(b, info, c)->0;
        let t = toggle::after(b, e);
        growth::lemma_ascii_valid(e.inserted);
        assert(t =~= b.subrange(0, s) + b.subrange(item.end as int, b.len() as int));
        valid_utf8_concat(b.subrange(0, s), b.subrange(item.end as int, b.len() as int));
        if s > 0 {
            assert(b[s - 1] == text::NEWLINE);
            assert(t[s - 1] == b[s - 1]);
        }
        text::lemma_boundary(t, s);
        lemma_list_edited(v, e);
        assert(v.list_newline_edit() == Some(e));
    } else {
        let e = edit::spaced_out(b, info, c)->0;
        let t = toggle::after(b, e);
        let feed = seq![text::NEWLINE];
        growth::lemma_ascii_valid(feed);
        assert(t =~= b.subrange(0, s) + feed + b.subrange(s, b.len() as int));
        valid_utf8_concat(b.subrange(0, s), feed);
        valid_utf8_concat(b.subrange(0, s) + feed, b.subrange(s, b.len() as int));
        lemma_pushed_boundary(b, s, c);
        lemma_list_edited(v, e);
        assert(v.list_newline_edit() == Some(e));
    }
}

/// A character begins one byte further on behind a line feed that was put in.
proof fn lemma_pushed_boundary(b: Seq<u8>, s: int, c: int)
    requires
        valid_utf8(b),
        0 <= s <= c <= b.len(),
        is_char_boundary(b, s),
        is_char_boundary(b, c),
        valid_utf8(b.subrange(0, s) + seq![text::NEWLINE] + b.subrange(s, b.len() as int)),
    ensures
        is_char_boundary(
            b.subrange(0, s) + seq![text::NEWLINE] + b.subrange(s, b.len() as int),
            c + 1,
        ),
{
    let t = b.subrange(0, s) + seq![text::NEWLINE] + b.subrange(s, b.len() as int);
    if c == b.len() || c == s {
        assert(t[s] == text::NEWLINE);
        text::lemma_boundary(t, c + 1);
    } else {
        is_char_boundary_iff_not_is_continuation_byte(b, c);
        assert(t[c + 1] == b[c]);
        is_char_boundary_iff_not_is_continuation_byte(t, c + 1);
    }
}

/// Deleting backwards at the start of an item's text takes the checkbox of a task first,
/// and else the marker with its indentation; all else stays, and the cursor is where what
/// was taken began.
pub proof fn law_backspace_takes_marker(v: EditorView, near: Near, info: ListInfo, i: int)
    requires
        v.wf(),
        !v.readonly,
        v.mode == Mode::Rendered,
        v.selection is None,
        v.list() == Some(info),
        v.list_item() == Some(i),
        v.cursor_byte() == info.items@[i].content_start,
        v.bytes().len() <= usize::MAX,
    ensures
        ({
            let w = v.action_made(Action::DeleteCharBack, near).state;
            let item = info.items@[i];
            let b = v.bytes();
            let from = if item.task is Some {
                item.content_start - 4
            } else {
                item.start as int
            };
            &&& w.bytes() == b.subrange(0, from) + b.subrange(
                item.content_start as int,
                b.len() as int,
            )
            &&& w.cursor_byte() == from
        }),
{
    let b = v.bytes();
    let c = v.cursor_byte();
    encode_utf8_valid_utf8(v.text);
    rope::lemma_part_bytes(v.text, 0, v.cursor.offset as int);
    assert(parse::is_list_at(info, b, c));
    edit::lemma_item_index(info, c);
    let item = info.items@[i];
    assert(parse::item_wf(b, item));
    let e = v.list_backspace_edit()->0;
    let from = e.offset;
    let t = toggle::after(b, e);
    growth::lemma_ascii_valid(e.inserted);
    valid_utf8_split(b, from);
    valid_utf8_split(b, c);
    assert(t =~= b.subrange(0, from) + b.subrange(c, b.len() as int));
    valid_utf8_concat(b.subrange(0, from), b.subrange(c, b.len() as int));
    if from > 0 && from < t.len() && from < b.len() {
        is_char_boundary_iff_not_is_continuation_byte(b, c);
        is_char_boundary_iff_not_is_continuation_byte(t, from);
        if c < b.len() {
            assert(t[from] == b[c]);
        }
    } else {
        text::lemma_boundary(t, from);
    }
    lemma_list_edited(v, e);
    reveal(EditorView::edit_made);
    reveal(EditorView::erased_back);
}

/// The key for a checkbox changes the mark in the box of the task that the cursor is in,
/// from none to an `x` and from one to none, and nothing else.
pub proof fn law_checkbox_key_changes_mark(v: EditorView, near: Near, info: ListInfo, i: int)
    requires
        v.wf(),
        !v.readonly,
        v.mode == Mode::Rendered,
        v.list() == Some(info),
        v.list_item() == Some(i),
        info.items@[i].task is Some,
        v.bytes().len() <= usize::MAX,
    ensures
        ({
            let w = v.action_made(Action::ToggleCheckbox, near).state;
            let b = v.bytes();
            let k = info.items@[i].content_start - 3;
            &&& w.bytes() == b.update(
                k,
                if info.items@[i].task == Some(true) {
                    32u8
                } else {
                    120u8
                },
            )
            &&& w.cursor_byte() == v.cursor_byte()
        }),
{
    let b = v.bytes();
    let c = v.cursor_byte();
    encode_utf8_valid_utf8(v.text);
    rope::lemma_part_bytes(v.text, 0, v.cursor.offset as int);
    rope::lemma_offset_is_boundary(v.text, v.cursor.offset as int);
    assert(parse::is_list_at(info, b, c));
    edit::lemma_item_index(info, c);
    edit::lemma_items_in_list(b, info, i);
    let item = info.items@[i];
    assert(parse::item_wf(b, item));
    edit_fits::law_list_edits_fit(b, info, c, 0);
    let e = edit::toggled(b, info, c)->0;
    let t = toggle::after(b, e);
    let k = e.offset;
    growth::lemma_ascii_valid(e.inserted);
    assert(t =~= b.update(k, e.inserted[0]));
    valid_utf8_split(b, k);
    text::lemma_boundary(b, k + 1);
    valid_utf8_split(b, k + 1);
    valid_utf8_concat(b.subrange(0, k), e.inserted);
    valid_utf8_concat(b.subrange(0, k) + e.inserted, b.subrange(k + 1, b.len() as int));
    assert(is_char_boundary(t, c)) by {
        if c == 0 || c == b.len() {
            text::lemma_boundary(t, c);
        } else if c == k {
            assert(t[c] < 0x80);
            text::lemma_boundary(t, c);
        } else {
            is_char_boundary_iff_not_is_continuation_byte(b, c);
            is_char_boundary_iff_not_is_continuation_byte(t, c);
        }
    }
    lemma_list_edited(v, e);
    reveal(EditorView::edit_made);
}

/// In a list the keys for left and right step over the markers: from the end of an item's
/// line to the text of the next item, and from the start of an item's text to the end of
/// the line of the one before; and they step by a character elsewhere.
pub proof fn law_steps_pass_markers(v: EditorView, near: Near, info: ListInfo, i: int)
    requires
        v.wf(),
        v.mode == Mode::Rendered,
        near.cell is None,
        v.list() == Some(info),
        v.list_item() == Some(i),
        v.text.len() <= usize::MAX,
        v.bytes().len() <= usize::MAX,
    ensures
        ({
            let left = v.action_made(Action::MoveLeft, near).state;
            let right = v.action_made(Action::MoveRight, near).state;
            let item = info.items@[i];
            let c = v.cursor_byte();
            &&& c == item.line_end && item.end <= item.line_end + 1 && i + 1 < info.items@.len()
                ==> right.cursor_byte() == info.items@[i + 1].content_start
            &&& item.start <= c <= item.content_start && i > 0 ==> left.cursor_byte()
                == info.items@[i - 1].line_end
            &&& item.content_start < c <= item.line_end ==> left.cursor.offset
                == graphemes::prev_boundary(v.text, v.cursor.offset as int)
            &&& c < item.line_end ==> right.cursor.offset == graphemes::next_boundary(
                v.text,
                v.cursor.offset as int,
            )
        }),
{
    let b = v.bytes();
    let c = v.cursor_byte();
    encode_utf8_valid_utf8(v.text);
    rope::lemma_encode_len(v.text);
    rope::lemma_part_bytes(v.text, 0, v.cursor.offset as int);
    assert(parse::is_list_at(info, b, c));
    edit::lemma_item_index(info, c);
    assert(parse::item_wf(b, info.items@[i]));
    if i + 1 < info.items@.len() {
        assert(parse::item_wf(b, info.items@[i + 1]));
        rope::lemma_boundary_is_offset(v.text, info.items@[i + 1].content_start as int);
    }
    if i > 0 {
        assert(parse::item_wf(b, info.items@[i - 1]));
        rope::lemma_boundary_is_offset(v.text, info.items@[i - 1].line_end as int);
    }
    let e = v.selecting(None);
    assert(e.text == v.text && e.cursor == v.cursor && e.mode == v.mode && e.list() == v.list()
        && e.list_item() == v.list_item()) by {
        reveal(EditorView::selecting);
    }
    lemma_stepped(v, near, false);
    lemma_stepped(v, near, true);
    lemma_at_byte(v, e);
    reveal(EditorView::at);
}

/// Where the keys for left and right lead in the rendered view.
proof fn lemma_stepped(v: EditorView, near: Near, forward: bool)
    requires
        v.mode == Mode::Rendered,
        near.cell is None,
    ensures
        ({
            let a = if forward {
                Action::MoveRight
            } else {
                Action::MoveLeft
            };
            let w = v.action_made(a, near).state;
            let e = v.selecting(None);
            e.list_step(forward) matches Some(u) ==> w.cursor.offset == u.cursor.offset && w.text
                == u.text
        }),
{
    reveal(EditorView::move_made);
    reveal(EditorView::moved_sideways);
    reveal(EditorView::aimed_at);
    reveal(EditorView::followed);
}

/// A cursor that is put to a byte at which a character begins is there.
proof fn lemma_at_byte(v: EditorView, e: EditorView)
    requires
        e.text == v.text,
        v.text.len() <= usize::MAX,
    ensures
        forall|byte: int|
            0 <= byte <= v.bytes().len() && is_char_boundary(v.bytes(), byte) ==> (
            #[trigger] e.at_byte(byte)).cursor_byte() == byte && e.at_byte(byte).text == v.text,
{
    encode_utf8_valid_utf8(v.text);
    assert forall|byte: int|
        0 <= byte <= v.bytes().len() && is_char_boundary(v.bytes(), byte) implies (
    #[trigger] e.at_byte(byte)).cursor_byte() == byte && e.at_byte(byte).text == v.text by {
        rope::lemma_boundary_is_offset(v.text, byte);
        reveal(EditorView::at);
    }
}

} // verus!
