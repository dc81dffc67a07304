//! What holds of all list edits.

use crate::editor::list_edit::edit;
use crate::editor::list_edit::edit::ListEdit;
use crate::editor::list_edit::parse;
use crate::editor::list_edit::parse::ListInfo;
use crate::editor::list_edit::toggle;
use crate::text;
use vstd::prelude::*;
use vstd::utf8::*;

verus! {

/// What an edit takes out stands in the text where the edit is made, between whole
/// characters.
pub open spec fn edit_fits(b: Seq<u8>, e: ListEdit) -> bool {
    &&& text::sliceable(b, e.offset, e.offset + e.removed.len())
    &&& b.subrange(e.offset, e.offset + e.removed.len()) == e.removed
}

/// An edit, if there is one, fits.
pub open spec fn option_fits(b: Seq<u8>, e: Option<ListEdit>) -> bool {
    e matches Some(x) ==> edit_fits(b, x)
}

/// Every list edit takes out text that stands where the edit is made: undoing it
/// puts back what was there.
pub proof fn law_list_edits_fit(b: Seq<u8>, info: ListInfo, cursor: int, width: nat)
    requires
        valid_utf8(b),
        info.wf(b),
        is_char_boundary(b, cursor),
    ensures
        option_fits(b, edit::continued(b, info, cursor)),
        option_fits(b, edit::exited(b, info, cursor)),
        option_fits(b, edit::spaced_out(b, info, cursor)),
        option_fits(b, edit::toggled(b, info, cursor)),
        option_fits(b, edit::nested(b, info, cursor, width)),
        option_fits(b, edit::unnested(b, info, cursor, width)),
{
    match parse::item_index(info, cursor) {
        Some(i) => {
            edit::lemma_item_index(info, cursor);
            edit::lemma_items_in_list(b, info, i);
            let item = info.items@[i];
            assert(parse::item_wf(b, item));
            match item.task_box {
                Some(k) => {
                    text::lemma_boundary(b, k + 1);
                    text::lemma_boundary(b, k + 2);
                    assert(b.subrange(k + 1, k + 2) =~= seq![b[k + 1]]);
                },
                None => {},
            }
            assert(b.subrange(item.start as int, item.start as int) =~= Seq::<u8>::empty());
        },
        None => {},
    }
}

/// Widening the gap above an item is owed to an empty item that holds the cursor, and to
/// no other. It puts one line feed in front of the item, moves the cursor with the item,
/// and leaves a blank line above it.
pub proof fn law_spacing_out_puts_a_blank_line(b: Seq<u8>, info: ListInfo, cursor: int)
    requires
        info.wf(b),
    ensures
        edit::spaced_out(b, info, cursor) is Some <==> (parse::item_index(info, cursor) matches Some(
            i,
        ) && edit::empty_item(b, info.items@[i])),
        edit::spaced_out(b, info, cursor) matches Some(e) ==> {
            let a = info.items@[parse::item_index(info, cursor)->0].start as int;
            let t = toggle::after(b, e);
            &&& t == b.subrange(0, a) + seq![text::NEWLINE] + b.subrange(a, b.len() as int)
            &&& e.cursor == cursor + 1
            &&& edit::blank_above(t, a + 1)
        },
{
    match edit::spaced_out(b, info, cursor) {
        Some(e) => {
            edit::lemma_item_index(info, cursor);
            let i = parse::item_index(info, cursor)->0;
            let a = info.items@[i].start as int;
            let t = toggle::after(b, e);
            assert(parse::item_wf(b, info.items@[i]));
            assert(t =~= b.subrange(0, a) + seq![text::NEWLINE] + b.subrange(a, b.len() as int));
            if a > 0 {
                assert(t[a - 1] == b[a - 1]);
            }
            assert(text::line_start(t, a) == a);
            assert(t.subrange(a, a) =~= Seq::<u8>::empty());
            assert(decode_utf8(t.subrange(a, a)) =~= Seq::<char>::empty());
        },
        None => {},
    }
}

/// Two descriptions of the list at one place are the same in all that edits read.
pub proof fn lemma_same_list(x: ListInfo, y: ListInfo, b: Seq<u8>, cursor: int)
    requires
        parse::is_list_at(x, b, cursor),
        parse::is_list_at(y, b, cursor),
    ensures
        x.start == y.start,
        x.end == y.end,
        x.kind == y.kind,
        x.indent@ == y.indent@,
        x.items@ == y.items@,
{
    text::lemma_encode_injective(x.indent@, y.indent@);
}

proof fn lemma_same_run(
    x: ListInfo,
    y: ListInfo,
    b: Seq<u8>,
    k: int,
    i: int,
    counter: u64,
    width: nat,
    cursor: int,
)
    requires
        x.kind == y.kind,
        x.indent@ == y.indent@,
        x.items@ == y.items@,
        0 <= k,
    ensures
        edit::indented_run(b, x, k, i, counter, width) == edit::indented_run(
            b,
            y,
            k,
            i,
            counter,
            width,
        ),
        k <= i ==> edit::indented_run_cursor(b, x, k, i, counter, width, cursor)
            == edit::indented_run_cursor(b, y, k, i, counter, width, cursor),
    decreases x.items@.len() - k,
{
    if k < x.items@.len() {
        lemma_same_run(
            x,
            y,
            b,
            k + 1,
            i,
            if k == i {
                counter
            } else {
                counter.wrapping_add(1)
            },
            width,
            cursor,
        );
    } else if k < i {
        lemma_same_cursor(x, y, b, k, i, counter, width, cursor);
    }
}

proof fn lemma_same_cursor(
    x: ListInfo,
    y: ListInfo,
    b: Seq<u8>,
    k: int,
    i: int,
    counter: u64,
    width: nat,
    cursor: int,
)
    requires
        x.kind == y.kind,
        x.indent@ == y.indent@,
        x.items@ == y.items@,
        0 <= k <= i,
    ensures
        edit::indented_run_cursor(b, x, k, i, counter, width, cursor)
            == edit::indented_run_cursor(b, y, k, i, counter, width, cursor),
    decreases i - k,
{
    if k < i {
        lemma_same_cursor(x, y, b, k + 1, i, counter.wrapping_add(1), width, cursor);
    }
}

/// The edits of two descriptions of one list are the same.
pub proof fn lemma_same_edits(
    x: ListInfo,
    y: ListInfo,
    b: Seq<u8>,
    at: int,
    cursor: int,
    width: nat,
)
    requires
        parse::is_list_at(x, b, at),
        parse::is_list_at(y, b, at),
    ensures
        parse::item_index(x, cursor) == parse::item_index(y, cursor),
        edit::continued(b, x, cursor) == edit::continued(b, y, cursor),
        edit::exited(b, x, cursor) == edit::exited(b, y, cursor),
        edit::spaced_out(b, x, cursor) == edit::spaced_out(b, y, cursor),
        edit::toggled(b, x, cursor) == edit::toggled(b, y, cursor),
        edit::nested(b, x, cursor, width) == edit::nested(b, y, cursor, width),
        edit::unnested(b, x, cursor, width) == edit::unnested(b, y, cursor, width),
{
    lemma_same_list(x, y, b, at);
    match parse::item_index(x, cursor) {
        Some(i) => {
            edit::lemma_item_index(x, cursor);
            lemma_same_run(x, y, b, 0, i, edit::first_number(x), width, cursor);
        },
        None => {},
    }
}

} // verus!
