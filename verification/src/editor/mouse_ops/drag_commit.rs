//! What the end of a drag, or a click on a handle, does to a table.

use crate::document::history;
use crate::document::history::EditDelta;
use crate::editor::blink;
use crate::editor::state;
use crate::editor::state::{EditorState, EditorView};
use crate::text;
use vstd::prelude::*;
use vstd::string::*;
use vstd::utf8::*;

verus! {

broadcast use {vstd::utf8::encode_utf8_valid_utf8, vstd::utf8::encode_utf8_decode_utf8};

/// For so long, in milliseconds, after a row or a column was deleted, a click on the
/// same button is the second half of a double click and deletes nothing.
pub const TABLE_DELETE_COOLDOWN: u64 = 250;

/// The swaps of neighbours that take what is at `src` to `dst`.
pub open spec fn path(src: int, dst: int) -> Seq<(int, int)> {
    if src <= dst {
        Seq::new((dst - src) as nat, |i: int| (src + i, src + i + 1))
    } else {
        Seq::new((src - dst) as nat, |i: int| (src - i, src - i - 1))
    }
}

/// Pairs as numbers.
pub open spec fn pair_views(pairs: Seq<(usize, usize)>) -> Seq<(int, int)> {
    pairs.map_values(|p: (usize, usize)| (p.0 as int, p.1 as int))
}

/// The bytes that the first `n` of `swaps` make of `b`, one after the other.
pub open spec fn composed(b: Seq<u8>, swaps: Seq<EditDelta>, n: int) -> Seq<u8>
    decreases n,
{
    if n <= 0 {
        b
    } else {
        swaps[n - 1].applied(composed(b, swaps, n - 1))
    }
}

/// Each swap can be made on what the swaps before it leave.
pub open spec fn swaps_fit(b: Seq<u8>, swaps: Seq<EditDelta>) -> bool {
    forall|i: int|
        0 <= i < swaps.len() ==> (#[trigger] swaps[i]).fits_bytes(composed(b, swaps, i))
}

/// The one edit, with its offset in bytes, that turns `old_b` into `new_b`.
pub open spec fn one_edit(old_b: Seq<u8>, new_b: Seq<u8>) -> history::Delta {
    let p = history::kept_prefix(old_b, new_b);
    let s = history::kept_suffix(old_b, new_b);
    history::Delta {
        offset: p,
        removed: decode_utf8(old_b.subrange(p, old_b.len() - s)),
        inserted: decode_utf8(new_b.subrange(p, new_b.len() - s)),
    }
}

impl EditorView {
    /// The state with the swaps made as one edit that is undone at once. The cursor
    /// keeps its place.
    pub open spec fn swapped(self, swaps: Seq<EditDelta>) -> EditorView {
        let b = state::bytes_of(self.text);
        let n = composed(b, swaps, swaps.len() as int);
        if n == b {
            self
        } else {
            let w = self.edited(state::in_chars(self.text, one_edit(b, n)));
            w.at(state::least(self.cursor.offset as int, w.text.len() as int)).aimed().followed()
        }
    }

    /// A row dragged from `src` to `dst`, counted with the header and the dashes,
    /// which stay.
    pub open spec fn row_dragged(self, src: int, dst: int, swaps: Seq<EditDelta>) -> EditorView {
        if src == dst || src < 2 || dst < 2 {
            self
        } else {
            self.swapped(swaps)
        }
    }

    /// A column dragged from `src` to `dst`.
    pub open spec fn column_dragged(self, src: int, dst: int, swaps: Seq<EditDelta>) -> EditorView {
        if src == dst {
            self
        } else {
            self.swapped(swaps)
        }
    }

    /// The end of the drag of a border: the new widths wait to be written, if there
    /// are any.
    pub open spec fn border_dropped(self, table: usize) -> EditorView {
        if self.live_widths matches Some(l) && l.0 == table {
            self.with_pending_widths(Some(table))
        } else {
            self.with_live_widths(None).refreshed()
        }
    }

    /// A click on a button that deletes is a request to delete.
    pub open spec fn delete_allowed(self) -> bool {
        self.deleted_at matches Some(t) ==> blink::elapsed(t, self.now) >= TABLE_DELETE_COOLDOWN
    }

    /// The state with the time noted at which a part of a table was deleted.
    pub open spec fn stamped(self) -> EditorView {
        EditorView { deleted_at: Some(self.now), ..self }
    }

    /// A row or a column deleted by a click. Nothing happens where the table layer
    /// gives no edit for it.
    pub open spec fn part_deleted(self, d: Option<history::Delta>) -> EditorView {
        match d {
            Some(d) => self.selecting(None).edited(
                state::in_chars(self.text, d),
            ).stamped().followed(),
            None => self,
        }
    }
}

/// The swaps of neighbours that take what is at `src` to `dst`.
pub fn drag_path(src: usize, dst: usize) -> (r: Vec<(usize, usize)>)
    ensures
        pair_views(r@) == path(src as int, dst as int),
{
    let mut out: Vec<(usize, usize)> = Vec::new();
    let mut cur: usize = src;
    while cur != dst
        invariant
            src <= dst ==> src <= cur <= dst && out@.len() == cur - src,
            src > dst ==> dst <= cur <= src && out@.len() == src - cur,
            forall|i: int|
                0 <= i < out@.len() ==> (#[trigger] out@[i].0 as int, out@[i].1 as int) == path(
                    src as int,
                    dst as int,
                )[i],
        decreases if cur < dst {
            dst - cur
        } else {
            cur - dst
        },
    {
        let step: usize = if cur < dst {
            cur + 1
        } else {
            cur - 1
        };
        out.push((cur, step));
        cur = step;
    }
    assert(pair_views(out@) =~= path(src as int, dst as int));
    out
}

impl EditorState {
    /// Makes swaps of neighbours, which the table layer gives one after the other, as
    /// one edit. Where the table layer refuses one, those before it are made; where
    /// it refuses all, nothing is recorded.
    pub fn commit_swap_chain(&mut self, swaps: &[EditDelta])
        requires
            old(self).wf(),
            swaps_fit(state::bytes_of(old(self)@.text), swaps@),
        ensures
            final(self)@ == old(self)@.swapped(swaps@),
            final(self).wf(),
    {
        let ghost v = self@;
        let ghost b = state::bytes_of(v.text);
        let original: String = self.buffer().contents();
        let mut text_now: String = self.buffer().contents();
        let mut i: usize = 0;
        while i < swaps.len()
            invariant
                i <= swaps@.len(),
                swaps_fit(b, swaps@),
                encode_utf8(text_now@) == composed(b, swaps@, i as int),
            decreases swaps@.len() - i,
        {
            assert(swaps@[i as int].fits_bytes(composed(b, swaps@, i as int)));
            text_now = swaps[i].apply_to_string(text_now.as_str());
            i += 1;
        }
        let ghost n = composed(b, swaps@, swaps@.len() as int);
        match EditDelta::diff(original.as_str(), text_now.as_str()) {
            None => {},
            Some(d) => {
                proof {
                    if n == b {
                        text::lemma_encode_injective(original@, text_now@);
                    }
                    encode_utf8_decode_utf8(d.removed@);
                    encode_utf8_decode_utf8(d.inserted@);
                    assert(d@ == one_edit(b, n));
                    assert(state::stands_at_byte(v.text, d@));
                }
                let saved: usize = self.cursor().offset;
                self.apply_byte_edit(d);
                let len: usize = self.buffer().len_chars();
                self.put_cursor(
                    if saved <= len {
                        saved
                    } else {
                        len
                    },
                );
                self.aim();
                self.update_cursor_block();
            },
        }
    }

    /// Ends the drag of a row.
    pub fn commit_row_drag(&mut self, src_idx: usize, dst_idx: usize, swaps: &[EditDelta])
        requires
            old(self).wf(),
            swaps_fit(state::bytes_of(old(self)@.text), swaps@),
        ensures
            final(self)@ == old(self)@.row_dragged(src_idx as int, dst_idx as int, swaps@),
            final(self).wf(),
    {
        if src_idx == dst_idx || src_idx < 2 || dst_idx < 2 {
            return ;
        }
        self.commit_swap_chain(swaps);
    }

    /// Ends the drag of a column.
    pub fn commit_column_drag(&mut self, src_idx: usize, dst_idx: usize, swaps: &[EditDelta])
        requires
            old(self).wf(),
            swaps_fit(state::bytes_of(old(self)@.text), swaps@),
        ensures
            final(self)@ == old(self)@.column_dragged(src_idx as int, dst_idx as int, swaps@),
            final(self).wf(),
    {
        if src_idx == dst_idx {
            return ;
        }
        self.commit_swap_chain(swaps);
    }

    /// Ends the drag of a border: the new widths wait to be written, so that a warning
    /// can come first.
    pub fn commit_column_border_drag(&mut self, table_byte_start: usize)
        requires
            old(self).wf(),
        ensures
            final(self)@ == old(self)@.border_dropped(table_byte_start),
            final(self).wf(),
    {
        let ours: bool = match self.live_table_widths() {
            Some(l) => l.0 == table_byte_start,
            None => false,
        };
        if ours {
            self.set_pending_widths(Some(table_byte_start));
        } else {
            self.set_live_widths(None);
            self.refresh_parsed();
        }
    }

    /// True iff a click on a button that deletes is a request to delete.
    pub fn table_delete_allowed(&self) -> (r: bool)
        ensures
            r == self@.delete_allowed(),
    {
        let f = self.facts();
        match f.deleted_at {
            Some(t) => blink::has_elapsed(t, f.now, TABLE_DELETE_COOLDOWN),
            None => true,
        }
    }

    /// Deletes a row or a column by a click. The table layer gives the edit, with its
    /// offset in bytes, if there is one.
    fn delete_table_part(&mut self, delta: Option<EditDelta>)
        requires
            old(self).wf(),
            delta matches Some(d) ==> state::stands_at_byte(old(self)@.text, d@),
        ensures
            final(self)@ == old(self)@.part_deleted(
                match delta {
                    Some(d) => Some(d@),
                    None => None,
                },
            ),
            final(self).wf(),
    {
        let ghost v = self@;
        match delta {
            None => {},
            Some(d) => {
                self.select(None);
                assert(self@.text == v.text) by {
                    reveal(EditorView::selecting);
                }
                self.apply_byte_edit(d);
                let now: u64 = self.facts().now;
                self.set_deleted_at(Some(now));
                self.update_cursor_block();
            },
        }
    }

    /// Deletes a row by a click; see [`EditorView::part_deleted`].
    pub fn delete_table_row_at(&mut self, delta: Option<EditDelta>)
        requires
            old(self).wf(),
            delta matches Some(d) ==> state::stands_at_byte(old(self)@.text, d@),
        ensures
            final(self)@ == old(self)@.part_deleted(
                match delta {
                    Some(d) => Some(d@),
                    None => None,
                },
            ),
            final(self).wf(),
    {
        self.delete_table_part(delta);
    }

    /// Deletes a column by a click; see [`EditorView::part_deleted`].
    pub fn delete_table_column_at(&mut self, delta: Option<EditDelta>)
        requires
            old(self).wf(),
            delta matches Some(d) ==> state::stands_at_byte(old(self)@.text, d@),
        ensures
            final(self)@ == old(self)@.part_deleted(
                match delta {
                    Some(d) => Some(d@),
                    None => None,
                },
            ),
            final(self).wf(),
    {
        self.delete_table_part(delta);
    }
}

} // verus!
