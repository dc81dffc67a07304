//! Edits as deltas, and the undo and redo stacks made of them.

use crate::document::buffer;
use crate::document::buffer::Buffer;
use crate::text;
use vstd::prelude::*;
use vstd::string::*;
use vstd::utf8::*;

verus! {

broadcast use {vstd::utf8::encode_utf8_valid_utf8, vstd::utf8::encode_utf8_decode_utf8};

/// One atomic edit: at `offset`, the text `removed` gave way to `inserted`.
///
/// `offset` counts characters in every delta that reaches [`History`] or a
/// buffer, and bytes in the deltas that are composed on a text snapshot
/// ([`EditDelta::diff`], [`EditDelta::apply_to_string`] and the list edits).
#[derive(Debug, Clone, PartialEq, Eq)]
pub struct EditDelta {
    pub offset: usize,
    pub removed: String,
    pub inserted: String,
}

/// An edit over characters.
pub struct Delta {
    pub offset: int,
    pub removed: Seq<char>,
    pub inserted: Seq<char>,
}

impl View for EditDelta {
    type V = Delta;

    open spec fn view(&self) -> Delta {
        Delta { offset: self.offset as int, removed: self.removed@, inserted: self.inserted@ }
    }
}

/// What `text` becomes when, at `offset`, as many characters as `out` has give
/// way to `with`. No more is taken out than there is.
pub open spec fn exchanged(text: Seq<char>, offset: int, out: Seq<char>, with: Seq<char>) -> Seq<
    char,
> {
    let end = if offset + out.len() <= text.len() {
        offset + out.len()
    } else {
        text.len() as int
    };
    buffer::spliced(text, offset, end, with)
}

impl Delta {
    /// The text after the edit.
    pub open spec fn redone(self, text: Seq<char>) -> Seq<char> {
        exchanged(text, self.offset, self.removed, self.inserted)
    }

    /// The text before the edit.
    pub open spec fn undone(self, text: Seq<char>) -> Seq<char> {
        exchanged(text, self.offset, self.inserted, self.removed)
    }

    /// What the edit removes stands in `text` at its offset.
    pub open spec fn fits(self, text: Seq<char>) -> bool {
        &&& 0 <= self.offset
        &&& self.offset + self.removed.len() <= text.len()
        &&& text.subrange(self.offset, self.offset + self.removed.len()) == self.removed
    }
}

/// Undoing an edit gives back the text that the edit was made on.
pub proof fn law_undo_restores(d: Delta, text: Seq<char>)
    requires
        d.fits(text),
    ensures
        d.undone(d.redone(text)) == text,
{
    let after = d.redone(text);
    assert(after.len() == text.len() - d.removed.len() + d.inserted.len());
    assert forall|i: int| 0 <= i < text.len() implies #[trigger] d.undone(after)[i] == text[i] by {
        if d.offset <= i < d.offset + d.removed.len() {
            assert(text.subrange(d.offset, d.offset + d.removed.len())[i - d.offset] == text[i]);
        }
    }
    assert(d.undone(after) =~= text);
}

/// Redoing an edit that was undone gives the edited text again.
pub proof fn law_redo_restores(d: Delta, text: Seq<char>)
    requires
        d.fits(text),
    ensures
        d.redone(d.undone(d.redone(text))) == d.redone(text),
{
    law_undo_restores(d, text);
}

/// The edit that two edits make when one goes on where the other ended: two
/// insertions in a row, a deletion directly before the first one, or one at the
/// same place.
pub open spec fn merged(top: Delta, new: Delta) -> Option<Delta> {
    if top.removed.len() == 0 && new.removed.len() == 0 {
        if new.inserted.len() > 0 && new.offset == top.offset + top.inserted.len() {
            Some(Delta { inserted: top.inserted + new.inserted, ..top })
        } else {
            None
        }
    } else if top.inserted.len() == 0 && new.inserted.len() == 0 {
        if new.removed.len() == 0 {
            None
        } else if new.offset + new.removed.len() == top.offset {
            Some(Delta { offset: new.offset, removed: new.removed + top.removed, ..top })
        } else if new.offset == top.offset {
            Some(Delta { removed: top.removed + new.removed, ..top })
        } else {
            None
        }
    } else {
        None
    }
}

/// A merged edit does what its two edits do one after the other, so that
/// undoing it once undoes both.
pub proof fn law_merge_keeps_text(top: Delta, new: Delta, text: Seq<char>)
    requires
        top.fits(text),
        new.fits(top.redone(text)),
        merged(top, new) is Some,
    ensures
        merged(top, new)->0.fits(text),
        merged(top, new)->0.redone(text) == new.redone(top.redone(text)),
        merged(top, new)->0.undone(new.redone(top.redone(text))) == text,
{
    let m = merged(top, new)->0;
    let mid = top.redone(text);
    let after = new.redone(mid);
    if top.removed.len() == 0 && new.removed.len() == 0 {
        assert(text.subrange(m.offset, m.offset) =~= m.removed);
        assert(m.redone(text) =~= after);
    } else {
        assert(new.removed =~= mid.subrange(new.offset, new.offset + new.removed.len()));
        assert(m.removed =~= text.subrange(m.offset, m.offset + m.removed.len())) by {
            assert forall|i: int| 0 <= i < m.removed.len() implies m.removed[i] == text[m.offset
                + i] by {
                if new.offset + new.removed.len() == top.offset {
                    if i < new.removed.len() {
                        assert(new.removed[i] == mid[new.offset + i]);
                    } else {
                        assert(top.removed[i - new.removed.len()] == text.subrange(
                            top.offset,
                            top.offset + top.removed.len(),
                        )[i - new.removed.len()]);
                    }
                } else {
                    if i < top.removed.len() {
                        assert(top.removed[i] == text.subrange(
                            top.offset,
                            top.offset + top.removed.len(),
                        )[i]);
                    } else {
                        assert(new.removed[i - top.removed.len()] == mid[new.offset + i
                            - top.removed.len()]);
                    }
                }
            }
        }
        assert(m.redone(text) =~= after);
    }
    law_undo_restores(m, text);
}

// ── Deltas over bytes ────────────────────────────────────────────────────
/// The first index at or after `i` at which `a` and `b` differ or one ends.
pub open spec fn common_prefix(a: Seq<u8>, b: Seq<u8>, i: int) -> int
    decreases a.len() - i,
{
    if 0 <= i < a.len() && i < b.len() && a[i] == b[i] {
        common_prefix(a, b, i + 1)
    } else {
        i
    }
}

/// How many of the last bytes of `a` and `b` are the same, at least `s` and at
/// most `max`.
pub open spec fn common_suffix(a: Seq<u8>, b: Seq<u8>, max: int, s: int) -> int
    decreases max - s,
{
    if 0 <= s < max && a[a.len() - 1 - s] == b[b.len() - 1 - s] {
        common_suffix(a, b, max, s + 1)
    } else {
        s
    }
}

/// The last edge of a character at or before `p`.
pub open spec fn edge_before(b: Seq<u8>, p: int) -> int
    decreases p,
{
    if p <= 0 || is_char_boundary(b, p) {
        p
    } else {
        edge_before(b, p - 1)
    }
}

/// The largest number of last bytes, at most `s`, that are whole characters.
pub open spec fn whole_suffix(b: Seq<u8>, s: int) -> int
    decreases s,
{
    if s <= 0 || is_char_boundary(b, b.len() - s) {
        s
    } else {
        whole_suffix(b, s - 1)
    }
}

/// How many first bytes of `old` and `new` a delta leaves out: the same ones, as
/// whole characters.
pub open spec fn kept_prefix(old_b: Seq<u8>, new_b: Seq<u8>) -> int {
    edge_before(old_b, common_prefix(old_b, new_b, 0))
}

/// How many last bytes of `old` and `new` a delta leaves out.
pub open spec fn kept_suffix(old_b: Seq<u8>, new_b: Seq<u8>) -> int {
    let p = kept_prefix(old_b, new_b);
    let max = if old_b.len() <= new_b.len() {
        old_b.len() - p
    } else {
        new_b.len() - p
    };
    whole_suffix(old_b, common_suffix(old_b, new_b, max, 0))
}

impl EditDelta {
    /// The delta can be applied to a text with these bytes: what it removes is a
    /// range of whole characters.
    pub open spec fn fits_bytes(self, b: Seq<u8>) -> bool {
        text::sliceable(b, self.offset as int, self.offset + encode_utf8(self.removed@).len())
    }

    /// The bytes that a text becomes.
    pub open spec fn applied(self, b: Seq<u8>) -> Seq<u8> {
        b.take(self.offset as int) + encode_utf8(self.inserted@) + b.skip(
            self.offset + encode_utf8(self.removed@).len(),
        )
    }

    /// The cursor after an undo: behind what was put back.
    pub fn undo_cursor(&self) -> (r: usize)
        requires
            self.offset + self.removed@.len() <= usize::MAX,
        ensures
            r == self.offset + self.removed@.len(),
    {
        self.offset + self.removed.as_str().unicode_len()
    }

    /// The cursor after a redo: behind what was put in.
    pub fn redo_cursor(&self) -> (r: usize)
        requires
            self.offset + self.inserted@.len() <= usize::MAX,
        ensures
            r == self.offset + self.inserted@.len(),
    {
        self.offset + self.inserted.as_str().unicode_len()
    }

    /// Applies the delta to `s`; `offset` counts bytes.
    pub fn apply_to_string(&self, s: &str) -> (r: String)
        requires
            self.fits_bytes(s.spec_bytes()),
        ensures
            encode_utf8(r@) == self.applied(s.spec_bytes()),
    {
        let ghost b = s.spec_bytes();
        let len: usize = text::byte_len(s);
        let mut out: String = String::new();
        proof {
            text::lemma_boundary(b, 0);
            text::lemma_boundary(b, len as int);
        }
        text::append_slice(&mut out, s, 0, self.offset);
        text::append_text(&mut out, self.inserted.as_str());
        text::append_slice(
            &mut out,
            s,
            self.offset + text::byte_len(self.removed.as_str()),
            len,
        );
        assert(encode_utf8(out@) =~= self.applied(b));
        out
    }

    /// The smallest byte delta that turns `old_text` into `new_text`: what is
    /// the same at both ends is left out, as whole characters. `None` when the
    /// texts are the same.
    ///
    /// Applied to `old_text`, it gives `new_text`.
    pub fn diff(old_text: &str, new_text: &str) -> (r: Option<Self>)
        ensures
            r is None <==> old_text@ == new_text@,
            r matches Some(d) ==> {
                let o = old_text.spec_bytes();
                let n = new_text.spec_bytes();
                &&& d.offset == kept_prefix(o, n)
                &&& encode_utf8(d.removed@) == o.subrange(
                    kept_prefix(o, n),
                    o.len() - kept_suffix(o, n),
                )
                &&& encode_utf8(d.inserted@) == n.subrange(
                    kept_prefix(o, n),
                    n.len() - kept_suffix(o, n),
                )
                &&& d.fits_bytes(o)
                &&& o.subrange(d.offset as int, d.offset + encode_utf8(d.removed@).len())
                    == encode_utf8(d.removed@)
                &&& d.applied(o) == n
            },
    {
        if text::text_eq(old_text, new_text) {
            return None;
        }
        let ob = old_text.as_bytes();
        let nb = new_text.as_bytes();
        let ghost o = ob@;
        let ghost n = nb@;
        let mut p: usize = 0;
        while p < ob.len() && p < nb.len() && ob[p] == nb[p]
            invariant
                o == ob@,
                n == nb@,
                p <= o.len(),
                p <= n.len(),
                forall|i: int| 0 <= i < p ==> o[i] == n[i],
                common_prefix(o, n, p as int) == common_prefix(o, n, 0),
            decreases o.len() - p,
        {
            p += 1;
        }
        let ghost c = p as int;
        while p > 0 && !old_text.is_char_boundary(p)
            invariant
                o == old_text.spec_bytes(),
                0 <= p <= c <= o.len(),
                c <= n.len(),
                edge_before(o, p as int) == edge_before(o, c),
            decreases p,
        {
            p -= 1;
        }
        proof {
            text::lemma_boundary(o, 0);
            valid_utf8_split(o, p as int);
            assert(o.subrange(0, p as int) =~= n.subrange(0, p as int));
            lemma_edge_of_valid_prefix(n, p as int);
        }
        let max_s: usize = if ob.len() <= nb.len() {
            ob.len() - p
        } else {
            nb.len() - p
        };
        let mut s: usize = 0;
        while s < max_s && ob[ob.len() - 1 - s] == nb[nb.len() - 1 - s]
            invariant
                o == ob@,
                n == nb@,
                s <= max_s <= o.len(),
                max_s <= n.len(),
                forall|i: int|
                    o.len() - s <= i < o.len() ==> #[trigger] o[i] == n[i - o.len() + n.len()],
                common_suffix(o, n, max_s as int, s as int) == common_suffix(
                    o,
                    n,
                    max_s as int,
                    0,
                ),
            decreases max_s - s,
        {
            s += 1;
        }
        let ghost cs = s as int;
        while s > 0 && !old_text.is_char_boundary(ob.len() - s)
            invariant
                o == old_text.spec_bytes(),
                o == ob@,
                0 <= s <= cs <= max_s <= o.len(),
                whole_suffix(o, s as int) == whole_suffix(o, cs),
            decreases s,
        {
            s -= 1;
        }
        proof {
            text::lemma_boundary(o, o.len() as int);
            text::lemma_boundary(n, n.len() as int);
            if s > 0 {
                is_char_boundary_iff_not_is_continuation_byte(o, o.len() - s);
                is_char_boundary_iff_not_is_continuation_byte(n, n.len() - s);
            }
        }
        let removed: String = text::slice(old_text, p, ob.len() - s).to_owned();
        let inserted: String = text::slice(new_text, p, nb.len() - s).to_owned();
        let d = EditDelta { offset: p, removed, inserted };
        proof {
            assert(d.applied(o) =~= n);
        }
        Some(d)
    }
}

/// Where a whole text ends inside a text, a character ends.
proof fn lemma_edge_of_valid_prefix(b: Seq<u8>, p: int)
    requires
        valid_utf8(b),
        0 <= p <= b.len(),
        valid_utf8(b.subrange(0, p)),
    ensures
        is_char_boundary(b, p),
    decreases b.len(),
{
    if p > 0 {
        let head = b.subrange(0, p);
        let k = length_of_first_scalar(b);
        assert(head[0] == b[0]);
        assert(length_of_first_scalar(head) == k);
        assert(k <= p);
        assert(pop_first_scalar(head) =~= pop_first_scalar(b).subrange(0, p - k));
        lemma_edge_of_valid_prefix(pop_first_scalar(b), p - k);
        reveal_with_fuel(is_char_boundary, 2);
    }
}

/// A delta between two texts turns the first into the second.
pub proof fn law_diff_round_trip(d: EditDelta, old_b: Seq<u8>, new_b: Seq<u8>)
    requires
        valid_utf8(old_b),
        valid_utf8(new_b),
        d.offset == kept_prefix(old_b, new_b),
        encode_utf8(d.removed@) == old_b.subrange(
            kept_prefix(old_b, new_b),
            old_b.len() - kept_suffix(old_b, new_b),
        ),
        encode_utf8(d.inserted@) == new_b.subrange(
            kept_prefix(old_b, new_b),
            new_b.len() - kept_suffix(old_b, new_b),
        ),
    ensures
        d.applied(old_b) == new_b,
{
    let c = common_prefix(old_b, new_b, 0);
    lemma_common_prefix(old_b, new_b, 0);
    lemma_edge_before(old_b, c);
    let p = kept_prefix(old_b, new_b);
    let max = if old_b.len() <= new_b.len() {
        old_b.len() - p
    } else {
        new_b.len() - p
    };
    lemma_common_suffix(old_b, new_b, max, 0);
    lemma_whole_suffix(old_b, common_suffix(old_b, new_b, max, 0));
    assert(d.applied(old_b) =~= new_b);
}

/// What a delta between two texts leaves out at both ends are whole characters of both.
pub proof fn lemma_kept_edges(o: Seq<u8>, n: Seq<u8>)
    requires
        valid_utf8(o),
        valid_utf8(n),
    ensures
        text::sliceable(o, kept_prefix(o, n), o.len() - kept_suffix(o, n)),
        text::sliceable(n, kept_prefix(o, n), n.len() - kept_suffix(o, n)),
        o.subrange(0, kept_prefix(o, n)) == n.subrange(0, kept_prefix(o, n)),
        o.subrange(o.len() - kept_suffix(o, n), o.len() as int) == n.subrange(
            n.len() - kept_suffix(o, n),
            n.len() as int,
        ),
{
    let c = common_prefix(o, n, 0);
    lemma_common_prefix(o, n, 0);
    text::lemma_boundary(o, 0);
    text::lemma_boundary(o, o.len() as int);
    text::lemma_boundary(n, n.len() as int);
    lemma_edge_before(o, c);
    let p = kept_prefix(o, n);
    valid_utf8_split(o, p);
    assert(o.subrange(0, p) =~= n.subrange(0, p));
    lemma_edge_of_valid_prefix(n, p);
    let max = if o.len() <= n.len() {
        o.len() - p
    } else {
        n.len() - p
    };
    lemma_common_suffix(o, n, max, 0);
    lemma_whole_suffix(o, common_suffix(o, n, max, 0));
    let s = kept_suffix(o, n);
    assert forall|i: int| o.len() - s <= i < o.len() implies #[trigger] o[i] == n[i - o.len()
        + n.len()] by {}
    if s > 0 {
        is_char_boundary_iff_not_is_continuation_byte(o, o.len() - s);
        is_char_boundary_iff_not_is_continuation_byte(n, n.len() - s);
    }
    assert(o.subrange(o.len() - s, o.len() as int) =~= n.subrange(n.len() - s, n.len() as int));
}

proof fn lemma_common_prefix(a: Seq<u8>, b: Seq<u8>, i: int)
    requires
        0 <= i <= a.len(),
        i <= b.len(),
    ensures
        i <= common_prefix(a, b, i) <= a.len(),
        common_prefix(a, b, i) <= b.len(),
        forall|j: int| i <= j < common_prefix(a, b, i) ==> a[j] == b[j],
    decreases a.len() - i,
{
    if i < a.len() && i < b.len() && a[i] == b[i] {
        lemma_common_prefix(a, b, i + 1);
    }
}

proof fn lemma_common_suffix(a: Seq<u8>, b: Seq<u8>, max: int, s: int)
    requires
        0 <= s <= max <= a.len(),
        max <= b.len(),
    ensures
        s <= common_suffix(a, b, max, s) <= max,
        forall|i: int|
            a.len() - common_suffix(a, b, max, s) <= i < a.len() - s ==> #[trigger] a[i] == b[i
                - a.len() + b.len()],
    decreases max - s,
{
    if s < max && a[a.len() - 1 - s] == b[b.len() - 1 - s] {
        lemma_common_suffix(a, b, max, s + 1);
    }
}

proof fn lemma_edge_before(b: Seq<u8>, p: int)
    requires
        0 <= p,
    ensures
        0 <= edge_before(b, p) <= p,
        edge_before(b, p) == 0 || is_char_boundary(b, edge_before(b, p)),
    decreases p,
{
    if p > 0 && !is_char_boundary(b, p) {
        lemma_edge_before(b, p - 1);
    }
}

proof fn lemma_whole_suffix(b: Seq<u8>, s: int)
    requires
        0 <= s,
    ensures
        0 <= whole_suffix(b, s) <= s,
        whole_suffix(b, s) == 0 || is_char_boundary(b, b.len() - whole_suffix(b, s)),
    decreases s,
{
    if s > 0 && !is_char_boundary(b, b.len() - s) {
        lemma_whole_suffix(b, s - 1);
    }
}

// ── History ──────────────────────────────────────────────────────────────
/// The undo and redo stacks of a document.
///
/// The caller applies an edit to the buffer before it records the delta.
#[derive(Debug, Clone)]
pub struct History {
    undo_stack: Vec<EditDelta>,
    redo_stack: Vec<EditDelta>,
}

/// The edits of a stack, the oldest first.
pub open spec fn deltas(stack: Seq<EditDelta>) -> Seq<Delta> {
    stack.map_values(|d: EditDelta| d@)
}

impl Default for History {
    fn default() -> (r: Self)
        ensures
            r.undo_view() == Seq::<Delta>::empty(),
            r.redo_view() == Seq::<Delta>::empty(),
    {
        let r = History { undo_stack: Vec::new(), redo_stack: Vec::new() };
        assert(r.undo_view() =~= Seq::<Delta>::empty());
        assert(r.redo_view() =~= Seq::<Delta>::empty());
        r
    }
}

impl History {
    /// The edits that can be undone, the oldest first.
    pub closed spec fn undo_view(&self) -> Seq<Delta> {
        deltas(self.undo_stack@)
    }

    /// The edits that can be redone, the one that was undone last at the end.
    pub closed spec fn redo_view(&self) -> Seq<Delta> {
        deltas(self.redo_stack@)
    }

    pub fn new() -> (r: Self)
        ensures
            r.undo_view() == Seq::<Delta>::empty(),
            r.redo_view() == Seq::<Delta>::empty(),
    {
        Self::default()
    }

    /// Records an edit that was made, and forgets the edits that were undone.
    ///
    /// An insertion that goes on where the last one ended, and a deletion that
    /// goes on before or behind the last one, join it.
    pub fn record(&mut self, delta: EditDelta)
        ensures
            final(self).redo_view() == Seq::<Delta>::empty(),
            final(self).undo_view() == recorded(old(self).undo_view(), delta@),
    {
        let ghost u = self.undo_view();
        self.redo_stack = Vec::new();
        assert(self.redo_view() =~= Seq::<Delta>::empty());
        match self.undo_stack.pop() {
            Some(mut top) => {
                let ghost t = top@;
                assert(u.last() == t);
                assert(deltas(self.undo_stack@) =~= u.drop_last());
                if try_merge(&mut top, &delta) {
                    self.undo_stack.push(top);
                    assert(self.undo_view() =~= u.drop_last().push(merged(t, delta@)->0));
                } else {
                    self.undo_stack.push(top);
                    self.undo_stack.push(delta);
                    assert(self.undo_view() =~= u.push(delta@));
                }
            },
            None => {
                self.undo_stack.push(delta);
                assert(self.undo_view() =~= u.push(delta@));
            },
        }
    }

    /// Undoes the last edit and returns where the cursor then stands; `None` if
    /// there is none.
    pub fn undo(&mut self, buf: &mut Buffer) -> (r: Option<usize>)
        requires
            old(self).undo_view().len() > 0 ==> old(self).undo_view().last().offset <= old(
                buf,
            )@.len(),
        ensures
            match r {
                Some(cursor) => {
                    let u = old(self).undo_view();
                    &&& u.len() > 0
                    &&& final(buf)@ == u.last().undone(old(buf)@)
                    &&& cursor == u.last().offset + u.last().removed.len()
                    &&& cursor <= final(buf)@.len()
                    &&& final(self).undo_view() == u.drop_last()
                    &&& final(self).redo_view() == old(self).redo_view().push(u.last())
                },
                None => old(self).undo_view().len() == 0 && *final(self) == *old(self) && *final(buf)
                    == *old(buf),
            },
            final(buf).same_file(old(buf)),
            r is Some ==> final(buf).version_view() == edited_version(
                old(buf).version_view(),
                old(self).undo_view().last().inserted,
                old(self).undo_view().last().removed,
            ),
    {
        let ghost u = self.undo_view();
        let ghost rv = self.redo_view();
        if self.undo_stack.len() == 0 {
            return None;
        }
        match self.undo_stack.pop() {
            Some(delta) => {
                assert(u.last() == delta@);
                let cursor: usize = exchange(
                    buf,
                    delta.offset,
                    delta.inserted.as_str(),
                    delta.removed.as_str(),
                );
                self.redo_stack.push(delta);
                assert(self.undo_view() =~= u.drop_last());
                assert(self.redo_view() =~= rv.push(u.last()));
                Some(cursor)
            },
            None => None,
        }
    }

    /// Redoes the edit that was undone last and returns where the cursor then
    /// stands; `None` if there is none.
    pub fn redo(&mut self, buf: &mut Buffer) -> (r: Option<usize>)
        requires
            old(self).redo_view().len() > 0 ==> old(self).redo_view().last().offset <= old(
                buf,
            )@.len(),
        ensures
            match r {
                Some(cursor) => {
                    let v = old(self).redo_view();
                    &&& v.len() > 0
                    &&& final(buf)@ == v.last().redone(old(buf)@)
                    &&& cursor == v.last().offset + v.last().inserted.len()
                    &&& cursor <= final(buf)@.len()
                    &&& final(self).redo_view() == v.drop_last()
                    &&& final(self).undo_view() == old(self).undo_view().push(v.last())
                },
                None => old(self).redo_view().len() == 0 && *final(self) == *old(self) && *final(buf)
                    == *old(buf),
            },
            final(buf).same_file(old(buf)),
            r is Some ==> final(buf).version_view() == edited_version(
                old(buf).version_view(),
                old(self).redo_view().last().removed,
                old(self).redo_view().last().inserted,
            ),
    {
        let ghost uv = self.undo_view();
        let ghost v = self.redo_view();
        if self.redo_stack.len() == 0 {
            return None;
        }
        match self.redo_stack.pop() {
            Some(delta) => {
                assert(v.last() == delta@);
                let cursor: usize = exchange(
                    buf,
                    delta.offset,
                    delta.removed.as_str(),
                    delta.inserted.as_str(),
                );
                self.undo_stack.push(delta);
                assert(self.redo_view() =~= v.drop_last());
                assert(self.undo_view() =~= uv.push(v.last()));
                Some(cursor)
            },
            None => None,
        }
    }

    /// True iff there is an edit to undo.
    pub fn can_undo(&self) -> (r: bool)
        ensures
            r == (self.undo_view().len() > 0),
    {
        self.undo_stack.len() > 0
    }

    /// True iff there is an edit to redo.
    pub fn can_redo(&self) -> (r: bool)
        ensures
            r == (self.redo_view().len() > 0),
    {
        self.redo_stack.len() > 0
    }

    /// The number of edits that can be undone.
    pub fn undo_depth(&self) -> (n: usize)
        ensures
            n == self.undo_view().len(),
    {
        self.undo_stack.len()
    }

    /// Forgets everything but `delta`, which becomes the one edit to undo.
    pub fn reset_with(&mut self, delta: EditDelta)
        ensures
            final(self).undo_view() == seq![delta@],
            final(self).redo_view() == Seq::<Delta>::empty(),
    {
        self.undo_stack = Vec::new();
        self.redo_stack = Vec::new();
        self.undo_stack.push(delta);
        assert(self.undo_view() =~= seq![delta@]);
        assert(self.redo_view() =~= Seq::<Delta>::empty());
    }
}

/// The version of a buffer after `out` was taken out and `with` put in: each of
/// the two counts, where it is not empty.
pub open spec fn edited_version(version: u64, out: Seq<char>, with: Seq<char>) -> u64 {
    let mid = if out.len() > 0 {
        version.wrapping_add(1)
    } else {
        version
    };
    if with.len() > 0 {
        mid.wrapping_add(1)
    } else {
        mid
    }
}

/// The edits to undo after `new` was recorded on top of `undo`: it joins the last
/// one where the two are one stretch of typing or deleting.
pub open spec fn recorded(undo: Seq<Delta>, new: Delta) -> Seq<Delta> {
    if undo.len() > 0 && merged(undo.last(), new) is Some {
        undo.drop_last().push(merged(undo.last(), new)->0)
    } else {
        undo.push(new)
    }
}

/// The edits `undo` lead to `text`: undoing them one by one gives back each text
/// that an edit was made in.
pub open spec fn undoable(text: Seq<char>, undo: Seq<Delta>) -> bool
    decreases undo.len(),
{
    undo.len() > 0 ==> {
        let d = undo.last();
        let before = d.undone(text);
        &&& 0 <= d.offset <= text.len()
        &&& d.fits(before)
        &&& d.redone(before) == text
        &&& undoable(before, undo.drop_last())
    }
}

/// The edits `redo` can be made in `text` again, the last one first.
pub open spec fn redoable(text: Seq<char>, redo: Seq<Delta>) -> bool
    decreases redo.len(),
{
    redo.len() > 0 ==> {
        let d = redo.last();
        &&& d.fits(text)
        &&& redoable(d.redone(text), redo.drop_last())
    }
}

/// An edit that fits the text leaves a history that can be undone, whether or not
/// it joins the edit before it.
pub proof fn law_record_keeps_history(text: Seq<char>, undo: Seq<Delta>, new: Delta)
    requires
        undoable(text, undo),
        new.fits(text),
    ensures
        undoable(new.redone(text), recorded(undo, new)),
{
    let after = new.redone(text);
    if undo.len() > 0 && merged(undo.last(), new) is Some {
        let top = undo.last();
        let before = top.undone(text);
        let m = merged(top, new)->0;
        law_merge_keeps_text(top, new, before);
        let r = recorded(undo, new);
        assert(r.last() == m);
        assert(r.drop_last() =~= undo.drop_last());
    } else {
        law_undo_restores(new, text);
        let r = recorded(undo, new);
        assert(r.last() == new);
        assert(r.drop_last() =~= undo);
    }
}

/// Undoing an edit leaves a history that can be undone further, and the edit can
/// be made again.
pub proof fn law_undo_keeps_history(text: Seq<char>, undo: Seq<Delta>, redo: Seq<Delta>)
    requires
        undoable(text, undo),
        redoable(text, redo),
        undo.len() > 0,
    ensures
        undoable(undo.last().undone(text), undo.drop_last()),
        redoable(undo.last().undone(text), redo.push(undo.last())),
        undo.last().redone(undo.last().undone(text)) == text,
{
    assert(redo.push(undo.last()).drop_last() =~= redo);
}

/// Making an undone edit again leaves a history that can be undone, and undoing
/// it gives back the text.
pub proof fn law_redo_keeps_history(text: Seq<char>, undo: Seq<Delta>, redo: Seq<Delta>)
    requires
        undoable(text, undo),
        redoable(text, redo),
        redo.len() > 0,
    ensures
        redoable(redo.last().redone(text), redo.drop_last()),
        undoable(redo.last().redone(text), undo.push(redo.last())),
        redo.last().undone(redo.last().redone(text)) == text,
{
    law_undo_restores(redo.last(), text);
    assert(undo.push(redo.last()).drop_last() =~= undo);
}

/// Takes as many characters as `out` has out of `buf` at `offset`, puts `with`
/// in, and returns the offset behind it.
pub fn exchange(buf: &mut Buffer, offset: usize, out: &str, with: &str) -> (end: usize)
    requires
        offset <= old(buf)@.len(),
    ensures
        final(buf)@ == exchanged(old(buf)@, offset as int, out@, with@),
        end == offset + with@.len(),
        end <= final(buf)@.len(),
        final(buf).same_file(old(buf)),
        final(buf).version_view() == edited_version(old(buf).version_view(), out@, with@),
{
    let ghost s = buf@;
    let len: usize = buf.len_chars();
    let n: usize = out.unicode_len();
    if n > 0 {
        let end: usize = if n <= len - offset {
            offset + n
        } else {
            len
        };
        buf.remove(offset, end);
    }
    if !with.is_empty() {
        buf.insert(offset, with);
    }
    assert(buf@ =~= exchanged(s, offset as int, out@, with@));
    let total: usize = buf.len_chars();
    assert(total == buf@.len());
    offset + with.unicode_len()
}

/// Joins `new` to `top` if it goes on where `top` ended; `top` is unchanged
/// otherwise.
pub(crate) fn try_merge(top: &mut EditDelta, new: &EditDelta) -> (r: bool)
    ensures
        match merged(old(top)@, new@) {
            Some(m) => r && final(top)@ == m,
            None => !r && final(top)@ == old(top)@,
        },
{
    if top.removed.as_str().is_empty() && new.removed.as_str().is_empty() {
        return try_merge_insertion(top, new);
    }
    if top.inserted.as_str().is_empty() && new.inserted.as_str().is_empty() {
        return try_merge_deletion(top, new);
    }
    false
}

fn try_merge_insertion(top: &mut EditDelta, new: &EditDelta) -> (r: bool)
    requires
        old(top).removed@.len() == 0,
        new.removed@.len() == 0,
    ensures
        match merged(old(top)@, new@) {
            Some(m) => r && final(top)@ == m,
            None => !r && final(top)@ == old(top)@,
        },
{
    if new.inserted.as_str().is_empty() {
        return false;
    }
    let count: usize = top.inserted.as_str().unicode_len();
    if new.offset < top.offset || new.offset - top.offset != count {
        return false;
    }
    top.inserted.append(new.inserted.as_str());
    true
}

fn try_merge_deletion(top: &mut EditDelta, new: &EditDelta) -> (r: bool)
    requires
        old(top).inserted@.len() == 0,
        new.inserted@.len() == 0,
        old(top).removed@.len() > 0 || new.removed@.len() > 0,
    ensures
        match merged(old(top)@, new@) {
            Some(m) => r && final(top)@ == m,
            None => !r && final(top)@ == old(top)@,
        },
{
    if new.removed.as_str().is_empty() {
        return false;
    }
    let count: usize = new.removed.as_str().unicode_len();
    if new.offset <= top.offset && top.offset - new.offset == count {
        let mut joined: String = new.removed.clone();
        joined.append(top.removed.as_str());
        top.removed = joined;
        top.offset = new.offset;
        return true;
    }
    if new.offset == top.offset {
        top.removed.append(new.removed.as_str());
        return true;
    }
    false
}

} // verus!
