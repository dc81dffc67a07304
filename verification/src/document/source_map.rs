//! The map between rendered lines and the source.

use std::ops::Range;
use vstd::prelude::*;

verus! {

/// Maps rendered lines to the byte ranges of their source.
///
/// A document is a row of blocks. Each rendered line belongs to a block, and
/// each byte of the source is owned by one.
#[derive(Debug, Clone)]
pub struct SourceMap {
    rendered_to_block: Vec<usize>,
    extended_ranges: Vec<Range<usize>>,
    original_ranges: Vec<Range<usize>>,
    block_to_rendered_range: Vec<Range<usize>>,
    /// The length of the source in bytes.
    pub total_bytes: usize,
}

/// The first and past-the-last of the first `n` rendered lines that belong to
/// `block`.
pub open spec fn own_lines(lines: Seq<usize>, block: int, n: int) -> Option<(int, int)>
    decreases n,
{
    if n <= 0 {
        None
    } else {
        match own_lines(lines, block, n - 1) {
            Some((s, e)) => if lines[n - 1] == block {
                Some((s, n))
            } else {
                Some((s, e))
            },
            None => if lines[n - 1] == block {
                Some((n - 1, n))
            } else {
                None
            },
        }
    }
}

/// The lines of a block, first to last, as rendered.
pub open spec fn lines_of(lines: Seq<usize>, block: int) -> Option<(int, int)> {
    own_lines(lines, block, lines.len() as int)
}

/// The first block at or after `k` that has lines.
pub open spec fn next_shown(lines: Seq<usize>, k: int, count: int) -> Option<int>
    decreases count - k,
{
    if k >= count {
        None
    } else if lines_of(lines, k) is Some {
        Some(k)
    } else {
        next_shown(lines, k + 1, count)
    }
}

/// The last block before `k` that has lines.
pub open spec fn prev_shown(lines: Seq<usize>, k: int) -> Option<int>
    decreases k,
{
    if k <= 0 {
        None
    } else if lines_of(lines, k - 1) is Some {
        Some(k - 1)
    } else {
        prev_shown(lines, k - 1)
    }
}

/// The lines at which a block is shown: its own; without any, the first line of
/// the next block that has some, else the last line of the one before; and with
/// no such block the first line.
pub open spec fn shown_at(lines: Seq<usize>, block: int, count: int) -> (int, int) {
    let n = lines.len() as int;
    match lines_of(lines, block) {
        Some(r) => r,
        None => if n == 0 {
            (0, 0)
        } else {
            match next_shown(lines, block + 1, count) {
                Some(k) => {
                    let own = lines_of(lines, k)->0;
                    let s = own.0;
                    (
                        s,
                        if s + 1 <= n {
                            s + 1
                        } else {
                            n
                        },
                    )
                },
                None => match prev_shown(lines, block) {
                    Some(k) => {
                        let own = lines_of(lines, k)->0;
                        (own.1 - 1, own.1)
                    },
                    None => (0, 1),
                },
            }
        },
    }
}

/// The first range at or after index `i` that holds `byte`.
pub open spec fn range_holding(ranges: Seq<Range<usize>>, byte: int, i: int) -> Option<int>
    decreases ranges.len() - i,
{
    if 0 <= i < ranges.len() {
        if ranges[i].start <= byte < ranges[i].end {
            Some(i)
        } else {
            range_holding(ranges, byte, i + 1)
        }
    } else {
        None
    }
}

/// The block that owns `byte`: the first whose range holds it, else the last
/// one.
pub open spec fn owner(ranges: Seq<Range<usize>>, byte: int) -> Option<int> {
    match range_holding(ranges, byte, 0) {
        Some(i) => Some(i),
        None => if ranges.len() > 0 {
            Some(ranges.len() - 1)
        } else {
            None
        },
    }
}

/// A block's lines are lines of the document, begin and end with a line of the
/// block, and leave none of its lines out.
pub proof fn lemma_own_lines(lines: Seq<usize>, block: int, n: int)
    requires
        0 <= n <= lines.len(),
    ensures
        match own_lines(lines, block, n) {
            Some((s, e)) => {
                &&& 0 <= s < e <= n
                &&& lines[s] == block
                &&& lines[e - 1] == block
                &&& forall|i: int|
                    0 <= i < n && #[trigger] lines[i] == block ==> s <= i < e
            },
            None => forall|i: int| 0 <= i < n ==> #[trigger] lines[i] != block,
        },
    decreases n,
{
    if n > 0 {
        lemma_own_lines(lines, block, n - 1);
    }
}

proof fn lemma_next_shown(lines: Seq<usize>, k: int, count: int)
    ensures
        next_shown(lines, k, count) matches Some(j) ==> k <= j < count && lines_of(
            lines,
            j,
        ) is Some,
    decreases count - k,
{
    if k < count && lines_of(lines, k) is None {
        lemma_next_shown(lines, k + 1, count);
    }
}

proof fn lemma_prev_shown(lines: Seq<usize>, k: int)
    ensures
        prev_shown(lines, k) matches Some(j) ==> 0 <= j < k && lines_of(lines, j) is Some,
    decreases k,
{
    if k > 0 && lines_of(lines, k - 1) is None {
        lemma_prev_shown(lines, k - 1);
    }
}

/// Each block is shown at some line of the document, if there is one.
pub proof fn law_block_is_shown(lines: Seq<usize>, block: int, count: int)
    ensures
        lines.len() > 0 ==> 0 <= shown_at(lines, block, count).0 < shown_at(
            lines,
            block,
            count,
        ).1 <= lines.len(),
        lines.len() == 0 ==> shown_at(lines, block, count) == (0int, 0int),
{
    let n = lines.len() as int;
    lemma_own_lines(lines, block, n);
    lemma_next_shown(lines, block + 1, count);
    lemma_prev_shown(lines, block);
    match next_shown(lines, block + 1, count) {
        Some(k) => lemma_own_lines(lines, k, n),
        None => {},
    }
    match prev_shown(lines, block) {
        Some(k) => lemma_own_lines(lines, k, n),
        None => {},
    }
}

/// Only an empty map has bytes without an owner.
pub proof fn law_every_byte_owned(ranges: Seq<Range<usize>>, byte: int)
    ensures
        owner(ranges, byte) is None <==> ranges.len() == 0,
        owner(ranges, byte) matches Some(i) ==> 0 <= i < ranges.len(),
{
    lemma_range_holding(ranges, byte, 0);
}

proof fn lemma_range_holding(ranges: Seq<Range<usize>>, byte: int, i: int)
    requires
        0 <= i,
    ensures
        range_holding(ranges, byte, i) matches Some(k) ==> i <= k < ranges.len()
            && ranges[k].start <= byte < ranges[k].end,
    decreases ranges.len() - i,
{
    if i < ranges.len() {
        lemma_range_holding(ranges, byte, i + 1);
    }
}

impl SourceMap {
    /// The block of each rendered line.
    pub closed spec fn lines(&self) -> Seq<usize> {
        self.rendered_to_block@
    }

    /// The bytes that each block owns.
    pub closed spec fn extended(&self) -> Seq<Range<usize>> {
        self.extended_ranges@
    }

    /// The bytes that each block was parsed from.
    pub closed spec fn original(&self) -> Seq<Range<usize>> {
        self.original_ranges@
    }

    /// The length of the source in bytes.
    pub closed spec fn source_len(&self) -> usize {
        self.total_bytes
    }

    /// The table of shown lines agrees with the lines.
    pub closed spec fn wf(&self) -> bool {
        &&& self.block_to_rendered_range@.len() == self.extended_ranges@.len()
        &&& forall|b: int|
            0 <= b < self.extended_ranges@.len() ==> {
                let r = #[trigger] self.block_to_rendered_range@[b];
                (r.start as int, r.end as int) == shown_at(
                    self.rendered_to_block@,
                    b,
                    self.extended_ranges@.len() as int,
                )
            }
    }

    /// A map from, per rendered line, the block that made it, and per block, the
    /// bytes that it owns and the bytes that it was parsed from.
    pub fn new(
        rendered_to_block: Vec<usize>,
        extended_ranges: Vec<Range<usize>>,
        original_ranges: Vec<Range<usize>>,
        total_bytes: usize,
    ) -> (r: Self)
        ensures
            r.wf(),
            r.lines() == rendered_to_block@,
            r.extended() == extended_ranges@,
            r.original() == original_ranges@,
            r.source_len() == total_bytes,
    {
        let block_to_rendered_range = build_block_to_rendered_range(
            &rendered_to_block,
            extended_ranges.len(),
        );
        SourceMap {
            rendered_to_block,
            extended_ranges,
            original_ranges,
            block_to_rendered_range,
            total_bytes,
        }
    }

    /// The block that owns `byte_offset`; `None` only without any block.
    pub fn block_for_byte(&self, byte_offset: usize) -> (r: Option<usize>)
        ensures
            match r {
                Some(b) => owner(self.extended(), byte_offset as int) == Some(b as int) && b
                    < self.extended().len(),
                None => owner(self.extended(), byte_offset as int) is None,
            },
            r is None <==> self.extended().len() == 0,
    {
        let n: usize = self.extended_ranges.len();
        let mut i: usize = 0;
        while i < n
            invariant
                i <= n,
                n == self.extended_ranges@.len(),
                range_holding(self.extended_ranges@, byte_offset as int, i as int)
                    == range_holding(self.extended_ranges@, byte_offset as int, 0),
            decreases n - i,
        {
            if self.extended_ranges[i].start <= byte_offset && byte_offset
                < self.extended_ranges[i].end {
                return Some(i);
            }
            i += 1;
        }
        if n > 0 {
            Some(n - 1)
        } else {
            None
        }
    }

    /// The rendered lines at which `block_idx` is shown; `0..0` if there is no
    /// such block.
    pub fn rendered_lines_for_block(&self, block_idx: usize) -> (r: Range<usize>)
        requires
            self.wf(),
        ensures
            block_idx < self.extended().len() ==> (r.start as int, r.end as int) == shown_at(
                self.lines(),
                block_idx as int,
                self.extended().len() as int,
            ),
            block_idx < self.extended().len() && self.lines().len() > 0 ==> r.start < r.end
                <= self.lines().len(),
            block_idx >= self.extended().len() ==> r.start == 0 && r.end == 0,
    {
        proof {
            law_block_is_shown(self.lines(), block_idx as int, self.extended().len() as int);
        }
        if block_idx < self.block_to_rendered_range.len() {
            self.block_to_rendered_range[block_idx].start..self.block_to_rendered_range[block_idx].end
        } else {
            0..0
        }
    }

    /// The rendered lines at which the block that owns `byte_offset` is shown;
    /// `0..0` without any block.
    pub fn rendered_lines_for_byte(&self, byte_offset: usize) -> (r: Range<usize>)
        requires
            self.wf(),
        ensures
            match owner(self.extended(), byte_offset as int) {
                Some(b) => (r.start as int, r.end as int) == shown_at(
                    self.lines(),
                    b,
                    self.extended().len() as int,
                ),
                None => r.start == 0 && r.end == 0,
            },
            self.extended().len() > 0 && self.lines().len() > 0 ==> r.start < r.end
                <= self.lines().len(),
    {
        match self.block_for_byte(byte_offset) {
            Some(block_idx) => self.rendered_lines_for_block(block_idx),
            None => 0..0,
        }
    }

    /// The bytes that the block that owns `byte_offset` was parsed from.
    pub fn original_range_for_byte(&self, byte_offset: usize) -> (r: Option<Range<usize>>)
        ensures
            match owner(self.extended(), byte_offset as int) {
                Some(b) => r == if b < self.original().len() {
                    Some(self.original()[b])
                } else {
                    None
                },
                None => r is None,
            },
    {
        match self.block_for_byte(byte_offset) {
            Some(b) => self.original_range_for_block(b),
            None => None,
        }
    }

    /// The number of rendered lines.
    pub fn rendered_line_count(&self) -> (n: usize)
        ensures
            n == self.lines().len(),
    {
        self.rendered_to_block.len()
    }

    /// The number of blocks.
    pub fn block_count(&self) -> (n: usize)
        ensures
            n == self.extended().len(),
    {
        self.extended_ranges.len()
    }

    /// The block of rendered line `line`.
    pub fn block_of_line(&self, line: usize) -> (r: Option<usize>)
        ensures
            r == if line < self.lines().len() {
                Some(self.lines()[line as int])
            } else {
                None
            },
    {
        if line < self.rendered_to_block.len() {
            Some(self.rendered_to_block[line])
        } else {
            None
        }
    }

    /// Where the block of `rendered_line` begins in the source.
    pub fn original_byte_for_rendered_line(&self, rendered_line: usize) -> (r: Option<usize>)
        ensures
            r == if rendered_line < self.lines().len() && self.lines()[rendered_line as int]
                < self.original().len() {
                Some(self.original()[self.lines()[rendered_line as int] as int].start)
            } else {
                None
            },
    {
        if rendered_line >= self.rendered_to_block.len() {
            return None;
        }
        let block_idx: usize = self.rendered_to_block[rendered_line];
        if block_idx < self.original_ranges.len() {
            Some(self.original_ranges[block_idx].start)
        } else {
            None
        }
    }

    /// The bytes that `block_idx` was parsed from; `None` if there is no such
    /// block.
    pub fn original_range_for_block(&self, block_idx: usize) -> (r: Option<Range<usize>>)
        ensures
            r == if block_idx < self.original().len() {
                Some(self.original()[block_idx as int])
            } else {
                None
            },
    {
        if block_idx < self.original_ranges.len() {
            let range = &self.original_ranges[block_idx];
            Some(range.start..range.end)
        } else {
            None
        }
    }
}

impl Default for SourceMap {
    fn default() -> (r: Self)
        ensures
            r.wf(),
            r.lines().len() == 0,
            r.extended().len() == 0,
            r.original().len() == 0,
            r.source_len() == 0,
    {
        SourceMap {
            rendered_to_block: Vec::new(),
            extended_ranges: Vec::new(),
            original_ranges: Vec::new(),
            block_to_rendered_range: Vec::new(),
            total_bytes: 0,
        }
    }
}

/// A block's own lines in a table of ranges, as far as they are `seen`.
spec fn slot_is(r: Range<usize>, seen: bool, own: Option<(int, int)>) -> bool {
    match own {
        Some((s, e)) => seen && r.start == s && r.end == e,
        None => !seen && r.start == 0 && r.end == 0,
    }
}

/// The lines at which each block is shown.
fn build_block_to_rendered_range(rendered_to_block: &Vec<usize>, block_count: usize) -> (ranges: Vec<
    Range<usize>,
>)
    ensures
        ranges@.len() == block_count,
        forall|b: int|
            0 <= b < block_count ==> {
                let r = #[trigger] ranges@[b];
                (r.start as int, r.end as int) == shown_at(
                    rendered_to_block@,
                    b,
                    block_count as int,
                )
            },
{
    let n: usize = rendered_to_block.len();
    let ghost lines = rendered_to_block@;
    let mut own: Vec<Range<usize>> = Vec::new();
    let mut seen: Vec<bool> = Vec::new();
    let mut k: usize = 0;
    while k < block_count
        invariant
            k <= block_count,
            own@.len() == k,
            seen@.len() == k,
            forall|b: int| 0 <= b < k ==> slot_is(#[trigger] own@[b], seen@[b], None),
        decreases block_count - k,
    {
        own.push(0..0);
        seen.push(false);
        k += 1;
    }
    let mut line: usize = 0;
    assert forall|b: int| 0 <= b < block_count implies slot_is(
        #[trigger] own@[b],
        seen@[b],
        own_lines(lines, b, 0),
    ) by {}
    while line < n
        invariant
            lines == rendered_to_block@,
            n == lines.len(),
            line <= n,
            own@.len() == block_count,
            seen@.len() == block_count,
            forall|b: int|
                0 <= b < block_count ==> slot_is(
                    #[trigger] own@[b],
                    seen@[b],
                    own_lines(lines, b, line as int),
                ),
        decreases n - line,
    {
        let block_idx: usize = rendered_to_block[line];
        if block_idx < block_count {
            let ghost before = own@;
            assert(slot_is(
                own@[block_idx as int],
                seen@[block_idx as int],
                own_lines(lines, block_idx as int, line as int),
            ));
            let start: usize = if seen[block_idx] {
                own[block_idx].start
            } else {
                line
            };
            own.set(block_idx, start..line + 1);
            seen.set(block_idx, true);
        }
        assert forall|b: int| 0 <= b < block_count implies slot_is(
            #[trigger] own@[b],
            seen@[b],
            own_lines(lines, b, line + 1),
        ) by {
            assert(own_lines(lines, b, line + 1 - 1) == own_lines(lines, b, line as int));
        }
        line += 1;
    }
    let mut ranges: Vec<Range<usize>> = Vec::new();
    let mut i: usize = 0;
    while i < block_count
        invariant
            lines == rendered_to_block@,
            n == lines.len(),
            i <= block_count,
            own@.len() == block_count,
            seen@.len() == block_count,
            ranges@.len() == i,
            forall|b: int|
                0 <= b < block_count ==> slot_is(
                    #[trigger] own@[b],
                    seen@[b],
                    lines_of(lines, b),
                ),
            forall|b: int|
                0 <= b < i ==> {
                    let r = #[trigger] ranges@[b];
                    (r.start as int, r.end as int) == shown_at(lines, b, block_count as int)
                },
        decreases block_count - i,
    {
        let r: Range<usize> = shown_range(rendered_to_block, &own, &seen, i);
        ranges.push(r);
        i += 1;
    }
    ranges
}

/// The lines at which block `i` is shown, from the table of own lines.
fn shown_range(lines: &Vec<usize>, own: &Vec<Range<usize>>, seen: &Vec<bool>, i: usize) -> (r: Range<
    usize,
>)
    requires
        own@.len() == seen@.len(),
        i < own@.len(),
        forall|b: int|
            0 <= b < own@.len() ==> slot_is(#[trigger] own@[b], seen@[b], lines_of(lines@, b)),
    ensures
        (r.start as int, r.end as int) == shown_at(lines@, i as int, own@.len() as int),
{
    let n: usize = lines.len();
    let count: usize = own.len();
    assert(slot_is(own@[i as int], seen@[i as int], lines_of(lines@, i as int)));
    if seen[i] || n == 0 {
        return own[i].start..own[i].end;
    }
    let mut next: usize = i + 1;
    while next < count
        invariant
            i + 1 <= next <= count,
            count == own@.len(),
            n == lines@.len(),
            n > 0,
            own@.len() == seen@.len(),
            lines_of(lines@, i as int) is None,
            forall|b: int|
                0 <= b < own@.len() ==> slot_is(#[trigger] own@[b], seen@[b], lines_of(lines@, b)),
            next_shown(lines@, next as int, count as int) == next_shown(
                lines@,
                i + 1,
                count as int,
            ),
        decreases count - next,
    {
        assert(slot_is(own@[next as int], seen@[next as int], lines_of(lines@, next as int)));
        if seen[next] {
            let start: usize = own[next].start;
            proof {
                lemma_own_lines(lines@, next as int, n as int);
            }
            return start..start + 1;
        }
        next += 1;
    }
    let mut prev: usize = i;
    while prev > 0
        invariant
            prev <= i < count,
            count == own@.len(),
            n == lines@.len(),
            n > 0,
            own@.len() == seen@.len(),
            lines_of(lines@, i as int) is None,
            next_shown(lines@, i + 1, count as int) is None,
            forall|b: int|
                0 <= b < own@.len() ==> slot_is(#[trigger] own@[b], seen@[b], lines_of(lines@, b)),
            prev_shown(lines@, prev as int) == prev_shown(lines@, i as int),
        decreases prev,
    {
        assert(slot_is(own@[prev - 1], seen@[prev - 1], lines_of(lines@, prev - 1)));
        if seen[prev - 1] {
            let end: usize = own[prev - 1].end;
            proof {
                lemma_own_lines(lines@, prev - 1, n as int);
            }
            return end - 1..end;
        }
        prev -= 1;
    }
    0..1
}

} // verus!
