//! The cursor and how it moves.

use crate::cells;
use crate::document::buffer::Buffer;
use crate::document::graphemes;
use crate::document::rope;
use crate::text;
use vstd::prelude::*;
use vstd::string::*;

verus! {

/// The cursor's place in the document.
#[derive(Debug, Clone, Copy, PartialEq, Eq, Structural)]
pub struct Cursor {
    /// Offset in characters.
    pub offset: usize,
    /// The column, in terminal cells, that vertical movement aims at. It is set
    /// by horizontal movement and kept by vertical movement.
    pub preferred_col: usize,
}

/// The line that holds offset `i`.
pub open spec fn line_of(s: Seq<char>, i: int) -> int {
    rope::lines_before(s, i) as int
}

/// Where the line that holds offset `i` begins.
pub open spec fn line_start_of(s: Seq<char>, i: int) -> int {
    rope::line_begin(s, line_of(s, i))
}

/// The cell column of offset `i` on its line.
pub open spec fn cell_col_of(s: Seq<char>, i: int) -> usize {
    cells::capped(cells::cells_of(s.subrange(line_start_of(s, i), i)))
}

/// The length of `t` without the line feeds at its end.
pub open spec fn len_without_newlines(t: Seq<char>) -> int
    decreases t.len(),
{
    if t.len() > 0 && t.last() == '\n' {
        len_without_newlines(t.drop_last())
    } else {
        t.len() as int
    }
}

/// The characters of line `k`, with its line break.
pub open spec fn line_text(s: Seq<char>, k: int) -> Seq<char> {
    s.subrange(rope::line_begin(s, k), rope::line_begin(s, k + 1))
}

/// The length of line `k` without its line feed; 0 past the last line.
pub open spec fn line_len(s: Seq<char>, k: int) -> int {
    if k < rope::line_total(s) {
        len_without_newlines(line_text(s, k))
    } else {
        0
    }
}

/// Where line `k` ends for a vertical move: before its line break.
pub open spec fn landing_end(s: Seq<char>, k: int) -> int {
    let next = rope::line_begin(s, k + 1);
    if k + 1 < rope::line_total(s) {
        if next > 0 {
            next - 1
        } else {
            0
        }
    } else {
        s.len() as int
    }
}

/// The offset on line `k` on which the cell column `target` lands.
pub open spec fn offset_at_cell(s: Seq<char>, k: int, target: int) -> int {
    let start = rope::line_begin(s, k);
    if target == 0 {
        start
    } else {
        cells::landing(s, start, landing_end(s, k), 0, target as nat)
    }
}

/// The first offset at or before `i`, in steps of clusters, whose preceding
/// character is no whitespace (`ws`), or is whitespace (not `ws`).
pub open spec fn skip_back(s: Seq<char>, i: int, ws: bool) -> int
    decreases i,
{
    if 0 < i <= s.len() && text::is_whitespace_char(s[i - 1]) == ws {
        skip_back(s, graphemes::prev_boundary(s, i), ws)
    } else {
        i
    }
}

/// The first offset at or after `i`, in steps of clusters, whose character is no
/// whitespace (`ws`), or is whitespace (not `ws`).
pub open spec fn skip_forward(s: Seq<char>, i: int, ws: bool) -> int
    decreases s.len() - i,
{
    if 0 <= i < s.len() && text::is_whitespace_char(s[i]) == ws {
        skip_forward(s, graphemes::next_boundary(s, i), ws)
    } else {
        i
    }
}

/// A line that is not the last one ends with a character of its own, and the
/// next one begins behind it.
pub proof fn lemma_landing_end(s: Seq<char>, k: int)
    requires
        0 <= k < rope::line_total(s),
    ensures
        rope::line_begin(s, k) <= landing_end(s, k) <= s.len(),
{
    rope::lemma_line_begin(s, k);
    rope::lemma_line_begin(s, k + 1);
    rope::lemma_line_begin_monotone(s, k, k + 1);
}

impl Cursor {
    /// The cursor lies in the buffer.
    pub open spec fn in_buffer(self, s: Seq<char>) -> bool {
        self.offset <= s.len()
    }

    /// The cursor at the start of the document.
    pub fn new() -> (r: Self)
        ensures
            r.offset == 0,
            r.preferred_col == 0,
    {
        Cursor { offset: 0, preferred_col: 0 }
    }

    /// The line of the cursor and its distance in characters from the line's
    /// start.
    pub fn line_col(&self, buf: &Buffer) -> (r: (usize, usize))
        requires
            self.in_buffer(buf@),
        ensures
            r.0 == line_of(buf@, self.offset as int),
            r.1 == self.offset - line_start_of(buf@, self.offset as int),
            r.0 < rope::line_total(buf@),
            r.1 <= self.offset,
    {
        proof {
            rope::lemma_line_of(buf@, self.offset as int);
            rope::lemma_line_begin(buf@, line_of(buf@, self.offset as int));
        }
        let line: usize = buf.char_to_line(self.offset);
        let line_start: usize = buf.line_to_char(line);
        (line, self.offset - line_start)
    }

    /// The cell column of the cursor on its line.
    pub fn cell_col(&self, buf: &Buffer) -> (r: usize)
        requires
            self.in_buffer(buf@),
        ensures
            r == cell_col_of(buf@, self.offset as int),
    {
        let (line, col) = self.line_col(buf);
        let before = buf.slice_to_string(self.offset - col, self.offset);
        cells::text_cells(before.as_str())
    }

    /// Moves one grapheme cluster to the left.
    pub fn move_left(&mut self, buf: &Buffer)
        requires
            old(self).in_buffer(buf@),
        ensures
            final(self).in_buffer(buf@),
            old(self).offset == 0 ==> *final(self) == *old(self),
            old(self).offset > 0 ==> {
                &&& final(self).offset == graphemes::prev_boundary(buf@, old(self).offset as int)
                &&& final(self).offset < old(self).offset
                &&& final(self).preferred_col == cell_col_of(buf@, final(self).offset as int)
            },
    {
        if self.offset > 0 {
            self.offset = graphemes::prev_grapheme_offset(buf, self.offset);
            self.preferred_col = self.cell_col(buf);
        }
    }

    /// Moves one grapheme cluster to the right.
    pub fn move_right(&mut self, buf: &Buffer)
        requires
            old(self).in_buffer(buf@),
        ensures
            final(self).in_buffer(buf@),
            old(self).offset == buf@.len() ==> *final(self) == *old(self),
            old(self).offset < buf@.len() ==> {
                &&& final(self).offset == graphemes::next_boundary(buf@, old(self).offset as int)
                &&& old(self).offset < final(self).offset
                &&& final(self).preferred_col == cell_col_of(buf@, final(self).offset as int)
            },
    {
        if self.offset < buf.len_chars() {
            self.offset = graphemes::next_grapheme_offset(buf, self.offset);
            self.preferred_col = self.cell_col(buf);
        }
    }

    /// Moves to the start of the line.
    pub fn move_line_start(&mut self, buf: &Buffer)
        requires
            old(self).in_buffer(buf@),
        ensures
            final(self).in_buffer(buf@),
            final(self).offset == line_start_of(buf@, old(self).offset as int),
            final(self).preferred_col == 0,
    {
        let (line, _) = self.line_col(buf);
        self.offset = buf.line_to_char(line);
        self.preferred_col = 0;
    }

    /// Moves to the end of the line, before its line feed.
    pub fn move_line_end(&mut self, buf: &Buffer)
        requires
            old(self).in_buffer(buf@),
        ensures
            final(self).in_buffer(buf@),
            final(self).offset == line_start_of(buf@, old(self).offset as int) + line_len(
                buf@,
                line_of(buf@, old(self).offset as int),
            ),
            final(self).preferred_col == cell_col_of(buf@, final(self).offset as int),
    {
        let (line, _) = self.line_col(buf);
        let line_start: usize = buf.line_to_char(line);
        let len: usize = line_len_no_newline(buf, line);
        let total: usize = buf.len_chars();
        proof {
            assert(total == buf@.len());
            lemma_line_len(buf@, line as int);
        }
        self.offset = line_start + len;
        self.preferred_col = self.cell_col(buf);
    }

    /// Moves one word to the left: over whitespace, then over other characters.
    pub fn move_word_left(&mut self, buf: &Buffer)
        requires
            old(self).in_buffer(buf@),
        ensures
            final(self).in_buffer(buf@),
            final(self).offset == skip_back(
                buf@,
                skip_back(buf@, old(self).offset as int, true),
                false,
            ),
            final(self).offset <= old(self).offset,
            final(self).preferred_col == cell_col_of(buf@, final(self).offset as int),
    {
        let mid: usize = back_over(buf, self.offset, true);
        self.offset = back_over(buf, mid, false);
        self.preferred_col = self.cell_col(buf);
    }

    /// Moves one word to the right: over other characters, then over whitespace.
    pub fn move_word_right(&mut self, buf: &Buffer)
        requires
            old(self).in_buffer(buf@),
        ensures
            final(self).in_buffer(buf@),
            final(self).offset == skip_forward(
                buf@,
                skip_forward(buf@, old(self).offset as int, false),
                true,
            ),
            old(self).offset <= final(self).offset,
            final(self).preferred_col == cell_col_of(buf@, final(self).offset as int),
    {
        let mid: usize = forward_over(buf, self.offset, false);
        self.offset = forward_over(buf, mid, true);
        self.preferred_col = self.cell_col(buf);
    }

    /// Moves one line up, to the character at the preferred column. On the first
    /// line it goes to the start.
    pub fn move_up(&mut self, buf: &Buffer)
        requires
            old(self).in_buffer(buf@),
        ensures
            final(self).in_buffer(buf@),
            final(self).preferred_col == old(self).preferred_col,
            final(self).offset == ({
                let line = line_of(buf@, old(self).offset as int);
                if line == 0 {
                    0
                } else {
                    offset_at_cell(buf@, line - 1, old(self).preferred_col as int)
                }
            }),
    {
        let (line, _) = self.line_col(buf);
        if line == 0 {
            proof {
                rope::lemma_line_begin(buf@, 0);
                assert(rope::line_begin(buf@, 0) == 0);
            }
            self.offset = buf.line_to_char(0);
            return;
        }
        self.offset = char_offset_at_cell_col(buf, line - 1, self.preferred_col);
    }

    /// Moves one line down, to the character at the preferred column. On the last
    /// line it goes to the end.
    pub fn move_down(&mut self, buf: &Buffer)
        requires
            old(self).in_buffer(buf@),
        ensures
            final(self).in_buffer(buf@),
            ({
                let line = line_of(buf@, old(self).offset as int);
                if line + 1 < rope::line_total(buf@) {
                    &&& final(self).offset == offset_at_cell(
                        buf@,
                        line + 1,
                        old(self).preferred_col as int,
                    )
                    &&& final(self).preferred_col == old(self).preferred_col
                } else {
                    &&& final(self).offset == line_start_of(buf@, old(self).offset as int)
                        + line_len(buf@, line)
                    &&& final(self).preferred_col == cell_col_of(buf@, final(self).offset as int)
                }
            }),
    {
        let (line, _) = self.line_col(buf);
        let last: usize = buf.line_count() - 1;
        if line >= last {
            self.move_line_end(buf);
            return;
        }
        self.offset = char_offset_at_cell_col(buf, line + 1, self.preferred_col);
    }

    /// Moves to the start of the document.
    pub fn move_doc_start(&mut self)
        ensures
            final(self).offset == 0,
            final(self).preferred_col == 0,
    {
        self.offset = 0;
        self.preferred_col = 0;
    }

    /// Moves to the end of the document.
    pub fn move_doc_end(&mut self, buf: &Buffer)
        ensures
            final(self).offset == buf@.len(),
            final(self).preferred_col == cell_col_of(buf@, buf@.len() as int),
    {
        self.offset = buf.len_chars();
        self.preferred_col = self.cell_col(buf);
    }

    /// Brings the cursor back into the buffer.
    pub fn clamp(&mut self, buf: &Buffer)
        ensures
            final(self).in_buffer(buf@),
            final(self).offset == if old(self).offset <= buf@.len() {
                old(self).offset as int
            } else {
                buf@.len() as int
            },
            final(self).preferred_col == old(self).preferred_col,
    {
        let len: usize = buf.len_chars();
        if self.offset > len {
            self.offset = len;
        }
    }
}

impl Default for Cursor {
    fn default() -> (r: Self)
        ensures
            r.offset == 0,
            r.preferred_col == 0,
    {
        Cursor::new()
    }
}

proof fn lemma_len_without_newlines(t: Seq<char>)
    ensures
        0 <= len_without_newlines(t) <= t.len(),
    decreases t.len(),
{
    if t.len() > 0 && t.last() == '\n' {
        lemma_len_without_newlines(t.drop_last());
    }
}

/// A line without its line feed lies in the text.
pub proof fn lemma_line_len(s: Seq<char>, k: int)
    requires
        0 <= k < rope::line_total(s),
    ensures
        0 <= line_len(s, k),
        rope::line_begin(s, k) + line_len(s, k) <= rope::line_begin(s, k + 1) <= s.len(),
{
    rope::lemma_line_begin(s, k);
    rope::lemma_line_begin(s, k + 1);
    rope::lemma_line_begin_monotone(s, k, k + 1);
    lemma_len_without_newlines(line_text(s, k));
}

/// The number of characters of line `line_idx`, without its line feed.
pub fn line_len_no_newline(buf: &Buffer, line_idx: usize) -> (r: usize)
    ensures
        r == line_len(buf@, line_idx as int),
{
    match buf.line(line_idx) {
        None => 0,
        Some(s) => {
            let ghost t = s@;
            let mut n: usize = s.as_str().unicode_len();
            proof {
                assert(t.take(t.len() as int) =~= t);
            }
            while n > 0 && s.as_str().get_char(n - 1) == '\n'
                invariant
                    t == s@,
                    n <= t.len(),
                    len_without_newlines(t.take(n as int)) == len_without_newlines(t),
                decreases n,
            {
                assert(t.take(n as int).drop_last() =~= t.take(n - 1));
                n -= 1;
            }
            n
        },
    }
}

/// Steps back over clusters while the character before them is whitespace, or
/// while it is none.
fn back_over(buf: &Buffer, from: usize, ws: bool) -> (r: usize)
    requires
        from <= buf@.len(),
    ensures
        r == skip_back(buf@, from as int, ws),
        r <= from,
{
    let mut i: usize = from;
    while i > 0 && text::is_whitespace(buf.char_at(i - 1)) == ws
        invariant
            i <= from <= buf@.len(),
            skip_back(buf@, i as int, ws) == skip_back(buf@, from as int, ws),
        decreases i,
    {
        i = graphemes::prev_grapheme_offset(buf, i);
    }
    i
}

/// Steps forward over clusters while their first character is whitespace, or
/// while it is none.
fn forward_over(buf: &Buffer, from: usize, ws: bool) -> (r: usize)
    requires
        from <= buf@.len(),
    ensures
        r == skip_forward(buf@, from as int, ws),
        from <= r <= buf@.len(),
{
    let len: usize = buf.len_chars();
    let mut i: usize = from;
    while i < len && text::is_whitespace(buf.char_at(i)) == ws
        invariant
            from <= i <= len,
            len == buf@.len(),
            skip_forward(buf@, i as int, ws) == skip_forward(buf@, from as int, ws),
        decreases len - i,
    {
        i = graphemes::next_grapheme_offset(buf, i);
    }
    i
}

/// The offset on line `line_idx` on which the cell column `target_cell` lands.
fn char_offset_at_cell_col(buf: &Buffer, line_idx: usize, target_cell: usize) -> (r: usize)
    requires
        line_idx < rope::line_total(buf@),
    ensures
        r == offset_at_cell(buf@, line_idx as int, target_cell as int),
        r <= buf@.len(),
{
    let total: usize = buf.line_count();
    proof {
        lemma_landing_end(buf@, line_idx as int);
        rope::lemma_line_begin(buf@, line_idx as int);
    }
    let line_start: usize = buf.line_to_char(line_idx);
    let line_end: usize = if line_idx + 1 < total {
        let next: usize = buf.line_to_char(line_idx + 1);
        if next > 0 {
            next - 1
        } else {
            0
        }
    } else {
        buf.len_chars()
    };
    if target_cell == 0 {
        return line_start;
    }
    let ghost want = cells::landing(
        buf@,
        line_start as int,
        line_end as int,
        0,
        target_cell as nat,
    );
    let mut acc: usize = 0;
    let mut offset: usize = line_start;
    while offset < line_end
        invariant
            line_start <= offset <= line_end <= buf@.len(),
            acc <= target_cell,
            want == offset_at_cell(buf@, line_idx as int, target_cell as int),
            cells::landing(
                buf@,
                offset as int,
                line_end as int,
                acc as nat,
                target_cell as nat,
            ) == want,
        decreases line_end - offset,
    {
        let w: usize = cells::char_cells(buf.char_at(offset));
        if w > target_cell - acc {
            return if acc == target_cell {
                offset
            } else {
                offset + 1
            };
        }
        acc += w;
        offset += 1;
    }
    line_end
}

} // verus!
