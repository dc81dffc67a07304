//! How the lines of the text are wrapped on the screen, as the view lays them out.

use crate::cells;
use crate::document::buffer::Buffer;
use crate::document::cursor;
use crate::document::rope;
use vstd::prelude::*;

verus! {

/// A row of a wrapped line: the characters `start..end` of the line are on it, and
/// the next row begins at `next`. What lies between `end` and `next` are spaces
/// that the wrap took up.
#[derive(Debug, Clone, Copy, PartialEq, Eq, Structural)]
pub struct WrapRow {
    pub start: usize,
    pub end: usize,
    pub next: usize,
}

/// The rows of a line. Every row but the first is indented by `indent` cells.
#[derive(Debug, Clone, PartialEq, Eq)]
pub struct LineWrap {
    pub rows: Vec<WrapRow>,
    pub indent: usize,
}

/// The rows of all lines of the text at a width of `width` cells.
#[derive(Debug, Clone, PartialEq, Eq)]
pub struct Layout {
    pub width: usize,
    pub wraps: Vec<LineWrap>,
    /// The lines that are the row of dashes of a table.
    pub alignment: Vec<bool>,
}

/// The row that column `col` is shown on, among the rows from `k` on: the first
/// that ends behind it, else the last.
pub open spec fn row_of_col(rows: Seq<WrapRow>, col: int, k: int) -> int
    decreases rows.len() - k,
{
    if k < 0 || k + 1 >= rows.len() || col < rows[k].end {
        k
    } else {
        row_of_col(rows, col, k + 1)
    }
}

/// The last column at which the cursor is shown on a row. On the last row of its
/// line that is the line's end; on others it is the row's last character, since
/// the place behind it is shown on the next row.
pub open spec fn last_col_in_row(row: WrapRow, is_last: bool) -> int {
    if is_last {
        row.end as int
    } else if row.end - 1 >= row.start {
        row.end - 1
    } else {
        row.start as int
    }
}

/// The offset at which cell `target` of a row lands, for a line that begins at
/// `base`. Cells of the row's indentation land on its first character, and cells
/// inside a wide character behind it.
pub open spec fn offset_in_row(
    s: Seq<char>,
    base: int,
    row: WrapRow,
    target: int,
    is_last: bool,
    indent: int,
) -> int {
    let from = base + row.start;
    let at = if target <= indent {
        from
    } else {
        cells::landing(s, from, base + row.end, 0, (target - indent) as nat)
    };
    let last = base + last_col_in_row(row, is_last);
    if at <= last {
        at
    } else {
        last
    }
}

/// The cell at which offset `at` is shown on a row of a line that begins at
/// `base`.
pub open spec fn cell_in_row(s: Seq<char>, base: int, row: WrapRow, at: int, indent: int) -> usize {
    let from = base + row.start;
    cells::capped(
        indent as nat + (if at > from {
            cells::cells_of(s.subrange(from, at))
        } else {
            0
        }),
    )
}

impl LineWrap {
    /// The rows are rows of a line of `len` characters.
    pub open spec fn fits(self, len: int) -> bool {
        &&& self.rows@.len() > 0
        &&& forall|i: int|
            0 <= i < self.rows@.len() ==> (#[trigger] self.rows@[i]).start <= self.rows@[i].end
                <= len
    }

    /// The indentation of row `k`.
    pub open spec fn indent_of(self, k: int, flat: bool) -> int {
        if k == 0 || flat {
            0
        } else {
            self.indent as int
        }
    }

    /// The row that column `col` is shown on.
    pub fn sub_line_of_col(&self, col: usize) -> (r: usize)
        requires
            self.rows@.len() > 0,
        ensures
            r == row_of_col(self.rows@, col as int, 0),
            r < self.rows@.len(),
    {
        let mut k: usize = 0;
        while k < self.rows.len() - 1 && col >= self.rows[k].end
            invariant
                k < self.rows@.len(),
                row_of_col(self.rows@, col as int, k as int) == row_of_col(
                    self.rows@,
                    col as int,
                    0,
                ),
            decreases self.rows@.len() - k,
        {
            k += 1;
        }
        k
    }
}

impl Layout {
    /// The layout is one of the text `s`.
    pub open spec fn fits(self, s: Seq<char>) -> bool {
        &&& self.wraps@.len() == rope::line_total(s)
        &&& self.alignment@.len() == rope::line_total(s)
        &&& forall|k: int|
            0 <= k < self.wraps@.len() ==> (#[trigger] self.wraps@[k]).fits(cursor::line_len(s, k))
    }

    /// True iff the layout is one of the text of `buf`.
    pub fn is_for(&self, buf: &Buffer) -> (r: bool)
        ensures
            r == self.fits(buf@),
    {
        let n: usize = buf.line_count();
        if self.wraps.len() != n || self.alignment.len() != n {
            return false;
        }
        let mut k: usize = 0;
        while k < n
            invariant
                n == self.wraps@.len(),
                n == rope::line_total(buf@),
                k <= n,
                forall|j: int|
                    0 <= j < k ==> (#[trigger] self.wraps@[j]).fits(cursor::line_len(buf@, j)),
            decreases n - k,
        {
            let len: usize = cursor::line_len_no_newline(buf, k);
            let wrap = &self.wraps[k];
            let m: usize = wrap.rows.len();
            if m == 0 {
                assert(!self.wraps@[k as int].fits(len as int));
                return false;
            }
            let mut i: usize = 0;
            while i < m
                invariant
                    k < self.wraps@.len() == rope::line_total(buf@),
                    *wrap == self.wraps@[k as int],
                    len == cursor::line_len(buf@, k as int),
                    m == wrap.rows@.len(),
                    i <= m,
                    forall|j: int|
                        0 <= j < i ==> (#[trigger] wrap.rows@[j]).start <= wrap.rows@[j].end <= len,
                decreases m - i,
            {
                let row = wrap.rows[i];
                if row.start > row.end || row.end > len {
                    assert(!wrap.fits(len as int)) by {
                        assert(wrap.rows@[i as int] == row);
                    }
                    assert(!self.wraps@[k as int].fits(len as int));
                    return false;
                }
                i += 1;
            }
            k += 1;
        }
        true
    }
}

/// The index at which cell `target` lands among the characters `from..end`.
pub fn landing_in(buf: &Buffer, from: usize, end: usize, target: usize) -> (r: usize)
    requires
        from <= end <= buf@.len(),
    ensures
        r == cells::landing(buf@, from as int, end as int, 0, target as nat),
        from <= r <= end,
{
    let mut i: usize = from;
    let mut acc: usize = 0;
    while i < end
        invariant
            from <= i <= end <= buf@.len(),
            acc <= target,
            cells::landing(buf@, i as int, end as int, acc as nat, target as nat)
                == cells::landing(buf@, from as int, end as int, 0, target as nat),
        decreases end - i,
    {
        let w: usize = cells::char_cells(buf.char_at(i));
        if w > target - acc {
            return if acc == target {
                i
            } else {
                i + 1
            };
        }
        acc += w;
        i += 1;
    }
    end
}

/// The offset at which cell `target` of a row lands.
pub fn find_offset_in_row(
    buf: &Buffer,
    base: usize,
    row: WrapRow,
    target: usize,
    is_last: bool,
    indent: usize,
) -> (r: usize)
    requires
        row.start <= row.end,
        base + row.end <= buf@.len(),
    ensures
        r == offset_in_row(
            buf@,
            base as int,
            row,
            target as int,
            is_last,
            indent as int,
        ),
        base + row.start <= r <= base + row.end,
{
    let len: usize = buf.len_chars();
    let from: usize = base + row.start;
    let at: usize = if target <= indent {
        from
    } else {
        landing_in(buf, from, base + row.end, target - indent)
    };
    let last: usize = base + (if is_last {
        row.end
    } else if row.end > row.start {
        row.end - 1
    } else {
        row.start
    });
    if at <= last {
        at
    } else {
        last
    }
}

/// The cell at which offset `at` is shown on a row.
pub fn find_cell_in_row(buf: &Buffer, base: usize, row: WrapRow, at: usize, indent: usize) -> (r:
    usize)
    requires
        at <= buf@.len(),
        base + row.start <= usize::MAX,
    ensures
        r == cell_in_row(buf@, base as int, row, at as int, indent as int),
{
    let from: usize = base + row.start;
    if at <= from {
        return indent;
    }
    let part: String = buf.slice_to_string(from, at);
    let n: usize = cells::text_cells(part.as_str());
    if n <= usize::MAX - indent {
        indent + n
    } else {
        usize::MAX
    }
}

} // verus!
