//! From a place on the screen to a place in the text, in plain numbers.
//!
//! How lines are wrapped, where a table's pipes stand and which columns inline
//! markup hides is known to the layers that draw the text; they hand it in.

use crate::cells;
use crate::document::selection::CellBand;
use crate::editor::state;
use crate::editor::state_rows::TableSubLineKind;
use crate::editor::wrap;
use crate::editor::wrap::{LineWrap, WrapRow};
use crate::text;
use vstd::prelude::*;
use vstd::string::*;

verus! {

/// Rows of a table's source before its data: the header and the dashes.
pub const HEADER_ROWS: usize = 2;

/// The columns of a line's source, by the columns that are shown: one for each
/// shown character, and the end.
#[derive(Debug)]
pub struct InlineMap {
    pub to_raw: Vec<usize>,
}

impl InlineMap {
    /// The end is there.
    pub open spec fn wf(self) -> bool {
        self.to_raw@.len() > 0
    }

    /// How many characters are shown.
    pub open spec fn shown_len(self) -> int {
        self.to_raw@.len() - 1
    }

    /// The column of the source of a shown column.
    pub open spec fn raw(self, shown: int) -> int {
        self.to_raw@[state::least(shown, self.shown_len())] as int
    }

    /// The column of the source of a shown column.
    pub fn raw_col(&self, shown: usize) -> (r: usize)
        requires
            self.wf(),
        ensures
            r == self.raw(shown as int),
    {
        let last: usize = self.to_raw.len() - 1;
        self.to_raw[if shown <= last {
            shown
        } else {
            last
        }]
    }
}

/// A part of a cell that is shown on one line.
#[derive(Debug)]
pub struct CellChunk {
    /// Where the part begins among the cell's shown characters.
    pub start: usize,
    pub text: String,
}

/// What a cell of a table shows.
#[derive(Debug)]
pub struct CellMap {
    pub map: InlineMap,
    pub chunks: Vec<CellChunk>,
}

/// How the columns of a line that is shown go with those of its source.
#[derive(Debug, Clone, Copy, PartialEq, Eq, Structural)]
pub enum LineMapping {
    /// Behind a list's marker as for other text.
    List,
    /// The line is shown as it is written.
    Verbatim,
    /// Markup is hidden.
    Generic,
}

/// A list's marker: its width in the source, and the columns there of the shown
/// marker's characters.
#[derive(Debug)]
pub struct MarkerMap {
    pub raw_width: usize,
    pub cols: Vec<usize>,
}

/// Which line, and which of its rows, is `row` rows below row `sub` of line `idx`,
/// where line `i` takes `uses[i]` rows.
pub open spec fn walked(uses: Seq<usize>, idx: int, sub: int, row: int) -> Option<(int, int)>
    decreases uses.len() - idx,
{
    if idx < 0 || idx >= uses.len() {
        None
    } else {
        let used = if uses[idx] - sub >= 1 {
            uses[idx] - sub
        } else {
            1
        };
        if row < used {
            Some((idx, sub + row))
        } else {
            walked(uses, idx + 1, 0, row - used)
        }
    }
}

/// Which line, and which of its rows, is `row` rows below row `sub` of line `idx`.
pub fn walk_rows(uses: &[usize], idx: usize, sub: usize, row: usize) -> (r: Option<(usize, usize)>)
    ensures
        match r {
            Some(p) => walked(uses@, idx as int, sub as int, row as int) == Some(
                (p.0 as int, p.1 as int),
            ) && p.0 < uses@.len(),
            None => walked(uses@, idx as int, sub as int, row as int) is None,
        },
{
    let mut i: usize = idx;
    let mut s: usize = sub;
    let mut left: usize = row;
    while i < uses.len()
        invariant
            walked(uses@, idx as int, sub as int, row as int) == walked(
                uses@,
                i as int,
                s as int,
                left as int,
            ),
        decreases uses@.len() - i,
    {
        let used: usize = if uses[i] > s {
            uses[i] - s
        } else {
            1
        };
        if left < used {
            return Some((i, s + left));
        }
        left -= used;
        i += 1;
        s = 0;
    }
    None
}

/// The column of a line that cell `col` of its row `sub` shows, or the nearest on
/// that row.
pub open spec fn clicked_col(chars: Seq<char>, w: LineWrap, sub: int, col: int) -> int {
    if chars.len() == 0 {
        0
    } else {
        let k = state::least(sub, w.rows@.len() - 1);
        wrap::offset_in_row(
            chars,
            0,
            w.rows@[k],
            col,
            k + 1 == w.rows@.len(),
            w.indent_of(k, false),
        )
    }
}

/// The column of a line that a cell of a row shows, or the nearest on that row. A
/// cell inside a wide character leads behind it.
pub fn click_in_line(chars: &[char], w: &LineWrap, sub: usize, col: usize) -> (r: usize)
    requires
        w.fits(chars@.len() as int),
    ensures
        r == clicked_col(chars@, *w, sub as int, col as int),
        r <= chars@.len(),
{
    if chars.len() == 0 {
        return 0;
    }
    let n: usize = w.rows.len();
    let k: usize = if sub <= n - 1 {
        sub
    } else {
        n - 1
    };
    let row: WrapRow = w.rows[k];
    assert(row == w.rows@[k as int]);
    let indent: usize = if k == 0 {
        0
    } else {
        w.indent
    };
    let at: usize = if col <= indent {
        row.start
    } else {
        cells::landing_index(chars, row.start, row.end, col - indent)
    };
    let last: usize = if k + 1 == n {
        row.end
    } else if row.end > row.start {
        row.end - 1
    } else {
        row.start
    };
    if at <= last {
        at
    } else {
        last
    }
}

/// The cell at which column `col` of a line is shown.
pub open spec fn shown_cell(chars: Seq<char>, w: LineWrap, col: int) -> usize {
    let k = wrap::row_of_col(w.rows@, col, 0);
    wrap::cell_in_row(chars, 0, w.rows@[k], col, w.indent_of(k, false))
}

/// The cell at which column `col` of a line is shown.
pub fn cell_col_for_char_col(chars: &[char], w: &LineWrap, col: usize) -> (r: usize)
    requires
        w.rows@.len() > 0,
        col <= chars@.len(),
    ensures
        r == shown_cell(chars@, *w, col as int),
{
    let k: usize = w.sub_line_of_col(col);
    let from: usize = w.rows[k].start;
    let indent: usize = if k == 0 {
        0
    } else {
        w.indent
    };
    if col <= from {
        return indent;
    }
    let part: String = text::text_of_chars(chars, from, col);
    let n: usize = cells::text_cells(part.as_str());
    if n <= usize::MAX - indent {
        indent + n
    } else {
        usize::MAX
    }
}

/// The column of a line that cell `col` of its row `sub` is a part of; none where
/// the cell is behind the text.
pub open spec fn col_under(chars: Seq<char>, w: LineWrap, sub: int, col: int) -> Option<int> {
    if chars.len() == 0 {
        None
    } else {
        let near = clicked_col(chars, w, sub, col);
        let c = if shown_cell(chars, w, near) > col {
            near - 1
        } else {
            near
        };
        if 0 <= c < chars.len() {
            let cell = shown_cell(chars, w, c) as int;
            let width = if cells::cells(chars[c]) >= 1 {
                cells::cells(chars[c]) as int
            } else {
                1
            };
            if cell <= col < cell + width {
                Some(c)
            } else {
                None
            }
        } else {
            None
        }
    }
}

/// The column of a line that a cell of a row is a part of: both cells of a wide
/// character lead to it. None where the cell is behind the text, where a click
/// means nothing but a place for the cursor.
pub fn click_on_text(chars: &[char], w: &LineWrap, sub: usize, col: usize) -> (r: Option<usize>)
    requires
        w.fits(chars@.len() as int),
    ensures
        match r {
            Some(c) => col_under(chars@, *w, sub as int, col as int) == Some(c as int) && c
                < chars@.len(),
            None => col_under(chars@, *w, sub as int, col as int) is None,
        },
{
    if chars.len() == 0 {
        return None;
    }
    let near: usize = click_in_line(chars, w, sub, col);
    let c: usize = if cell_col_for_char_col(chars, w, near) > col {
        if near == 0 {
            return None;
        }
        near - 1
    } else {
        near
    };
    if c >= chars.len() {
        return None;
    }
    let cell: usize = cell_col_for_char_col(chars, w, c);
    let cells: usize = cells::char_cells(chars[c]);
    let width: usize = if cells >= 1 {
        cells
    } else {
        1
    };
    if cell <= col && col - cell < width {
        Some(c)
    } else {
        None
    }
}

/// The ends of line `k` of a block's source, from the line that begins at `at` on;
/// the block's last line, with its line feed, where there is no such line.
pub open spec fn raw_line_range(b: Seq<u8>, k: nat, at: int) -> (int, int)
    decreases k,
{
    let end = text::line_end(b, at);
    if k == 0 {
        (at, end)
    } else if end + 1 >= b.len() {
        (at, b.len() as int)
    } else {
        raw_line_range(b, (k - 1) as nat, end + 1)
    }
}

/// The ends of line `raw_line_idx` of a block's source.
pub fn raw_line_byte_range(block_text: &[u8], raw_line_idx: usize) -> (r: (usize, usize))
    ensures
        (r.0 as int, r.1 as int) == raw_line_range(block_text@, raw_line_idx as nat, 0),
        r.0 <= r.1 <= block_text@.len(),
        text::at_line_start(block_text@, r.0 as int),
        text::at_line_end(block_text@, r.1 as int),
{
    let n: usize = block_text.len();
    let mut k: usize = raw_line_idx;
    let mut at: usize = 0;
    loop
        invariant
            n == block_text@.len(),
            at <= n,
            text::at_line_start(block_text@, at as int),
            raw_line_range(block_text@, raw_line_idx as nat, 0) == raw_line_range(
                block_text@,
                k as nat,
                at as int,
            ),
        decreases k,
    {
        let end: usize = text::line_end_byte(block_text, at);
        proof {
            text::lemma_line_end(block_text@, at as int);
        }
        if k == 0 {
            return (at, end);
        }
        if end >= n || end + 1 >= n {
            return (at, n);
        }
        at = end + 1;
        k -= 1;
    }
}

/// The line of a table's source, and the part of it, that the rendered line `i` of
/// the table shows. Borders lead to the row next to them.
pub open spec fn table_row_shown(kinds: Seq<TableSubLineKind>, i: int, lines: int) -> (int, int) {
    if 0 <= i < kinds.len() {
        match kinds[i] {
            TableSubLineKind::TopBorder => (0, 0),
            TableSubLineKind::Header { sub } => (0, sub as int),
            TableSubLineKind::ThickSeparator => (HEADER_ROWS as int, 0),
            TableSubLineKind::DataRow { row, sub } => (row + HEADER_ROWS, sub as int),
            TableSubLineKind::ThinSeparator => (row_above(kinds, i) + HEADER_ROWS, 0),
            TableSubLineKind::BottomBorder => (last_row(lines), 0),
        }
    } else {
        (last_row(lines), 0)
    }
}

/// The last line of a table's source that holds data, among `lines` lines.
pub open spec fn last_row(lines: int) -> int {
    if lines - HEADER_ROWS >= HEADER_ROWS {
        lines - HEADER_ROWS
    } else {
        HEADER_ROWS as int
    }
}

/// The row of data that is shown last above rendered line `i` of a table.
pub open spec fn row_above(kinds: Seq<TableSubLineKind>, i: int) -> int
    decreases i,
{
    if i <= 0 || i > kinds.len() {
        0
    } else {
        match kinds[i - 1] {
            TableSubLineKind::DataRow { row, .. } => row as int,
            _ => row_above(kinds, i - 1),
        }
    }
}

/// The rows of a table are fewer than there are offsets.
pub open spec fn kinds_fit(kinds: Seq<TableSubLineKind>) -> bool {
    forall|i: int|
        0 <= i < kinds.len() ==> (#[trigger] kinds[i] matches TableSubLineKind::DataRow {
            row,
            ..
        } ==> row + HEADER_ROWS <= usize::MAX)
}

/// The line of a table's source, and the part of it, that a rendered line of the
/// table shows.
pub fn table_raw_line_idx(kinds: &[TableSubLineKind], i: usize, lines: usize) -> (r: (usize, usize))
    requires
        kinds_fit(kinds@),
    ensures
        (r.0 as int, r.1 as int) == table_row_shown(kinds@, i as int, lines as int),
{
    let last: usize = if lines >= HEADER_ROWS && lines - HEADER_ROWS >= HEADER_ROWS {
        lines - HEADER_ROWS
    } else {
        HEADER_ROWS
    };
    if i >= kinds.len() {
        return (last, 0);
    }
    match kinds[i] {
        TableSubLineKind::TopBorder => (0, 0),
        TableSubLineKind::Header { sub } => (0, sub),
        TableSubLineKind::ThickSeparator => (HEADER_ROWS, 0),
        TableSubLineKind::DataRow { row, sub } => {
            assert(kinds@[i as int] is DataRow);
            (row + HEADER_ROWS, sub)
        },
        TableSubLineKind::ThinSeparator => {
            let mut j: usize = i;
            while j > 0
                invariant
                    j <= i < kinds@.len(),
                    kinds_fit(kinds@),
                    kinds@[i as int] is ThinSeparator,
                    row_above(kinds@, i as int) == row_above(kinds@, j as int),
                decreases j,
            {
                match kinds[j - 1] {
                    TableSubLineKind::DataRow { row, .. } => {
                        assert(kinds@[j - 1] is DataRow);
                        return (row + HEADER_ROWS, 0);
                    },
                    _ => {},
                }
                j -= 1;
            }
            (HEADER_ROWS, 0)
        },
        TableSubLineKind::BottomBorder => (last, 0),
    }
}

/// Two rendered lines of a table show the same row.
pub open spec fn same_row(a: TableSubLineKind, b: TableSubLineKind) -> bool {
    match (a, b) {
        (TableSubLineKind::Header { .. }, TableSubLineKind::Header { .. }) => true,
        (TableSubLineKind::DataRow { row: x, .. }, TableSubLineKind::DataRow { row: y, .. }) => x
            == y,
        _ => false,
    }
}

fn is_same_row(a: TableSubLineKind, b: TableSubLineKind) -> (r: bool)
    ensures
        r == same_row(a, b),
{
    match (a, b) {
        (TableSubLineKind::Header { .. }, TableSubLineKind::Header { .. }) => true,
        (TableSubLineKind::DataRow { row: x, .. }, TableSubLineKind::DataRow { row: y, .. }) => x
            == y,
        _ => false,
    }
}

/// The first of the rendered lines before `j` that show the same row as line `i`,
/// without a gap.
pub open spec fn row_first(kinds: Seq<TableSubLineKind>, i: int, j: int) -> int
    decreases j,
{
    if 0 < j <= kinds.len() && same_row(kinds[i], kinds[j - 1]) {
        row_first(kinds, i, j - 1)
    } else {
        j
    }
}

/// The last of the rendered lines behind `j` that show the same row as line `i`,
/// without a gap.
pub open spec fn row_last(kinds: Seq<TableSubLineKind>, i: int, j: int) -> int
    decreases kinds.len() - j,
{
    if 0 <= j && j + 1 < kinds.len() && same_row(kinds[i], kinds[j + 1]) {
        row_last(kinds, i, j + 1)
    } else {
        j
    }
}

/// The first cell, from cell `k` on, that ends behind column `col`; the last, where
/// none does. Cell `i` stands between pipes `i` and `i + 1`.
pub open spec fn cell_at(pipes: Seq<usize>, col: int, k: int) -> int
    decreases pipes.len() - k,
{
    if k < 0 || k + 2 >= pipes.len() || col < pipes[k + 1] {
        k
    } else {
        cell_at(pipes, col, k + 1)
    }
}

fn find_cell(pipes: &[usize], col: usize) -> (r: usize)
    requires
        pipes@.len() >= 2,
    ensures
        r == cell_at(pipes@, col as int, 0),
        r + 1 < pipes@.len(),
{
    let mut k: usize = 0;
    while k < pipes.len() - 2 && col >= pipes[k + 1]
        invariant
            k + 1 < pipes@.len(),
            cell_at(pipes@, col as int, 0) == cell_at(pipes@, col as int, k as int),
        decreases pipes@.len() - k,
    {
        k += 1;
    }
    k
}

/// The cell of a table that a click in the preview is bound to: the rendered lines
/// of its row, and the terminal cells between its borders' padding. `top` is the
/// table's first rendered line, `i` the clicked one from there, `pipes` the columns
/// of the pipes on it and `pipe_cells` their terminal cells.
pub open spec fn cell_band(
    kinds: Seq<TableSubLineKind>,
    i: int,
    top: int,
    pipes: Seq<usize>,
    pipe_cells: Seq<usize>,
    col: int,
) -> Option<CellBand> {
    if !(0 <= i < kinds.len()) || !same_row(kinds[i], kinds[i]) || pipes.len() < 2 {
        None
    } else {
        let k = cell_at(pipes, col, 0);
        let lo = pipe_cells[k] + 2;
        let hi = pipe_cells[k + 1] - 1;
        if lo >= hi {
            None
        } else {
            Some(
                CellBand {
                    lines: (
                        (top + row_first(kinds, i, i)) as usize,
                        (top + row_last(kinds, i, i)) as usize,
                    ),
                    cols: (lo as usize, hi as usize),
                },
            )
        }
    }
}

/// The cell of a table that a click in the preview is bound to; none on a border,
/// where whole lines are selected.
pub fn table_cell_band(
    kinds: &[TableSubLineKind],
    i: usize,
    top: usize,
    pipes: &[usize],
    pipe_cells: &[usize],
    col: usize,
) -> (r: Option<CellBand>)
    requires
        top + kinds@.len() <= usize::MAX,
        pipe_cells@.len() == pipes@.len(),
    ensures
        r == cell_band(kinds@, i as int, top as int, pipes@, pipe_cells@, col as int),
{
    if i >= kinds.len() || !is_same_row(kinds[i], kinds[i]) || pipes.len() < 2 {
        return None;
    }
    let mut first: usize = i;
    while first > 0 && is_same_row(kinds[i], kinds[first - 1])
        invariant
            first <= i < kinds@.len(),
            row_first(kinds@, i as int, i as int) == row_first(kinds@, i as int, first as int),
        decreases first,
    {
        first -= 1;
    }
    let mut last: usize = i;
    while last < kinds.len() - 1 && is_same_row(kinds[i], kinds[last + 1])
        invariant
            i <= last < kinds@.len(),
            row_last(kinds@, i as int, i as int) == row_last(kinds@, i as int, last as int),
        decreases kinds@.len() - last,
    {
        last += 1;
    }
    let k: usize = find_cell(pipes, col);
    let from: usize = pipe_cells[k];
    let next: usize = pipe_cells[k + 1];
    if next < 1 || next - 1 <= from || next - 1 - from <= 2 {
        return None;
    }
    assert(kinds.len() == kinds@.len());
    Some(CellBand { lines: (top + first, top + last), cols: (from + 2, next - 1) })
}

/// The pipes stand one behind the other.
pub open spec fn ascending(pipes: Seq<usize>) -> bool {
    forall|i: int, j: int| 0 <= i < j < pipes.len() ==> pipes[i] < pipes[j]
}

/// The column of a table's row that a click leads to: in the clicked cell, behind
/// the markup that the cell hides. `raw` is the row's source with pipes at
/// `raw_pipes`, `shown_pipes` are the terminal cells of the pipes on the rendered
/// line, `col` the clicked one, and `sub` the part of the row that the line shows.
pub open spec fn table_col(
    raw: Seq<char>,
    raw_pipes: Seq<usize>,
    shown_pipes: Seq<usize>,
    cell_maps: Seq<CellMap>,
    col: int,
    sub: int,
) -> Option<int> {
    if raw_pipes.len() < 2 || shown_pipes.len() != raw_pipes.len() {
        None
    } else {
        let k = cell_at(shown_pipes, col, 0);
        let from = raw_pipes[k] + 1;
        let cell = raw.subrange(from, raw_pipes[k + 1] as int);
        let lead = text::skip_whitespace(cell, 0);
        let off = col - (shown_pipes[k] + 1);
        let m = cell_maps[k];
        let (start, shown): (int, Seq<char>) = if 0 <= sub < m.chunks@.len() {
            (m.chunks@[sub].start as int, m.chunks@[sub].text@)
        } else {
            (m.map.shown_len(), Seq::empty())
        };
        let at = lead + m.map.raw(
            if off <= 1 {
                start
            } else {
                start + cells::landing(shown, 0, shown.len() as int, 0, (off - 1) as nat)
            },
        );
        Some(from + state::least(at, cell.len() as int))
    }
}

/// The column of a table's row that a click leads to. Padding before a cell's text
/// leads to its first character, padding behind it to its end, so that the cursor
/// stays in the clicked cell. None where the line is no row.
pub fn table_click_to_raw_col(
    raw: &[char],
    raw_pipes: &[usize],
    shown_pipes: &[usize],
    cell_maps: &[CellMap],
    col: usize,
    sub: usize,
) -> (r: Option<usize>)
    requires
        ascending(raw_pipes@),
        raw_pipes@.len() > 0 ==> raw_pipes@.last() < raw@.len(),
        cell_maps@.len() + 1 >= shown_pipes@.len(),
        forall|i: int| 0 <= i < cell_maps@.len() ==> (#[trigger] cell_maps@[i]).map.wf(),
    ensures
        match r {
            Some(c) => table_col(
                raw@,
                raw_pipes@,
                shown_pipes@,
                cell_maps@,
                col as int,
                sub as int,
            ) == Some(c as int) && c <= raw@.len(),
            None => table_col(
                raw@,
                raw_pipes@,
                shown_pipes@,
                cell_maps@,
                col as int,
                sub as int,
            ) is None,
        },
{
    if raw_pipes.len() < 2 || shown_pipes.len() != raw_pipes.len() {
        return None;
    }
    let k: usize = find_cell(shown_pipes, col);
    assert(raw_pipes@[k as int] < raw_pipes@[k + 1]);
    assert(raw_pipes@[k + 1] <= raw_pipes@.last()) by {
        if k + 1 < raw_pipes@.len() - 1 {
            assert(raw_pipes@[k + 1] < raw_pipes@[raw_pipes@.len() - 1]);
        }
    }
    let from: usize = raw_pipes[k] + 1;
    let to: usize = raw_pipes[k + 1];
    let ghost cell = raw@.subrange(from as int, to as int);
    let mut lead: usize = 0;
    while lead < to - from && text::is_whitespace(raw[from + lead])
        invariant
            from <= to <= raw@.len(),
            lead <= to - from,
            cell == raw@.subrange(from as int, to as int),
            text::skip_whitespace(cell, 0) == text::skip_whitespace(cell, lead as int),
        decreases to - from - lead,
    {
        assert(cell[lead as int] == raw@[from + lead]);
        lead += 1;
    }
    assert(lead < to - from ==> cell[lead as int] == raw@[from + lead]);
    let m = &cell_maps[k];
    assert(cell_maps@[k as int].map.wf());
    let shown_len: usize = m.map.to_raw.len() - 1;
    let start_cell: usize = shown_pipes[k];
    let near: bool = col <= start_cell || col - start_cell <= 2;
    let shown_col: usize = if sub < m.chunks.len() {
        let chunk = &m.chunks[sub];
        if near {
            chunk.start
        } else {
            let chars: Vec<char> = text::chars_of(chunk.text.as_str());
            let n: usize = chars.len();
            let c: usize = cells::landing_index(chars.as_slice(), 0, n, col - start_cell - 2);
            if chunk.start <= shown_len && c <= shown_len - chunk.start {
                chunk.start + c
            } else {
                shown_len
            }
        }
    } else {
        shown_len
    };
    let content: usize = m.map.raw_col(shown_col);
    let size: usize = to - from;
    let at: usize = if content <= size - lead {
        lead + content
    } else {
        size
    };
    Some(from + at)
}

/// The column of the source that a shown column leads to, for a line that is no
/// table's row, of `len` characters, with `shown` characters shown.
pub open spec fn line_col(
    shown: int,
    at: int,
    len: int,
    map: InlineMap,
    mapping: LineMapping,
    marker: Option<MarkerMap>,
) -> int {
    let n = map.shown_len();
    if mapping == LineMapping::Verbatim {
        at
    } else if mapping == LineMapping::List && marker is Some {
        let m = marker->0;
        let w = m.cols@.len() as int;
        if at < w {
            m.cols@[at] as int
        } else if n == (if shown >= w {
            shown - w
        } else {
            0
        }) {
            if at - w < map.to_raw@.len() {
                map.to_raw@[at - w] as int
            } else {
                len
            }
        } else if at + m.raw_width >= w {
            at + m.raw_width - w
        } else {
            0
        }
    } else if shown >= n && shown - n <= map.to_raw@[0] {
        let prefix = shown - n;
        if at < prefix {
            state::least(at, map.to_raw@[0] as int)
        } else if at - prefix < map.to_raw@.len() {
            map.to_raw@[at - prefix] as int
        } else {
            len
        }
    } else {
        at
    }
}

/// The column of the source that a shown column leads to. What a line shows before
/// its text, such as a bullet or a quote's bar, is told by how many more characters
/// it shows than the map knows; where that cannot be, columns go one to one.
pub fn non_table_click_to_raw_col(
    shown: usize,
    at: usize,
    len: usize,
    map: &InlineMap,
    mapping: LineMapping,
    marker: &Option<MarkerMap>,
) -> (r: usize)
    requires
        map.wf(),
        at <= shown,
        *marker matches Some(m) ==> at + m.raw_width <= usize::MAX,
    ensures
        r == line_col(shown as int, at as int, len as int, *map, mapping, *marker),
{
    let n: usize = map.to_raw.len() - 1;
    if mapping == LineMapping::Verbatim {
        return at;
    }
    if mapping == LineMapping::List {
        match marker {
            Some(m) => {
                let w: usize = m.cols.len();
                if at < w {
                    return m.cols[at];
                }
                let content: usize = if shown >= w {
                    shown - w
                } else {
                    0
                };
                if n == content {
                    return if at - w < map.to_raw.len() {
                        map.to_raw[at - w]
                    } else {
                        len
                    };
                }
                return at - w + m.raw_width;
            },
            None => {},
        }
    }
    if shown >= n && shown - n <= map.to_raw[0] {
        let prefix: usize = shown - n;
        if at < prefix {
            return at;
        }
        return if at - prefix < map.to_raw.len() {
            map.to_raw[at - prefix]
        } else {
            len
        };
    }
    at
}

} // verus!
