//! On which rendered row each line of a block's source stands, and on which row of
//! the screen the cursor is.

use crate::cells;
use crate::document::cursor;
use crate::document::parsed_doc;
use crate::document::parsed_doc::{Block, ParsedDoc};
use crate::document::rope;
use crate::document::source_map;
use crate::editor::state;
use crate::editor::state::{EditorState, EditorView};
use crate::editor::wrap;
use crate::editor::wrap::{Layout, LineWrap};
use crate::text;
use vstd::prelude::*;
use vstd::string::*;

verus! {

/// What a rendered line of a table is. `sub` counts the lines that one row wraps
/// into.
#[derive(Debug, Clone, Copy, PartialEq, Eq, Structural)]
pub enum TableSubLineKind {
    TopBorder,
    Header { sub: usize },
    /// The line below the header.
    ThickSeparator,
    DataRow { row: usize, sub: usize },
    /// The line between two rows.
    ThinSeparator,
    BottomBorder,
}

/// The source of a block, line by line.
#[derive(Debug, Clone)]
pub struct RawBlock {
    /// The kinds of the block's rendered lines, if it is a table.
    pub table: Option<Vec<TableSubLineKind>>,
    /// Rendered rows above the source, which show a formula while its source is
    /// edited.
    pub offset: usize,
    pub lines: Vec<String>,
    /// The lines that begin with a list marker.
    pub markers: Vec<bool>,
}

/// The first index at or after `k` whose kind is `kind`.
pub open spec fn kind_at(kinds: Seq<TableSubLineKind>, kind: TableSubLineKind, k: int) -> Option<int>
    decreases kinds.len() - k,
{
    if k < 0 || k >= kinds.len() {
        None
    } else if kinds[k] == kind {
        Some(k)
    } else {
        kind_at(kinds, kind, k + 1)
    }
}

/// The rendered line of a table on which line `r` of its source stands.
pub open spec fn table_sub_line(kinds: Seq<TableSubLineKind>, r: int, own: int) -> int {
    let (kind, fallback) = if r == 0 {
        (TableSubLineKind::Header { sub: 0 }, 1int)
    } else if r == 1 {
        (TableSubLineKind::ThickSeparator, 2int)
    } else {
        (TableSubLineKind::DataRow { row: (r - 2) as usize, sub: 0 }, 2 * r - 1)
    };
    let at = match kind_at(kinds, kind, 0) {
        Some(i) => i,
        None => fallback,
    };
    state::least(at, own - 2)
}

/// How many bytes of whitespace a line begins with.
pub open spec fn lead_bytes(line: Seq<char>) -> int {
    rope::byte_offset(line, text::skip_whitespace(line, 0))
}

impl RawBlock {
    /// Each line has its mark.
    pub open spec fn wf(self) -> bool {
        self.markers@.len() == self.lines@.len()
    }

    /// Line `i` is blank.
    pub open spec fn blank(self, i: int) -> bool {
        text::all_whitespace(self.lines@[i]@)
    }

    /// Line `i` begins an item of the outermost list: it has a marker, at the
    /// indentation of the first line.
    pub open spec fn top_item(self, i: int) -> bool {
        self.markers@[i] && lead_bytes(self.lines@[i]@) == lead_bytes(self.lines@[0]@)
    }

    /// The first line at or after `i` that is not blank begins an outermost item.
    pub open spec fn item_follows(self, i: int) -> bool
        decreases self.lines@.len() - i,
    {
        if i < 0 || i >= self.lines@.len() {
            false
        } else if self.blank(i) {
            self.item_follows(i + 1)
        } else {
            self.top_item(i)
        }
    }

    /// Line `i` has a rendered row: a line that is not blank has one, and a blank
    /// line where the space before an outermost item shows.
    pub open spec fn renders(self, i: int) -> bool {
        !self.blank(i) || self.item_follows(i)
    }

    /// How many of the first `n` lines have a rendered row.
    pub open spec fn rendered_before(self, n: int) -> int
        decreases n,
    {
        if n <= 0 {
            0
        } else {
            self.rendered_before(n - 1) + (if self.renders(n - 1) {
                1int
            } else {
                0
            })
        }
    }
}

/// Every line of the block's source has a rendered row of its own: a diagram, whose
/// rows show the source, code, metadata, and a formula shown as code.
pub open spec fn is_verbatim(doc: ParsedDoc, byte: int, block_idx: usize) -> bool {
    doc.diagram_at(block_idx) || (match parsed_doc::block_holding(doc.real_ranges@, byte, 0) {
        Some(i) => i < doc.blocks@.len() && (doc.blocks@[i] is CodeBlock
            || doc.blocks@[i] is MetadataBlock || doc.blocks@[i] is DisplayMath),
        None => false,
    })
}

/// The rendered row, counted from the block's first, on which line `r` of the
/// block's source stands. `own` is how many rows the block has.
pub open spec fn sub_line(
    doc: ParsedDoc,
    byte: int,
    block_idx: usize,
    own: int,
    raw: RawBlock,
    r: int,
) -> int {
    let last = if own >= 1 {
        own - 1
    } else {
        0
    };
    match raw.table {
        Some(kinds) if own >= 3 => table_sub_line(kinds@, r, own),
        _ => if is_verbatim(doc, byte, block_idx) {
            state::least(r + raw.offset, last)
        } else {
            state::least(raw.rendered_before(r), last)
        },
    }
}

fn find_kind(kinds: &[TableSubLineKind], kind: TableSubLineKind) -> (r: Option<usize>)
    ensures
        match r {
            Some(i) => kind_at(kinds@, kind, 0) == Some(i as int),
            None => kind_at(kinds@, kind, 0) is None,
        },
{
    let mut k: usize = 0;
    while k < kinds.len()
        invariant
            k <= kinds@.len(),
            kind_at(kinds@, kind, k as int) == kind_at(kinds@, kind, 0),
        decreases kinds@.len() - k,
    {
        if kinds[k] == kind {
            return Some(k);
        }
        k += 1;
    }
    None
}

fn find_table_sub_line(kinds: &[TableSubLineKind], r: usize, own: usize) -> (n: usize)
    requires
        own >= 3,
    ensures
        n == table_sub_line(kinds@, r as int, own as int),
{
    let last: usize = own - 2;
    let kind = if r == 0 {
        TableSubLineKind::Header { sub: 0 }
    } else if r == 1 {
        TableSubLineKind::ThickSeparator
    } else {
        TableSubLineKind::DataRow { row: r - 2, sub: 0 }
    };
    match find_kind(kinds, kind) {
        Some(i) => if i <= last {
            i
        } else {
            last
        },
        None => {
            if r == 0 {
                1
            } else if r == 1 {
                if 2 <= last {
                    2
                } else {
                    last
                }
            } else if r > last || r - 1 >= last - r {
                last
            } else {
                2 * r - 1
            }
        },
    }
}

fn find_lead_bytes(line: &str) -> (n: usize)
    ensures
        n == lead_bytes(line@),
{
    let chars: Vec<char> = text::chars_of(line);
    let mut i: usize = 0;
    while i < chars.len() && text::is_whitespace(chars[i])
        invariant
            chars@ == line@,
            i <= chars@.len(),
            text::skip_whitespace(line@, i as int) == text::skip_whitespace(line@, 0),
        decreases chars@.len() - i,
    {
        i += 1;
    }
    let lead: String = text::text_of_chars(chars.as_slice(), 0, i);
    assert(lead@ =~= line@.take(i as int));
    text::byte_len(lead.as_str())
}

/// Which lines of the block have a rendered row.
fn find_rendering(raw: &RawBlock) -> (r: Vec<bool>)
    requires
        raw.wf(),
    ensures
        r@.len() == raw.lines@.len(),
        forall|i: int| 0 <= i < r@.len() ==> #[trigger] r@[i] == raw.renders(i),
{
    let n: usize = raw.lines.len();
    let mut out: Vec<bool> = Vec::new();
    let mut k: usize = 0;
    while k < n
        invariant
            k <= n,
            out@.len() == k,
        decreases n - k,
    {
        out.push(false);
        k += 1;
    }
    if n == 0 {
        return out;
    }
    let base: usize = find_lead_bytes(raw.lines[0].as_str());
    let mut follows: bool = false;
    let mut i: usize = n;
    while i > 0
        invariant
            raw.wf(),
            n == raw.lines@.len(),
            n > 0,
            i <= n,
            out@.len() == n,
            base == lead_bytes(raw.lines@[0]@),
            follows == raw.item_follows(i as int),
            forall|j: int| i <= j < n ==> #[trigger] out@[j] == raw.renders(j),
        decreases i,
    {
        i -= 1;
        let line = raw.lines[i].as_str();
        if text::is_blank(line) {
            out.set(i, follows);
        } else {
            out.set(i, true);
            follows = raw.markers[i] && find_lead_bytes(line) == base;
        }
    }
    out
}

/// For every line of a block's source, and once more for the line past the last,
/// the rendered row on which it stands, counted from the block's first row.
///
/// `classify_byte` is any byte inside the block, and `block_own` is how many rows
/// the block has.
pub fn sub_lines_in_block(
    parsed: &ParsedDoc,
    classify_byte: usize,
    block_idx: usize,
    block_own: usize,
    raw: &RawBlock,
) -> (r: Vec<usize>)
    requires
        raw.wf(),
        raw.lines@.len() < usize::MAX,
    ensures
        r@.len() == raw.lines@.len() + 1,
        forall|k: int|
            0 <= k < r@.len() ==> #[trigger] r@[k] == sub_line(
                *parsed,
                classify_byte as int,
                block_idx,
                block_own as int,
                *raw,
                k,
            ),
{
    let n: usize = raw.lines.len();
    let mut out: Vec<usize> = Vec::new();
    match &raw.table {
        Some(kinds) => {
            if block_own >= 3 {
                let mut k: usize = 0;
                while k <= n
                    invariant
                        n == raw.lines@.len(),
                        n < usize::MAX,
                        block_own >= 3,
                        k <= n + 1,
                        out@.len() == k,
                        forall|j: int|
                            0 <= j < k ==> #[trigger] out@[j] == table_sub_line(
                                kinds@,
                                j,
                                block_own as int,
                            ),
                    decreases n + 1 - k,
                {
                    out.push(find_table_sub_line(kinds.as_slice(), k, block_own));
                    k += 1;
                }
                return out;
            }
        },
        None => {},
    }
    let last: usize = if block_own >= 1 {
        block_own - 1
    } else {
        0
    };
    let verbatim: bool = parsed.is_diagram_reveal_block(block_idx) || (match parsed.real_block_for_byte(
        classify_byte,
    ) {
        Some(i) => i < parsed.blocks.len() && match &parsed.blocks[i] {
            Block::CodeBlock { .. } => true,
            Block::MetadataBlock => true,
            Block::DisplayMath => true,
            _ => false,
        },
        None => false,
    });
    assert(verbatim == is_verbatim(*parsed, classify_byte as int, block_idx));
    if verbatim {
        let offset: usize = raw.offset;
        let mut k: usize = 0;
        while k <= n
            invariant
                n == raw.lines@.len(),
                n < usize::MAX,
                k <= n + 1,
                offset == raw.offset,
                out@.len() == k,
                forall|j: int|
                    0 <= j < k ==> #[trigger] out@[j] == state::least(j + offset, last as int),
            decreases n + 1 - k,
        {
            out.push(
                if offset > last || k > last - offset {
                    last
                } else {
                    k + offset
                },
            );
            k += 1;
        }
        return out;
    }
    let rendering: Vec<bool> = find_rendering(raw);
    let mut before: usize = 0;
    let mut k: usize = 0;
    while k < n
        invariant
            n == raw.lines@.len(),
            n < usize::MAX,
            k <= n,
            before <= k,
            before == raw.rendered_before(k as int),
            rendering@.len() == n,
            forall|i: int| 0 <= i < n ==> #[trigger] rendering@[i] == raw.renders(i),
            out@.len() == k,
            forall|j: int|
                0 <= j < k ==> #[trigger] out@[j] == state::least(
                    raw.rendered_before(j),
                    last as int,
                ),
        decreases n - k,
    {
        out.push(
            if before <= last {
                before
            } else {
                last
            },
        );
        if rendering[k] {
            before += 1;
        }
        k += 1;
    }
    out.push(
        if before <= last {
            before
        } else {
            last
        },
    );
    out
}

/// The rendered row, counted from the block's first, on which line `line` of the
/// block's source stands; a line past the last counts as the end of the block.
pub fn cursor_sub_line_in_block(
    parsed: &ParsedDoc,
    cursor_byte: usize,
    block_idx: usize,
    block_own: usize,
    raw: &RawBlock,
    line: usize,
) -> (r: usize)
    requires
        raw.wf(),
        raw.lines@.len() < usize::MAX,
    ensures
        r == sub_line(
            *parsed,
            cursor_byte as int,
            block_idx,
            block_own as int,
            *raw,
            state::least(line as int, raw.lines@.len() as int),
        ),
{
    let subs: Vec<usize> = sub_lines_in_block(parsed, cursor_byte, block_idx, block_own, raw);
    if line < subs.len() {
        subs[line]
    } else {
        subs[subs.len() - 1]
    }
}

impl EditorView {
    /// The rendered line at which the cursor is shown, if line `line` of its block's
    /// source is its own.
    pub open spec fn cursor_line(self, raw: RawBlock, line: int) -> int {
        let map = self.parsed.source_map;
        let b = match source_map::owner(map.extended(), self.cursor_byte()) {
            Some(b) => b,
            None => 0,
        };
        let shown = source_map::shown_at(map.lines(), b, map.extended().len() as int);
        if b >= map.extended().len() || shown.0 >= shown.1 {
            self.scroll as int
        } else {
            let own = if b < self.parsed.per_block_own@.len() {
                self.parsed.per_block_own@[b] as int
            } else {
                0
            };
            shown.0 + sub_line(
                self.parsed,
                self.cursor_byte(),
                b as usize,
                own,
                raw,
                state::least(line, raw.lines@.len() as int),
            )
        }
    }

    /// The visual row of the cursor, where `above` rows are above its line.
    pub open spec fn visual_row(self, above: int, flat: LineWrap) -> usize {
        cells::capped(
            (above + wrap::row_of_col(
                flat.rows@,
                self.cursor.offset - cursor::line_start_of(self.text, self.cursor.offset as int),
                0,
            )) as nat,
        )
    }

    /// The row of the screen that the cursor is on; the first, where it is above
    /// the view.
    pub open spec fn screen_row(self, above: int, flat: LineWrap) -> int {
        let row = self.visual_row(above, flat) as int;
        if row >= self.scroll {
            row - self.scroll
        } else {
            0
        }
    }

    /// The scroll position at which the cursor is on row `target` of the screen, as
    /// far as the top of the document allows.
    pub open spec fn scroll_for_row(self, above: int, flat: LineWrap, target: int) -> usize {
        let row = self.visual_row(above, flat) as int;
        (if row >= target {
            row - target
        } else {
            0
        }) as usize
    }
}

/// The rows that the first `n` lines of a layout take.
pub open spec fn rows_above(layout: Layout, n: int) -> nat
    decreases n,
{
    if n <= 0 {
        0
    } else {
        let rows = layout.wraps@[n - 1].rows@.len();
        rows_above(layout, n - 1) + (if rows >= 1 {
            rows
        } else {
            1
        })
    }
}

/// The rows that the first `n` lines of a layout take.
pub fn count_rows_above(layout: &Layout, n: usize) -> (r: usize)
    requires
        n <= layout.wraps@.len(),
    ensures
        r == cells::capped(rows_above(*layout, n as int)),
{
    let mut sum: usize = 0;
    let mut k: usize = 0;
    while k < n
        invariant
            k <= n <= layout.wraps@.len(),
            sum == cells::capped(rows_above(*layout, k as int)),
        decreases n - k,
    {
        let m: usize = layout.wraps[k].rows.len();
        let rows: usize = if m >= 1 {
            m
        } else {
            1
        };
        sum = if rows <= usize::MAX - sum {
            sum + rows
        } else {
            usize::MAX
        };
        k += 1;
    }
    sum
}

impl EditorState {
    /// The rendered line at which the cursor is shown. `raw` is the source of the
    /// cursor's block, and `line` the cursor's line in it.
    pub fn cursor_rendered_line_idx(&self, raw: &RawBlock, line: usize) -> (r: usize)
        requires
            self.wf(),
            raw.wf(),
            raw.lines@.len() < usize::MAX,
            self@.cursor_line(*raw, line as int) <= usize::MAX,
        ensures
            r == self@.cursor_line(*raw, line as int),
    {
        let byte: usize = self.cursor_byte();
        let parsed = self.parsed();
        let block: usize = match parsed.source_map.block_for_byte(byte) {
            Some(b) => b,
            None => 0,
        };
        let range = parsed.source_map.rendered_lines_for_block(block);
        let known: bool = block < parsed.source_map.block_count();
        if !known || range.start >= range.end {
            return self.facts().scroll;
        }
        let own: usize = parsed.block_own_line_count(block);
        range.start + cursor_sub_line_in_block(parsed, byte, block, own, raw, line)
    }

    /// The visual row of the cursor. `above` counts the visual rows above its line,
    /// and `flat` are the rows of its line, wrapped without indentation: the line of
    /// the cursor is painted from the text.
    pub fn cursor_visual_row(&self, above: usize, flat: &LineWrap) -> (r: usize)
        requires
            self.wf(),
            flat.rows@.len() > 0,
        ensures
            r == self@.visual_row(above as int, *flat),
    {
        let (_, col) = self.cursor().line_col(self.buffer());
        let sub: usize = flat.sub_line_of_col(col);
        if sub <= usize::MAX - above {
            above + sub
        } else {
            usize::MAX
        }
    }

    /// The row of the screen that the cursor is on. It is kept when the view
    /// changes between the source and the rendered text, whose scroll positions
    /// count other rows.
    pub fn cursor_screen_row(&self, width: usize, above: usize, flat: &LineWrap) -> (r: usize)
        requires
            self.wf(),
            flat.rows@.len() > 0,
        ensures
            r == if width == 0 {
                0
            } else {
                self@.screen_row(above as int, *flat)
            },
    {
        if width == 0 {
            return 0;
        }
        let row: usize = self.cursor_visual_row(above, flat);
        let scroll: usize = self.facts().scroll;
        if row >= scroll {
            row - scroll
        } else {
            0
        }
    }

    /// Scrolls so that the cursor is on row `target_row` of the screen, or on a row
    /// above it where the document begins there.
    pub fn set_scroll_for_cursor_screen_row(
        &mut self,
        target_row: usize,
        width: usize,
        above: usize,
        flat: &LineWrap,
    )
        requires
            old(self).wf(),
            flat.rows@.len() > 0,
        ensures
            final(self)@ == if width == 0 {
                old(self)@
            } else {
                old(self)@.scrolled(
                    old(self)@.scroll_for_row(above as int, *flat, target_row as int),
                )
            },
            final(self).wf(),
    {
        if width == 0 {
            return ;
        }
        let row: usize = self.cursor_visual_row(above, flat);
        let scroll: usize = if row >= target_row {
            row - target_row
        } else {
            0
        };
        self.scroll_to(scroll);
    }
}

/// The cursor comes to the row of the screen that was asked for, or, near the top
/// of the document, to the row that it is on without scrolling.
pub proof fn law_screen_row_is_kept(v: EditorView, above: int, flat: LineWrap, target: int)
    requires
        0 <= target,
    ensures
        ({
            let w = v.scrolled(v.scroll_for_row(above, flat, target));
            w.screen_row(above, flat) == state::least(target, v.visual_row(above, flat) as int)
        }),
{
    reveal(EditorView::scrolled);
}

} // verus!
