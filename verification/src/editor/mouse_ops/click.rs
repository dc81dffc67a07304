//! Where in the text a click leads.

use crate::cells;
use crate::document::rope;
use crate::document::source_map;
use crate::editor::mode::Mode;
use crate::editor::mouse_ops::coord;
use crate::editor::mouse_ops::coord::{CellMap, InlineMap, LineMapping, MarkerMap};
use crate::editor::state;
use crate::editor::state::{EditorState, EditorView};
use crate::editor::state_rows::TableSubLineKind;
use crate::editor::wrap;
use crate::editor::wrap::LineWrap;
use crate::text;
use core::ops::Range;
use vstd::prelude::*;
use vstd::string::*;
use vstd::utf8::*;

verus! {

broadcast use {vstd::utf8::encode_utf8_valid_utf8, vstd::utf8::encode_utf8_decode_utf8};

/// The border between two cells of a rendered table.
pub const BORDER: char = '\u{2502}';

/// A line of a block's source, as it is shown when the block is.
#[derive(Debug)]
pub struct SourceLine {
    pub text: Vec<char>,
    pub wrap: LineWrap,
}

/// What the layers that draw the text know of a rendered line.
#[derive(Debug)]
pub struct LineFacts {
    /// How the rendered line is wrapped.
    pub wrap: LineWrap,
    /// The line's block is a table, with these kinds of rendered lines.
    pub is_table: bool,
    pub kinds: Vec<TableSubLineKind>,
    /// The rows of a formula above the source, where the line's block shows both.
    pub band: usize,
    /// The line shows a paragraph of several source lines as one flow.
    pub reflowed: bool,
    /// The lines of that paragraph's source, and the columns that the flow hides.
    pub source: Vec<SourceLine>,
    pub flow: InlineMap,
    /// The line's source can be shown in its place; not so within code.
    pub reveals: bool,
    /// The rendered line that the cursor is on.
    pub cursor_line: usize,
    /// How the line's source is wrapped.
    pub raw_wrap: LineWrap,
    /// For a line within code: the column of the source of each shown one.
    pub code: Option<Vec<usize>>,
    /// The columns that the line hides.
    pub map: InlineMap,
    pub mapping: LineMapping,
    pub marker: Option<MarkerMap>,
    /// For a table's row: the pipes of its source, those on the rendered line in
    /// terminal cells, and what its cells show.
    pub raw_pipes: Vec<usize>,
    pub shown_pipes: Vec<usize>,
    pub cells: Vec<CellMap>,
}

/// The block that a rendered line shows.
pub struct BlockLocation {
    pub idx: usize,
    pub range: Range<usize>,
    /// The block's first rendered line.
    pub first: usize,
    /// The line, counted from there.
    pub sub_idx: usize,
}

/// The rows that the lines of a block's source take.
pub open spec fn source_rows(lines: Seq<SourceLine>) -> Seq<usize> {
    lines.map_values(|l: SourceLine| l.wrap.rows@.len() as usize)
}

/// How many line feeds `b` holds.
pub open spec fn line_feeds(b: Seq<u8>) -> nat
    decreases b.len(),
{
    if b.len() == 0 {
        0
    } else {
        line_feeds(b.drop_last()) + (if b.last() == text::NEWLINE {
            1nat
        } else {
            0
        })
    }
}

impl EditorView {
    /// The block that a rendered line shows.
    pub open spec fn located(self, line: int) -> Option<(int, Range<usize>, int)> {
        let map = self.parsed.source_map;
        if 0 <= line < map.lines().len() && map.lines()[line] < map.original().len() {
            let start = map.original()[map.lines()[line] as int].start as int;
            match source_map::owner(map.extended(), start) {
                Some(b) => if b < map.original().len() {
                    Some(
                        (
                            b,
                            map.original()[b],
                            source_map::shown_at(map.lines(), b, map.extended().len() as int).0,
                        ),
                    )
                } else {
                    None
                },
                None => None,
            }
        } else {
            None
        }
    }

    /// The bytes of a block, as far as the text goes.
    pub open spec fn block_bytes(self, range: Range<usize>) -> Seq<u8> {
        let b = state::bytes_of(self.text);
        let end = state::least(range.end as int, b.len() as int);
        if text::sliceable(b, range.start as int, end) {
            b.subrange(range.start as int, end)
        } else {
            Seq::empty()
        }
    }

    /// The line of a block's source that its rendered line `sub` shows, and the
    /// part of it. An image has many rendered lines and one of source.
    pub open spec fn source_line(
        self,
        idx: int,
        sub: int,
        b: Seq<u8>,
        f: LineFacts,
    ) -> (int, int) {
        if f.is_table {
            coord::table_row_shown(f.kinds@, sub, line_feeds(b) as int + 1)
        } else if self.parsed.image_at(idx as usize) && !self.parsed.diagram_at(idx as usize) {
            (0, 0)
        } else if sub >= f.band {
            (sub - f.band, 0)
        } else {
            (0, 0)
        }
    }

    /// The ends in its block of the line of source that a rendered line shows.
    pub open spec fn line_ends(
        self,
        idx: int,
        sub: int,
        b: Seq<u8>,
        f: LineFacts,
    ) -> (int, int) {
        coord::raw_line_range(b, self.source_line(idx, sub, b, f).0 as nat, 0)
    }

    /// The line of source that a rendered line shows.
    pub open spec fn line_source(
        self,
        idx: int,
        sub: int,
        b: Seq<u8>,
        f: LineFacts,
    ) -> Seq<char> {
        let (from, to) = self.line_ends(idx, sub, b, f);
        decode_utf8(b.subrange(from, to))
    }

    /// The column of its source that a click on a rendered line leads to.
    pub open spec fn clicked_source_col(
        self,
        idx: int,
        line: int,
        row: int,
        col: int,
        source: Seq<char>,
        part: int,
        f: LineFacts,
    ) -> int {
        let shown = self.parsed.lines@[line]@;
        let at = coord::clicked_col(shown, f.wrap, row, col);
        if self.parsed.diagram_at(idx as usize) || (!f.is_table && f.reveals && self.revealed()
            && line == f.cursor_line) {
            coord::clicked_col(source, f.raw_wrap, row, col)
        } else if f.is_table && shown.contains(BORDER) {
            let c = state::least(col, cells::capped(cells::cells_of(shown)) as int);
            match coord::table_col(source, f.raw_pipes@, f.shown_pipes@, f.cells@, c, part) {
                Some(r) => r,
                None => c,
            }
        } else if !f.is_table && f.code is Some {
            f.code->0@[at] as int
        } else {
            coord::line_col(
                shown.len() as int,
                at,
                source.len() as int,
                f.map,
                f.mapping,
                f.marker,
            )
        }
    }

    /// A paragraph that is shown as one flow is shown by its source.
    pub open spec fn stacked(self, line: int, f: LineFacts) -> bool {
        self.mode == Mode::Rendered && self.revealed() && line == f.cursor_line
    }

    /// Where a click on the source of a paragraph leads that is else one flow.
    pub open spec fn stacked_offset(self, start: int, row: int, col: int, f: LineFacts) -> int {
        let n = f.source@.len() as int;
        let (k, sub) = match coord::walked(source_rows(f.source@), 0, 0, row) {
            Some(p) => p,
            None => (if n > 0 {
                n - 1
            } else {
                0
            }, 0),
        };
        let c = if n > 0 {
            coord::clicked_col(f.source@[k].text@, f.source@[k].wrap, sub, col)
        } else {
            0
        };
        let first = rope::lines_before(self.text, rope::char_of_byte(self.text, start));
        let target = state::least(first + k, rope::line_total(self.text) - 1);
        state::least(rope::line_begin(self.text, target) + c, self.text.len() as int)
    }

    /// Where a click on row `row` of rendered line `line`, at cell `col`, leads.
    pub open spec fn clicked_offset(self, line: int, row: int, col: int, f: LineFacts) -> int {
        match self.located(line) {
            None => self.text.len() as int,
            Some((idx, range, first)) => {
                let b = self.block_bytes(range);
                let start = range.start as int;
                let sub = if line >= first {
                    line - first
                } else {
                    0
                };
                if b.len() == 0 {
                    state::char_at_byte(self.text, start)
                } else if !f.is_table && f.reflowed {
                    if self.stacked(line, f) {
                        self.stacked_offset(start, row, col, f)
                    } else {
                        state::least(
                            rope::char_of_byte(self.text, start) + f.flow.raw(
                                coord::clicked_col(self.parsed.lines@[line]@, f.wrap, row, col),
                            ),
                            self.text.len() as int,
                        )
                    }
                } else {
                    let source = self.line_source(idx, sub, b, f);
                    let c = self.clicked_source_col(
                        idx,
                        line,
                        row,
                        col,
                        source,
                        self.source_line(idx, sub, b, f).1,
                        f,
                    );
                    rope::char_of_byte(self.text, start + self.line_ends(idx, sub, b, f).0)
                        + state::least(c, source.len() as int)
                }
            },
        }
    }

    /// What is known of a rendered line is of that line.
    pub open spec fn line_facts_fit(self, line: int, f: LineFacts) -> bool {
        let shown = self.parsed.lines@[line]@;
        &&& 0 <= line < self.parsed.lines@.len() ==> f.wrap.fits(shown.len() as int)
        &&& coord::kinds_fit(f.kinds@)
        &&& f.flow.wf()
        &&& f.map.wf()
        &&& forall|i: int|
            0 <= i < f.source@.len() ==> (#[trigger] f.source@[i]).wrap.fits(
                f.source@[i].text@.len() as int,
            )
        &&& f.source@.len() < usize::MAX
        &&& (f.code matches Some(cols) ==> 0 <= line < self.parsed.lines@.len() ==> cols@.len()
            > shown.len())
        &&& (f.marker matches Some(m) ==> 0 <= line < self.parsed.lines@.len() ==> shown.len()
            + m.raw_width <= usize::MAX)
        &&& coord::ascending(f.raw_pipes@)
        &&& f.cells@.len() + 1 >= f.shown_pipes@.len()
        &&& forall|i: int| 0 <= i < f.cells@.len() ==> (#[trigger] f.cells@[i]).map.wf()
        &&& (self.located(line) matches Some((idx, range, first)) ==> {
            let source = self.line_source(
                idx,
                if line >= first {
                    line - first
                } else {
                    0
                },
                self.block_bytes(range),
                f,
            );
            &&& f.raw_wrap.fits(source.len() as int)
            &&& f.raw_pipes@.len() > 0 ==> f.raw_pipes@.last() < source.len()
        })
    }
}

/// A line of a block stands in the text where its bytes do.
proof fn lemma_line_in_text(s: Seq<char>, start: int, end: int, from: int, to: int)
    requires
        text::sliceable(state::bytes_of(s), start, end),
        0 <= from <= to <= end - start,
        text::at_line_start(state::bytes_of(s).subrange(start, end), from),
        text::at_line_end(state::bytes_of(s).subrange(start, end), to),
    ensures
        ({
            let b = state::bytes_of(s).subrange(start, end);
            let i = rope::char_of_byte(s, start + from);
            let source = decode_utf8(b.subrange(from, to));
            &&& start + from <= state::bytes_of(s).len()
            &&& 0 <= i
            &&& i + source.len() <= s.len()
            &&& source == s.subrange(i, i + source.len())
        }),
{
    let all = state::bytes_of(s);
    let b = all.subrange(start, end);
    assert(is_char_boundary(all, start + from)) by {
        if from > 0 {
            assert(b[from - 1] == text::NEWLINE);
            assert(all[start + from - 1] == text::NEWLINE);
            text::lemma_boundary(all, start + from);
        }
    }
    assert(is_char_boundary(all, start + to)) by {
        if to < b.len() {
            assert(b[to] == text::NEWLINE);
            assert(all[start + to] == text::NEWLINE);
            text::lemma_boundary(all, start + to);
        }
    }
    rope::lemma_boundary_is_offset(s, start + from);
    rope::lemma_boundary_is_offset(s, start + to);
    let i = rope::char_of_byte(s, start + from);
    let j = rope::char_of_byte(s, start + to);
    if j < i {
        rope::lemma_part_bytes(s, j, i);
    }
    rope::lemma_part_bytes(s, i, j);
    assert(b.subrange(from, to) =~= all.subrange(start + from, start + to));
    encode_utf8_decode_utf8(s.subrange(i, j));
}

/// How many line feeds `b` holds.
fn count_line_feeds(b: &[u8]) -> (n: usize)
    ensures
        n == line_feeds(b@),
        n <= b@.len(),
{
    let mut n: usize = 0;
    let mut i: usize = 0;
    assert(b@.subrange(0, 0) =~= Seq::<u8>::empty());
    while i < b.len()
        invariant
            i <= b@.len(),
            n <= i,
            n == line_feeds(b@.subrange(0, i as int)),
        decreases b@.len() - i,
    {
        assert(b@.subrange(0, i + 1).drop_last() =~= b@.subrange(0, i as int));
        if b[i] == text::NEWLINE {
            n += 1;
        }
        i += 1;
    }
    assert(b@.subrange(0, i as int) =~= b@);
    n
}

fn has_border(chars: &[char]) -> (r: bool)
    ensures
        r == chars@.contains(BORDER),
{
    let mut i: usize = 0;
    while i < chars.len()
        invariant
            i <= chars@.len(),
            forall|k: int| 0 <= k < i ==> #[trigger] chars@[k] != BORDER,
        decreases chars@.len() - i,
    {
        if chars[i] == BORDER {
            assert(chars@[i as int] == BORDER);
            return true;
        }
        i += 1;
    }
    false
}

impl EditorState {
    /// The block that a rendered line shows; none where the document is behind.
    pub fn locate_block(&self, rendered_line_idx: usize) -> (r: Option<BlockLocation>)
        requires
            self.wf(),
        ensures
            match r {
                Some(l) => self@.located(rendered_line_idx as int) == Some(
                    (l.idx as int, l.range, l.first as int),
                ) && l.sub_idx == (if rendered_line_idx >= l.first {
                    rendered_line_idx - l.first
                } else {
                    0
                }) && rendered_line_idx < self@.parsed.lines@.len() && l.first
                    < self@.parsed.lines@.len(),
                None => self@.located(rendered_line_idx as int) is None,
            },
    {
        let parsed = self.parsed();
        let start: usize = match parsed.source_map.original_byte_for_rendered_line(
            rendered_line_idx,
        ) {
            Some(b) => b,
            None => {
                return None;
            },
        };
        let idx: usize = match parsed.source_map.block_for_byte(start) {
            Some(b) => b,
            None => {
                return None;
            },
        };
        let range: Range<usize> = match parsed.source_map.original_range_for_block(idx) {
            Some(range) => range,
            None => {
                return None;
            },
        };
        let shown = parsed.source_map.rendered_lines_for_block(idx);
        let sub_idx: usize = if rendered_line_idx >= shown.start {
            rendered_line_idx - shown.start
        } else {
            0
        };
        Some(BlockLocation { idx, range, first: shown.start, sub_idx })
    }

    /// The text of a block, as far as the buffer goes.
    pub fn block_text(&self, range: &Range<usize>) -> (r: String)
        ensures
            encode_utf8(r@) == self@.block_bytes(*range),
    {
        let total: usize = self.buffer().len_bytes();
        let end: usize = if range.end <= total {
            range.end
        } else {
            total
        };
        match self.buffer().byte_slice_to_string(range.start, end) {
            Some(t) => t,
            None => {
                let t: String = String::new();
                assert(t@ =~= Seq::<char>::empty());
                assert(encode_utf8(t@) =~= Seq::<u8>::empty());
                t
            },
        }
    }

    /// The line of source that a rendered line shows, where it begins in its block,
    /// and the part of it that is shown.
    pub fn clicked_line(&self, loc: &BlockLocation, block: &str, f: &LineFacts) -> (r: (
        usize,
        Vec<char>,
        usize,
    ))
        requires
            coord::kinds_fit(f.kinds@),
            block.spec_bytes().len() < usize::MAX,
        ensures
            ({
                let b = block.spec_bytes();
                let sub = loc.sub_idx as int;
                let ends = self@.line_ends(loc.idx as int, sub, b, *f);
                &&& r.0 == ends.0
                &&& r.1@ == self@.line_source(loc.idx as int, sub, b, *f)
                &&& r.2 == self@.source_line(loc.idx as int, sub, b, *f).1
                &&& 0 <= ends.0 <= ends.1 <= b.len()
                &&& text::at_line_start(b, ends.0)
                &&& text::at_line_end(b, ends.1)
            }),
    {
        let bytes = block.as_bytes();
        let (k, part) = if f.is_table {
            let lines: usize = count_line_feeds(bytes) + 1;
            coord::table_raw_line_idx(f.kinds.as_slice(), loc.sub_idx, lines)
        } else if self.parsed().is_image_block(loc.idx) && !self.parsed().is_diagram_reveal_block(
            loc.idx,
        ) {
            (0, 0)
        } else if loc.sub_idx >= f.band {
            (loc.sub_idx - f.band, 0)
        } else {
            (0, 0)
        };
        let (from, to) = coord::raw_line_byte_range(bytes, k);
        let line = text::line_slice(block, from, to);
        let chars: Vec<char> = text::chars_of(line);
        (from, chars, part)
    }

    /// The column of its source that a click on a rendered line leads to.
    fn click_to_source_col(
        &self,
        idx: usize,
        line: usize,
        row: usize,
        col: usize,
        source: &[char],
        part: usize,
        f: &LineFacts,
    ) -> (r: usize)
        requires
            self.wf(),
            line < self@.parsed.lines@.len(),
            f.wrap.fits(self@.parsed.lines@[line as int]@.len() as int),
            f.raw_wrap.fits(source@.len() as int),
            f.map.wf(),
            f.code matches Some(cols) ==> cols@.len() > self@.parsed.lines@[line as int]@.len(),
            f.marker matches Some(m) ==> self@.parsed.lines@[line as int]@.len() + m.raw_width
                <= usize::MAX,
            coord::ascending(f.raw_pipes@),
            f.raw_pipes@.len() > 0 ==> f.raw_pipes@.last() < source@.len(),
            f.cells@.len() + 1 >= f.shown_pipes@.len(),
            forall|i: int| 0 <= i < f.cells@.len() ==> (#[trigger] f.cells@[i]).map.wf(),
        ensures
            r == self@.clicked_source_col(
                idx as int,
                line as int,
                row as int,
                col as int,
                source@,
                part as int,
                *f,
            ),
    {
        let revealed: bool = !f.is_table && f.reveals && self.cursor_block_revealed() && line
            == f.cursor_line;
        if self.parsed().is_diagram_reveal_block(idx) || revealed {
            return coord::click_in_line(source, &f.raw_wrap, row, col);
        }
        let shown_text: String = self.parsed().lines[line].text();
        let shown: Vec<char> = text::chars_of(shown_text.as_str());
        if f.is_table && has_border(shown.as_slice()) {
            let width: usize = cells::text_cells(shown_text.as_str());
            let c: usize = if col <= width {
                col
            } else {
                width
            };
            return match coord::table_click_to_raw_col(
                source,
                f.raw_pipes.as_slice(),
                f.shown_pipes.as_slice(),
                f.cells.as_slice(),
                c,
                part,
            ) {
                Some(r) => r,
                None => c,
            };
        }
        let at: usize = coord::click_in_line(shown.as_slice(), &f.wrap, row, col);
        if !f.is_table {
            match &f.code {
                Some(cols) => {
                    return cols[at];
                },
                None => {},
            }
        }
        coord::non_table_click_to_raw_col(
            shown.len(),
            at,
            source.len(),
            &f.map,
            f.mapping,
            &f.marker,
        )
    }

    /// Where a click on the source of a paragraph leads that is else one flow: the
    /// lines of the source stand below one another.
    fn stacked_click(&self, start: usize, row: usize, col: usize, f: &LineFacts) -> (r: usize)
        requires
            start <= state::bytes_of(self@.text).len(),
            forall|i: int|
                0 <= i < f.source@.len() ==> (#[trigger] f.source@[i]).wrap.fits(
                    f.source@[i].text@.len() as int,
                ),
            f.source@.len() < usize::MAX,
        ensures
            r == self@.stacked_offset(start as int, row as int, col as int, *f),
            r <= self@.text.len(),
    {
        let n: usize = f.source.len();
        let mut rows: Vec<usize> = Vec::new();
        let mut i: usize = 0;
        while i < n
            invariant
                n == f.source@.len(),
                i <= n,
                rows@.len() == i,
                forall|k: int|
                    0 <= k < i ==> #[trigger] rows@[k] == f.source@[k].wrap.rows@.len(),
            decreases n - i,
        {
            rows.push(f.source[i].wrap.rows.len());
            i += 1;
        }
        assert(rows@ =~= source_rows(f.source@));
        let (k, sub) = match coord::walk_rows(rows.as_slice(), 0, 0, row) {
            Some(p) => p,
            None => (if n > 0 {
                n - 1
            } else {
                0
            }, 0),
        };
        let c: usize = if n > 0 {
            assert(f.source@[k as int].wrap.fits(f.source@[k as int].text@.len() as int));
            coord::click_in_line(f.source[k].text.as_slice(), &f.source[k].wrap, sub, col)
        } else {
            0
        };
        let buf = self.buffer();
        let first: usize = buf.byte_to_line(start);
        let last: usize = buf.line_count() - 1;
        let target: usize = if k <= last - first {
            first + k
        } else {
            last
        };
        let begin: usize = buf.line_to_char(target);
        let len: usize = buf.len_chars();
        if c <= len - begin {
            begin + c
        } else {
            len
        }
    }
}

/// Where a click on row `sub_row_within_line` of a rendered line, at cell `col`,
/// leads: to the place in the block's source that is shown there, as near as the
/// drawn text tells it.
pub fn rendered_sub_line_to_offset(
    state: &EditorState,
    rendered_line_idx: usize,
    sub_row_within_line: usize,
    col: usize,
    f: &LineFacts,
) -> (r: usize)
    requires
        state.wf(),
        state@.line_facts_fit(rendered_line_idx as int, *f),
        state::bytes_of(state@.text).len() < usize::MAX,
    ensures
        r == state@.clicked_offset(
            rendered_line_idx as int,
            sub_row_within_line as int,
            col as int,
            *f,
        ),
        r <= state@.text.len(),
{
    let len: usize = state.buffer().len_chars();
    let loc: BlockLocation = match state.locate_block(rendered_line_idx) {
        Some(l) => l,
        None => {
            return len;
        },
    };
    let block: String = state.block_text(&loc.range);
    let ghost b = state@.block_bytes(loc.range);
    let ghost start = loc.range.start as int;
    if block.as_str().as_bytes().len() == 0 {
        return state.char_at_byte(loc.range.start);
    }
    let ghost end = state::least(loc.range.end as int, state::bytes_of(state@.text).len() as int);
    assert(text::sliceable(state::bytes_of(state@.text), start, end));
    if !f.is_table && f.reflowed {
        if state.mode() == Mode::Rendered && state.cursor_block_revealed() && rendered_line_idx
            == f.cursor_line {
            return state.stacked_click(loc.range.start, sub_row_within_line, col, f);
        }
        let shown_text: String = state.parsed().lines[rendered_line_idx].text();
        let shown: Vec<char> = text::chars_of(shown_text.as_str());
        let at: usize = coord::click_in_line(
            shown.as_slice(),
            &f.wrap,
            sub_row_within_line,
            col,
        );
        let c: usize = f.flow.raw_col(at);
        let first: usize = state.buffer().byte_to_char(loc.range.start);
        return if c <= len - first {
            first + c
        } else {
            len
        };
    }
    let (from, source, part) = state.clicked_line(&loc, block.as_str(), f);
    let c: usize = state.click_to_source_col(
        loc.idx,
        rendered_line_idx,
        sub_row_within_line,
        col,
        source.as_slice(),
        part,
        f,
    );
    proof {
        let ends = state@.line_ends(loc.idx as int, loc.sub_idx as int, b, *f);
        lemma_line_in_text(state@.text, start, end, ends.0, ends.1);
    }
    let first: usize = state.buffer().byte_to_char(loc.range.start + from);
    let n: usize = source.len();
    if c <= n {
        first + c
    } else {
        first + n
    }
}

/// A text without the line feeds that it ends with.
pub open spec fn without_feeds(s: Seq<char>) -> Seq<char>
    decreases s.len(),
{
    if s.len() > 0 && s.last() == '\n' {
        without_feeds(s.drop_last())
    } else {
        s
    }
}

impl EditorView {
    /// `raw` is line `idx` of the text, without its line feed.
    pub open spec fn is_line(self, idx: int, raw: Seq<char>) -> bool {
        &&& 0 <= idx < rope::line_total(self.text)
        &&& without_feeds(
            self.text.subrange(rope::line_begin(self.text, idx), rope::line_begin(self.text, idx + 1)),
        ) == raw
    }
}

impl EditorState {
    /// The columns that line `buffer_line_idx` of the text, which reads `raw_line`, hides.
    ///
    /// `kept` holds the maps of the text's lines, and is keyed by the line alone. A line
    /// that reads otherwise, which a click can come by, is served by the map that was made
    /// of it, `fresh`, so that no column of another line is used for it.
    pub fn inline_map_for<'a>(
        &self,
        buffer_line_idx: usize,
        raw_line: &str,
        kept: &'a [InlineMap],
        fresh: &'a InlineMap,
    ) -> (r: &'a InlineMap)
        ensures
            *r == if self@.is_line(buffer_line_idx as int, raw_line@) && buffer_line_idx
                < kept@.len() {
                kept@[buffer_line_idx as int]
            } else {
                *fresh
            },
    {
        if buffer_line_idx >= kept.len() {
            return fresh;
        }
        match self.buffer().line(buffer_line_idx) {
            Some(line) => {
                let chars: Vec<char> = text::chars_of(line.as_str());
                let want: Vec<char> = text::chars_of(raw_line);
                let mut n: usize = chars.len();
                assert(chars@.take(n as int) =~= chars@);
                while n > 0 && chars[n - 1] == '\n'
                    invariant
                        n <= chars@.len(),
                        without_feeds(chars@.take(n as int)) == without_feeds(chars@),
                    decreases n,
                {
                    assert(chars@.take(n as int).drop_last() =~= chars@.take(n - 1));
                    n -= 1;
                }
                proof {
                    if n > 0 {
                        assert(chars@.take(n as int).last() == chars@[n - 1]);
                    }
                }
                if same_chars(chars.as_slice(), n, want.as_slice()) {
                    &kept[buffer_line_idx]
                } else {
                    fresh
                }
            },
            None => fresh,
        }
    }
}

/// True iff the first `n` characters of `a` are those of `b`.
fn same_chars(a: &[char], n: usize, b: &[char]) -> (r: bool)
    requires
        n <= a@.len(),
    ensures
        r == (a@.take(n as int) == b@),
{
    if b.len() != n {
        return false;
    }
    let mut i: usize = 0;
    while i < n
        invariant
            i <= n == b@.len(),
            n <= a@.len(),
            forall|k: int| 0 <= k < i ==> a@[k] == b@[k],
        decreases n - i,
    {
        if a[i] != b[i] {
            assert(a@.take(n as int)[i as int] != b@[i as int]);
            return false;
        }
        i += 1;
    }
    assert(a@.take(n as int) =~= b@);
    true
}

} // verus!
