//! What the pointer is on.

use crate::document::parsed_doc::RenderedLine;
use crate::document::selection::CellBand;
use crate::document::rope;
use crate::document::source_map;
use crate::editor::footnote_edit;
use crate::editor::link::LinkTarget;
use crate::editor::mouse_ops::checkbox;
use crate::editor::mouse_ops::coord;
use crate::editor::mouse_ops::footnotes;
use crate::editor::mouse_ops::links;
use crate::editor::state;
use crate::editor::state::{EditorState, EditorView};
use crate::editor::state_rows::TableSubLineKind;
use crate::editor::table_edit::{RowKind, TableInfo};
use crate::text;
use vstd::prelude::*;
use vstd::string::*;
use vstd::utf8::*;

verus! {

broadcast use {vstd::utf8::encode_utf8_valid_utf8, vstd::utf8::encode_utf8_decode_utf8};

/// The sign behind a footnote's text that leads back to its mark.
pub const BACK_LINK_GLYPH: char = '\u{21a9}';

/// A part of a drawn table.
#[derive(Debug, Clone, Copy, PartialEq, Eq, Structural)]
pub enum TableHit {
    RowHandle { row_idx: usize },
    ColumnHandle { col_idx: usize },
    /// The border before column `col_idx`; the first is the table's left edge.
    ColumnBorder { col_idx: usize },
    DeleteRowHandle { row_idx: usize },
    DeleteColumnHandle { col_idx: usize },
    Cell { row_idx: usize, col_idx: usize },
}

/// A run of text that is drawn as a link.
#[derive(Debug)]
pub enum LinkRun {
    Link { url: String, title: Option<String> },
    /// The text of an image, which is drawn as a link and is none.
    ImagePlaceholder,
}

/// A border that can be dragged: any but the table's left edge.
pub open spec fn draggable(col_idx: int, col_count: int) -> bool {
    0 < col_idx <= col_count
}

/// A part of a table that answers to a click.
pub open spec fn is_handle(hit: TableHit, col_count: int) -> bool {
    match hit {
        TableHit::Cell { .. } => false,
        TableHit::ColumnBorder { col_idx } => draggable(col_idx as int, col_count),
        _ => true,
    }
}

/// True iff a part of a table answers to a click.
pub fn acts_on_handle(hit: TableHit, col_count: usize) -> (r: bool)
    ensures
        r == is_handle(hit, col_count as int),
{
    match hit {
        TableHit::Cell { .. } => false,
        TableHit::ColumnBorder { col_idx } => col_idx > 0 && col_idx <= col_count,
        _ => true,
    }
}

/// `pat` stands in `b` at `i`.
pub open spec fn stands(b: Seq<u8>, pat: Seq<u8>, i: int) -> bool {
    0 <= i && i + pat.len() <= b.len() && b.subrange(i, i + pat.len()) == pat
}

/// The last place at or before `i` at which `pat` stands in `b`.
pub open spec fn last_stand(b: Seq<u8>, pat: Seq<u8>, i: int) -> Option<int>
    decreases i + 1,
{
    if i < 0 {
        None
    } else if stands(b, pat, i) {
        Some(i)
    } else {
        last_stand(b, pat, i - 1)
    }
}

/// The end of `b` without the line feeds at its end.
pub open spec fn end_without_feeds(b: Seq<u8>, i: int) -> int
    decreases i,
{
    if 0 < i <= b.len() && b[i - 1] == text::NEWLINE {
        end_without_feeds(b, i - 1)
    } else {
        i
    }
}

/// The bytes of a line that ends a diagram: a line feed and three backquotes.
pub open spec fn fence_line() -> Seq<u8> {
    seq![10u8, 96u8, 96u8, 96u8]
}

/// The bytes of a line that ends a formula: a line feed and two dollar signs.
pub open spec fn formula_line() -> Seq<u8> {
    seq![10u8, 36u8, 36u8]
}

/// Two dollar signs.
pub open spec fn formula_end() -> Seq<u8> {
    seq![36u8, 36u8]
}

/// Where in the source of an image block a click on it puts the cursor: to the end
/// of the source, but before the line that ends a diagram or a formula, so that the
/// cursor is in the block.
pub open spec fn target_in_image(b: Seq<u8>, diagram: bool, formula: bool) -> int {
    let n = end_without_feeds(b, b.len() as int);
    let t = b.take(n);
    if diagram {
        match last_stand(t, fence_line(), n) {
            Some(i) => i,
            None => n,
        }
    } else if formula {
        match last_stand(t, formula_line(), n) {
            Some(i) => i,
            None => match last_stand(t, formula_end(), n) {
                Some(i) => i,
                None => n,
            },
        }
    } else {
        n
    }
}

/// The first definition among the markers from `k` on.
pub open spec fn definition_from(markers: Seq<footnote_edit::MarkerSpan>, k: int) -> Option<int>
    decreases markers.len() - k,
{
    if k < 0 || k >= markers.len() {
        None
    } else if markers[k].is_definition {
        Some(k)
    } else {
        definition_from(markers, k + 1)
    }
}

/// The first run, from run `k` on, that holds column `col`.
pub open spec fn run_at(runs: Seq<(int, int)>, col: int, k: int) -> Option<int>
    decreases runs.len() - k,
{
    if k < 0 || k >= runs.len() {
        None
    } else if runs[k].0 <= col < runs[k].1 {
        Some(k)
    } else {
        run_at(runs, col, k + 1)
    }
}

/// How many link runs the lines `from..to` hold.
pub open spec fn runs_between(lines: Seq<RenderedLine>, from: int, to: int) -> int
    decreases to - from,
{
    if from >= to {
        0
    } else {
        runs_between(lines, from, to - 1) + links::link_runs(
            lines[to - 1].spans@,
            0,
            0,
            None,
        ).len()
    }
}

impl EditorView {
    /// Image block `k` is shown on a rendered line.
    pub open spec fn image_shown(self, k: int, line: int) -> bool {
        let map = self.parsed.source_map;
        let b = self.parsed.image_blocks@[k].block_idx as int;
        let (first, end) = source_map::shown_at(map.lines(), b, map.extended().len() as int);
        b < map.extended().len() && first <= line < end
    }

    /// The image block that a rendered line shows, from image `k` on.
    pub open spec fn image_under(self, line: int, k: int) -> Option<usize>
        decreases self.parsed.image_blocks@.len() - k,
    {
        if k < 0 || k >= self.parsed.image_blocks@.len() {
            None
        } else if self.image_shown(k, line) {
            Some(self.parsed.image_blocks@[k].block_idx)
        } else {
            self.image_under(line, k + 1)
        }
    }

    /// Where a click on an image block puts the cursor.
    pub open spec fn image_target(self, idx: int) -> Option<int> {
        let ranges = self.parsed.source_map.original();
        let b = state::bytes_of(self.text);
        if 0 <= idx < ranges.len() {
            let start = ranges[idx].start as int;
            let end = state::least(ranges[idx].end as int, b.len() as int);
            if text::sliceable(b, start, end) {
                Some(
                    rope::char_of_byte(
                        self.text,
                        start + target_in_image(
                            b.subrange(start, end),
                            self.parsed.mermaid_at(idx as usize),
                            self.parsed.latex_at(idx as usize),
                        ),
                    ),
                )
            } else {
                None
            }
        } else {
            None
        }
    }

    /// The label of the footnote whose way back is drawn under the pointer: the sign
    /// at the end of a rendered line.
    pub open spec fn back_link(self, line: int, col: int) -> Option<Seq<u8>> {
        if !(0 <= line < self.parsed.lines@.len()) {
            None
        } else {
            let shown = self.parsed.lines@[line]@;
            if shown.len() == 0 || col < shown.len() - 1 || shown.last() != BACK_LINK_GLYPH {
                None
            } else {
                match self.located(line) {
                    Some((_, range, _)) => {
                        let markers = footnote_edit::markers_from(self.block_bytes(range), 0);
                        match definition_from(markers, 0) {
                            Some(k) => Some(markers[k].label),
                            None => None,
                        }
                    },
                    None => None,
                }
            }
        }
    }

    /// The number of the link of its block that is drawn at column `col` of a
    /// rendered line.
    pub open spec fn link_number(self, line: int, col: int) -> Option<int> {
        if !(0 <= line < self.parsed.lines@.len()) {
            None
        } else {
            match run_at(
                links::link_runs(self.parsed.lines@[line].spans@, 0, 0, None),
                col,
                0,
            ) {
                Some(k) => match self.located(line) {
                    Some((_, _, first)) => Some(
                        runs_between(self.parsed.lines@, first, line) + k,
                    ),
                    None => None,
                },
                None => None,
            }
        }
    }

    /// The cell of a table that a click in the preview is bound to.
    pub open spec fn preview_band(
        self,
        line: int,
        col: int,
        table: Option<Vec<TableSubLineKind>>,
        pipes: Seq<usize>,
        pipe_cells: Seq<usize>,
    ) -> Option<CellBand> {
        match (self.located(line), table) {
            (Some((_, _, first)), Some(kinds)) => coord::cell_band(
                kinds@,
                if line >= first {
                    line - first
                } else {
                    0
                },
                first,
                pipes,
                pipe_cells,
                col,
            ),
            _ => None,
        }
    }

    /// A footnote's mark or a checkbox is at a character offset.
    pub open spec fn answers_at(self, offset: int) -> bool {
        let byte = rope::byte_offset(self.text, offset);
        footnotes::footnote_at(state::bytes_of(self.text), byte) is Some || checkbox::box_at(
            state::bytes_of(self.text),
            byte,
        )
    }

    /// Something that answers to a click is under the pointer, links aside.
    pub open spec fn clickable(
        self,
        hits: Seq<(TableHit, usize)>,
        line: Option<usize>,
        col: int,
        offset: Option<usize>,
    ) -> bool {
        ||| exists|i: int|
            0 <= i < hits.len() && is_handle((#[trigger] hits[i]).0, hits[i].1 as int)
        ||| (line matches Some(l) && l < self.parsed.lines@.len() && col
            < self.parsed.lines@[l as int]@.len() && (self.back_link(l as int, col) is Some
            || (offset matches Some(o) && self.answers_at(o as int))))
    }
}

/// True iff `pat` stands in `b` at `i`.
fn stands_at(b: &[u8], pat: &[u8], i: usize) -> (r: bool)
    requires
        i <= b@.len(),
    ensures
        r == stands(b@, pat@, i as int),
{
    if pat.len() > b.len() - i {
        return false;
    }
    let n: usize = b.len();
    let mut k: usize = 0;
    while k < pat.len()
        invariant
            n == b@.len(),
            i + pat@.len() <= n,
            k <= pat@.len(),
            forall|j: int| 0 <= j < k ==> #[trigger] pat@[j] == b@[i + j],
        decreases pat@.len() - k,
    {
        if pat[k] != b[i + k] {
            assert(b@.subrange(i as int, i + pat@.len())[k as int] != pat@[k as int]);
            return false;
        }
        k += 1;
    }
    assert(b@.subrange(i as int, i + pat@.len()) =~= pat@);
    true
}

/// The last place at which `pat` stands among the first `n` bytes of `b`.
fn find_last(b: &[u8], n: usize, pat: &[u8]) -> (r: Option<usize>)
    requires
        n <= b@.len(),
    ensures
        match r {
            Some(i) => last_stand(b@.take(n as int), pat@, n as int) == Some(i as int) && i <= n,
            None => last_stand(b@.take(n as int), pat@, n as int) is None,
        },
{
    let ghost t = b@.take(n as int);
    let mut i: usize = n;
    loop
        invariant
            n <= b@.len(),
            i <= n,
            t == b@.take(n as int),
            last_stand(t, pat@, n as int) == last_stand(t, pat@, i as int),
        decreases i,
    {
        if pat.len() <= n - i && stands_at(b, pat, i) {
            assert(t.subrange(i as int, i + pat@.len()) =~= b@.subrange(
                i as int,
                i + pat@.len(),
            ));
            return Some(i);
        }
        assert(!stands(t, pat@, i as int)) by {
            if pat@.len() <= n - i {
                assert(t.subrange(i as int, i + pat@.len()) =~= b@.subrange(
                    i as int,
                    i + pat@.len(),
                ));
            }
        }
        if i == 0 {
            assert(last_stand(t, pat@, -1) is None);
            return None;
        }
        i -= 1;
    }
}

/// Where in the source of an image block a click on it puts the cursor.
fn find_target_in_image(b: &[u8], diagram: bool, formula: bool) -> (r: usize)
    ensures
        r == target_in_image(b@, diagram, formula),
        r <= b@.len(),
{
    let mut n: usize = b.len();
    while n > 0 && b[n - 1] == text::NEWLINE
        invariant
            n <= b@.len(),
            end_without_feeds(b@, b@.len() as int) == end_without_feeds(b@, n as int),
        decreases n,
    {
        n -= 1;
    }
    if diagram {
        let fence: [u8; 4] = [10, 96, 96, 96];
        assert(fence@ =~= fence_line());
        return match find_last(b, n, &fence) {
            Some(i) => i,
            None => n,
        };
    }
    if formula {
        let line: [u8; 3] = [10, 36, 36];
        assert(line@ =~= formula_line());
        match find_last(b, n, &line) {
            Some(i) => {
                return i;
            },
            None => {},
        }
        let end: [u8; 2] = [36, 36];
        assert(end@ =~= formula_end());
        return match find_last(b, n, &end) {
            Some(i) => i,
            None => n,
        };
    }
    n
}

/// The first definition among footnote markers.
fn find_definition(spans: &[footnote_edit::FootnoteSpan]) -> (r: Option<usize>)
    ensures
        match r {
            Some(k) => definition_from(footnote_edit::span_views(spans@), 0) == Some(k as int) && k
                < spans@.len(),
            None => definition_from(footnote_edit::span_views(spans@), 0) is None,
        },
{
    let ghost markers = footnote_edit::span_views(spans@);
    let mut k: usize = 0;
    while k < spans.len()
        invariant
            footnote_edit::span_views(spans@) == markers,
            k <= spans@.len(),
            definition_from(markers, 0) == definition_from(markers, k as int),
        decreases spans@.len() - k,
    {
        assert(markers[k as int] == spans@[k as int]@);
        if spans[k].is_definition {
            return Some(k);
        }
        k += 1;
    }
    None
}

/// The first run that holds a column.
fn find_run(ranges: &[(usize, usize)], col: usize) -> (r: Option<usize>)
    ensures
        match r {
            Some(k) => run_at(links::range_views(ranges@), col as int, 0) == Some(k as int),
            None => run_at(links::range_views(ranges@), col as int, 0) is None,
        },
{
    let ghost views = links::range_views(ranges@);
    let mut k: usize = 0;
    while k < ranges.len()
        invariant
            views == links::range_views(ranges@),
            k <= ranges@.len(),
            run_at(views, col as int, 0) == run_at(views, col as int, k as int),
        decreases ranges@.len() - k,
    {
        assert(views[k as int] == (ranges@[k as int].0 as int, ranges@[k as int].1 as int));
        if ranges[k].0 <= col && col < ranges[k].1 {
            return Some(k);
        }
        k += 1;
    }
    None
}

/// The character range of a cell of a table, in which a drag that begins there
/// stays; none for the row of dashes.
pub open spec fn cell_range(s: Seq<char>, info: TableInfo, row: int, col: int) -> Option<
    (usize, usize),
> {
    if 0 <= row < info.rows@.len() && info.rows@[row].kind != RowKind::Alignment && 0 <= col
        < info.rows@[row].cells@.len() {
        let r = info.rows@[row];
        Some(
            (
                state::char_at_byte(s, r.start + r.cells@[col].content_start) as usize,
                state::char_at_byte(s, r.start + r.cells@[col].content_end) as usize,
            ),
        )
    } else {
        None
    }
}

impl EditorState {
    /// The index of the image block that a rendered line shows.
    pub fn image_block_at_click(&self, line: usize) -> (r: Option<usize>)
        requires
            self.wf(),
        ensures
            r == self@.image_under(line as int, 0),
    {
        let doc = self.parsed();
        let n: usize = doc.image_blocks.len();
        let blocks: usize = doc.source_map.block_count();
        let mut k: usize = 0;
        while k < n
            invariant
                *doc == self@.parsed,
                doc.wf(),
                n == doc.image_blocks@.len(),
                blocks == doc.source_map.extended().len(),
                k <= n,
                self@.image_under(line as int, 0) == self@.image_under(line as int, k as int),
            decreases n - k,
        {
            let b: usize = doc.image_blocks[k].block_idx;
            let lines = doc.source_map.rendered_lines_for_block(b);
            if b < blocks && lines.start <= line && line < lines.end {
                return Some(b);
            }
            k += 1;
        }
        None
    }

    /// Where a click on an image block puts the cursor. None where the block has no
    /// source.
    pub fn image_block_cursor_target(&self, block_idx: usize) -> (r: Option<usize>)
        requires
            self.wf(),
        ensures
            self@.image_target(block_idx as int) == (match r {
                Some(t) => Some(t as int),
                None => None,
            }),
            r matches Some(t) ==> t <= self@.text.len(),
    {
        let range = match self.parsed().source_map.original_range_for_block(block_idx) {
            Some(range) => range,
            None => {
                return None;
            },
        };
        let total: usize = self.buffer().len_bytes();
        let end: usize = if range.end <= total {
            range.end
        } else {
            total
        };
        match self.buffer().byte_slice_to_string(range.start, end) {
            None => None,
            Some(t) => {
                let diagram: bool = self.parsed().is_mermaid_block(block_idx);
                let formula: bool = self.parsed().is_latex_block(block_idx);
                let at: usize = find_target_in_image(t.as_str().as_bytes(), diagram, formula);
                Some(self.buffer().byte_to_char(range.start + at))
            },
        }
    }

    /// The footnote to go back to, where the sign for that is drawn under the
    /// pointer.
    pub fn back_link_glyph_at_click(&self, line: Option<usize>, col: usize) -> (r: Option<
        LinkTarget,
    >)
        requires
            self.wf(),
        ensures
            match line {
                Some(l) => match self@.back_link(l as int, col as int) {
                    Some(label) => r matches Some(LinkTarget::FootnoteBack(t)) && encode_utf8(t@)
                        == label,
                    None => r is None,
                },
                None => r is None,
            },
    {
        let line: usize = match line {
            Some(l) => l,
            None => {
                return None;
            },
        };
        if line >= self.parsed().lines.len() {
            return None;
        }
        let shown: Vec<char> = text::chars_of(self.parsed().lines[line].text().as_str());
        let n: usize = shown.len();
        if n == 0 || col < n - 1 || shown[n - 1] != BACK_LINK_GLYPH {
            return None;
        }
        let loc = match self.locate_block(line) {
            Some(l) => l,
            None => {
                return None;
            },
        };
        let block: String = self.block_text(&loc.range);
        let spans = footnote_edit::scan(block.as_str());
        match find_definition(spans.as_slice()) {
            Some(k) => {
                assert(footnote_edit::span_views(spans@)[k as int] == spans@[k as int]@);
                Some(LinkTarget::FootnoteBack(spans[k].label.clone()))
            },
            None => None,
        }
    }

    /// How many link runs the rendered lines `from..to` hold.
    fn count_runs(&self, from: usize, to: usize) -> (n: usize)
        requires
            to <= self@.parsed.lines@.len(),
            runs_between(self@.parsed.lines@, from as int, to as int) <= usize::MAX,
        ensures
            n == runs_between(self@.parsed.lines@, from as int, to as int),
    {
        let lines = &self.parsed().lines;
        let mut n: usize = 0;
        let mut i: usize = from;
        while i < to
            invariant
                lines@ == self@.parsed.lines@,
                from <= i,
                i <= to || i == from,
                to <= lines@.len(),
                n == runs_between(lines@, from as int, i as int),
                runs_between(lines@, from as int, to as int) <= usize::MAX,
            decreases to - i,
        {
            let runs = links::link_run_ranges(&lines[i]);
            proof {
                assert(links::range_views(runs@).len() == runs@.len());
                lemma_runs_grow(lines@, from as int, i + 1, to as int);
            }
            n += runs.len();
            i += 1;
        }
        n
    }

    /// The destination and the title of the link that is drawn at a column of a
    /// rendered line, where `runs` are the links of its block in order. The links of
    /// a block are counted over all its lines.
    pub fn link_at_rendered_pos(&self, at: Option<(usize, usize)>, runs: &[LinkRun]) -> (r: Option<
        (String, Option<String>),
    >)
        requires
            self.wf(),
            at matches Some(p) ==> runs_between(self@.parsed.lines@, 0, p.0 as int) <= usize::MAX
                && p.0 < usize::MAX,
        ensures
            match at {
                Some(p) => match self@.link_number(p.0 as int, p.1 as int) {
                    Some(k) => if k < runs@.len() {
                        match runs@[k] {
                            LinkRun::Link { url, title } => r matches Some(l) && l.0@ == url@ && (l.1
                                is Some == title is Some) && (title matches Some(t) ==> l.1->0@
                                == t@),
                            LinkRun::ImagePlaceholder => r is None,
                        }
                    } else {
                        r is None
                    },
                    None => r is None,
                },
                None => r is None,
            },
    {
        let (line, col) = match at {
            Some(p) => p,
            None => {
                return None;
            },
        };
        if line >= self.parsed().lines.len() {
            return None;
        }
        let ranges = links::link_run_ranges(&self.parsed().lines[line]);
        let k: usize = match find_run(ranges.as_slice(), col) {
            Some(k) => k,
            None => {
                return None;
            },
        };
        let loc = match self.locate_block(line) {
            Some(l) => l,
            None => {
                return None;
            },
        };
        proof {
            lemma_runs_split(self@.parsed.lines@, 0, loc.first as int, line as int);
        }
        let before: usize = self.count_runs(loc.first, line);
        if before >= runs.len() || k >= runs.len() - before {
            return None;
        }
        match &runs[before + k] {
            LinkRun::Link { url, title } => Some(
                (
                    url.clone(),
                    match title {
                        Some(t) => Some(t.clone()),
                        None => None,
                    },
                ),
            ),
            LinkRun::ImagePlaceholder => None,
        }
    }

    /// The cell of a table that a click in the preview is bound to, at column `col` of
    /// a rendered line. `table` are the kinds of the rendered lines of its block, if
    /// that is a table; `pipes` and `pipe_cells` are the columns of the pipes on the
    /// line and their terminal cells.
    pub fn preview_table_cell_band(
        &self,
        line: usize,
        col: usize,
        table: &Option<Vec<TableSubLineKind>>,
        pipes: &[usize],
        pipe_cells: &[usize],
    ) -> (r: Option<CellBand>)
        requires
            self.wf(),
            pipe_cells@.len() == pipes@.len(),
            *table matches Some(kinds) ==> self@.parsed.lines@.len() + kinds@.len() <= usize::MAX,
        ensures
            r == self@.preview_band(line as int, col as int, *table, pipes@, pipe_cells@),
    {
        match (self.locate_block(line), table) {
            (Some(loc), Some(kinds)) => {
                coord::table_cell_band(
                    kinds.as_slice(),
                    loc.sub_idx,
                    loc.first,
                    pipes,
                    pipe_cells,
                    col,
                )
            },
            _ => None,
        }
    }

    /// The character range of a cell of a table.
    pub fn table_cell_char_range_at(&self, info: &TableInfo, row: usize, col: usize) -> (r: Option<
        (usize, usize),
    >)
        ensures
            r == cell_range(self@.text, *info, row as int, col as int),
            r matches Some((lo, hi)) ==> lo <= self@.text.len() && hi <= self@.text.len(),
    {
        if row >= info.rows.len() {
            return None;
        }
        let line = &info.rows[row];
        if line.kind == RowKind::Alignment || col >= line.cells.len() {
            return None;
        }
        let from: usize = bounded_sum(line.start, line.cells[col].content_start);
        let to: usize = bounded_sum(line.start, line.cells[col].content_end);
        let total: usize = self.buffer().len_bytes();
        Some((self.char_at_byte(from), self.char_at_byte(to)))
    }
}

/// The sum of two numbers, or the greatest there is.
pub fn bounded_sum(a: usize, b: usize) -> (r: usize)
    ensures
        r == state::least(a + b, usize::MAX as int),
{
    if b <= usize::MAX - a {
        a + b
    } else {
        usize::MAX
    }
}

pub proof fn lemma_runs_grow(lines: Seq<RenderedLine>, from: int, mid: int, to: int)
    requires
        from <= mid <= to,
    ensures
        0 <= runs_between(lines, from, mid) <= runs_between(lines, from, to),
    decreases to - from,
{
    if mid < to {
        lemma_runs_grow(lines, from, mid, to - 1);
    } else if from < to {
        lemma_runs_grow(lines, from, to - 1, to - 1);
    }
}

proof fn lemma_runs_split(lines: Seq<RenderedLine>, from: int, mid: int, to: int)
    requires
        from <= mid,
    ensures
        0 <= runs_between(lines, mid, to),
        mid <= to ==> runs_between(lines, from, to) == runs_between(lines, from, mid)
            + runs_between(lines, mid, to),
        0 <= runs_between(lines, from, mid),
    decreases to - from,
{
    lemma_runs_grow(lines, from, mid, mid);
    if mid < to {
        lemma_runs_split(lines, from, mid, to - 1);
    }
}

/// True iff something that answers to a click is under the pointer, links aside:
/// a handle of a table, a way back from a footnote, a footnote's mark or a
/// checkbox. `hits` are the parts of tables there, with their number of columns,
/// `line` is the rendered line, and `offset` where a click leads.
pub fn hit_test_clickable_non_link(
    state: &EditorState,
    hits: &[(TableHit, usize)],
    line: Option<usize>,
    col: usize,
    offset: Option<usize>,
) -> (r: bool)
    requires
        state.wf(),
        offset matches Some(o) ==> o <= state@.text.len(),
    ensures
        r == state@.clickable(hits@, line, col as int, offset),
{
    let mut i: usize = 0;
    while i < hits.len()
        invariant
            i <= hits@.len(),
            forall|k: int|
                0 <= k < i ==> !is_handle((#[trigger] hits@[k]).0, hits@[k].1 as int),
        decreases hits@.len() - i,
    {
        let (hit, cols) = hits[i];
        if acts_on_handle(hit, cols) {
            assert(is_handle(hits@[i as int].0, hits@[i as int].1 as int));
            return true;
        }
        i += 1;
    }
    let l: usize = match line {
        Some(l) => l,
        None => {
            return false;
        },
    };
    if l >= state.parsed().lines.len() {
        return false;
    }
    if col >= state.parsed().lines[l].text().as_str().unicode_len() {
        return false;
    }
    if state.back_link_glyph_at_click(Some(l), col).is_some() {
        return true;
    }
    let at: usize = match offset {
        Some(o) => o,
        None => {
            return false;
        },
    };
    let source: String = state.buffer().contents();
    let byte: usize = state.buffer().char_to_byte(at);
    if footnotes::footnote_at_offset(source.as_str(), byte).is_some() {
        return true;
    }
    checkbox::is_on_checkbox(source.as_str(), byte)
}

/// True iff something that answers to a click is under the pointer, links
/// included; `at` is the column under the pointer and `runs` are the links of its
/// block.
pub fn hit_test_clickable(
    state: &EditorState,
    hits: &[(TableHit, usize)],
    line: Option<usize>,
    col: usize,
    offset: Option<usize>,
    at: Option<(usize, usize)>,
    runs: &[LinkRun],
) -> (r: bool)
    requires
        state.wf(),
        offset matches Some(o) ==> o <= state@.text.len(),
        at matches Some(p) ==> runs_between(state@.parsed.lines@, 0, p.0 as int) <= usize::MAX
            && p.0 < usize::MAX,
    ensures
        r == (state@.clickable(hits@, line, col as int, offset) || (at matches Some(p)
            && state@.link_number(p.0 as int, p.1 as int) matches Some(k) && k < runs@.len()
            && runs@[k] is Link)),
{
    hit_test_clickable_non_link(state, hits, line, col, offset) || state.link_at_rendered_pos(
        at,
        runs,
    ).is_some()
}

/// The destination of the link under the pointer, as it is written.
pub fn hovered_link_url(state: &EditorState, at: Option<(usize, usize)>, runs: &[LinkRun]) -> (r: Option<
    String,
>)
    requires
        state.wf(),
        at matches Some(p) ==> runs_between(state@.parsed.lines@, 0, p.0 as int) <= usize::MAX
            && p.0 < usize::MAX,
    ensures
        match at {
            Some(p) => match state@.link_number(p.0 as int, p.1 as int) {
                Some(k) => if k < runs@.len() {
                    match runs@[k] {
                        LinkRun::Link { url, .. } => r matches Some(l) && l@ == url@,
                        LinkRun::ImagePlaceholder => r is None,
                    }
                } else {
                    r is None
                },
                None => r is None,
            },
            None => r is None,
        },
{
    match state.link_at_rendered_pos(at, runs) {
        Some(l) => Some(l.0),
        None => None,
    }
}

} // verus!
