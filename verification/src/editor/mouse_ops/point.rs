//! What is under the pointer, from its cell of the screen and what is drawn there.

use crate::document::history::EditDelta;
use crate::document::paths;
use crate::document::selection::CellBand;
use crate::editor::link;
use crate::editor::link::LinkTarget;
use crate::editor::mode::Mode;
use crate::editor::mouse_ops::click::LineFacts;
use crate::editor::mouse_ops::coord;
use crate::editor::mouse_ops::events::{Pointer, TableUnder};
use crate::editor::mouse_ops::hits;
use crate::editor::mouse_ops::hits::LinkRun;
use crate::editor::mouse_ops::screen;
use crate::editor::mouse_ops::screen::RevealedBlock;
use crate::editor::state;
use crate::editor::state::{EditorState, EditorView};
use crate::editor::state_rows::TableSubLineKind;
use crate::editor::table_edit::{TableCell, TableInfo};
use crate::editor::wrap::Layout;
use std::path::Path;
use vstd::prelude::*;
use vstd::string::*;
use vstd::utf8::*;

verus! {

/// What the layers that draw the text know of a cell of the screen.
pub struct Drawn {
    /// The rendered line at the top of the screen, and its row there; and the same for
    /// the lines of the source view.
    pub top: (usize, usize),
    pub raw_top: (usize, usize),
    /// The width at which rows are counted.
    pub width: usize,
    /// The block that the cursor rests in.
    pub revealed: RevealedBlock,
    /// The rendered line under the pointer.
    pub line: LineFacts,
    /// The rendered line, and its row, that the rows of the view name for the row of the
    /// pointer.
    pub named: (usize, usize),
    /// The links of the block under the pointer, in order.
    pub runs: Vec<LinkRun>,
    /// The kinds of the rendered lines of that block, if it is a table, and the pipes of
    /// the line, by their columns and by their terminal cells.
    pub kinds: Option<Vec<TableSubLineKind>>,
    pub pipes: Vec<usize>,
    pub pipe_cells: Vec<usize>,
    /// The table that a click leads into, and the row and the column of its cell there.
    pub cell: Option<(TableInfo, usize, usize)>,
    pub cell_source: Option<(usize, TableCell)>,
    pub table: Option<TableUnder>,
    /// The cursor's block is a table.
    pub in_table: bool,
    /// The row or the column of the dragged table, and the edits that drop it there.
    pub hover: Option<usize>,
    pub swaps: Vec<EditDelta>,
    /// How the text is laid out, and in how many rows.
    pub layout: Layout,
    pub total_rows: usize,
}

impl EditorView {
    /// The rendered line, and its row, on row `row` of the screen.
    pub open spec fn row_under(self, row: int, d: Drawn) -> Option<(int, int)> {
        coord::walked(
            self.screen_rows(d.width, d.revealed),
            d.top.0 as int,
            d.top.1 as int,
            row,
        )
    }

    /// Where a click leads; nowhere in a review.
    pub open spec fn offset_under(self, col: int, row: int, d: Drawn) -> Option<int> {
        match self.mode {
            Mode::Raw => Some(self.raw_clicked(col, row, d.raw_top, d.layout)),
            Mode::Diff => None,
            _ => match self.row_under(row, d) {
                Some((line, sub)) => Some(self.clicked_offset(line, sub, col, d.line)),
                None => Some(self.text.len() as int),
            },
        }
    }

    /// The rendered line and column that a click leads to.
    pub open spec fn shown_under(self, col: int, row: int, d: Drawn) -> Option<(usize, usize)> {
        match self.row_under(row, d) {
            Some((line, sub)) => {
                let at = self.line_col_at(line, sub, col, d.line.wrap);
                Some((at.0 as usize, at.1 as usize))
            },
            None => None,
        }
    }

    /// The cell of a table that a click in the preview is bound to.
    pub open spec fn band_under(self, col: int, row: int, d: Drawn) -> Option<CellBand> {
        match self.shown_under(col, row, d) {
            Some((line, c)) => self.preview_band(
                line as int,
                c as int,
                d.kinds,
                d.pipes@,
                d.pipe_cells@,
            ),
            None => None,
        }
    }

    /// The destination of the link that is drawn under the pointer. Blank cells to the
    /// right of a line are no part of it.
    pub open spec fn url_under(self, col: int, row: int, d: Drawn) -> Option<Seq<char>> {
        match self.row_under(row, d) {
            Some((line, sub)) => match coord::col_under(
                self.parsed.lines@[line]@,
                d.line.wrap,
                sub,
                col,
            ) {
                Some(c) => match self.link_number(line, c) {
                    Some(k) => if k < d.runs@.len() {
                        match d.runs@[k] {
                            LinkRun::Link { url, .. } => Some(url@),
                            LinkRun::ImagePlaceholder => None,
                        }
                    } else {
                        None
                    },
                    None => None,
                },
                None => None,
            },
            None => None,
        }
    }

    /// The image block under the pointer, and where a click on it puts the cursor.
    pub open spec fn image_hit_under(self, d: Drawn) -> Option<(usize, Option<usize>)> {
        match self.image_under(d.named.0 as int, 0) {
            Some(b) => Some(
                (
                    b,
                    match self.image_target(b as int) {
                        Some(t) => Some(t as usize),
                        None => None,
                    },
                ),
            ),
            None => None,
        }
    }

    /// What is known of the cell of the screen at `col` and `row` is of this state.
    pub open spec fn drawn_fits(self, row: int, d: Drawn) -> bool {
        &&& self.parsed.rows_at(d.width) is Some
        &&& screen::rows_from(d.revealed.rows@, 0) <= usize::MAX
        &&& d.layout.fits(self.text)
        &&& (self.row_under(row, d) matches Some((line, _)) ==> self.line_facts_fit(line, d.line))
        &&& state::bytes_of(self.text).len() < usize::MAX
        &&& hits::runs_between(self.parsed.lines@, 0, self.parsed.lines@.len() as int)
            <= usize::MAX
        &&& d.pipe_cells@.len() == d.pipes@.len()
        &&& (d.kinds matches Some(kinds) ==> self.parsed.lines@.len() + kinds@.len()
            <= usize::MAX)
        &&& (d.cell matches Some((info, r, c)) ==> (hits::cell_range(
            self.text,
            info,
            r as int,
            c as int,
        ) matches Some((lo, hi)) ==> lo <= hi))
        &&& (d.table matches Some(t) ==> (t.deletion matches Some(e) ==> state::stands_at_byte(
            self.text,
            e@,
        )))
    }

    /// `p` is what is under the pointer at `col` and `row`.
    pub open spec fn is_pointer(
        self,
        p: Pointer,
        col: u16,
        row: int,
        d: Drawn,
        dir: Option<Seq<u8>>,
    ) -> bool {
        let c = col as int;
        &&& p.col == col
        &&& match self.offset_under(c, row, d) {
            Some(o) => p.offset == Some(o as usize) && o <= self.text.len(),
            None => p.offset is None,
        }
        &&& p.shown == self.shown_under(c, row, d)
        &&& p.band == self.band_under(c, row, d)
        &&& match self.url_under(c, row, d) {
            Some(url) => p.link matches Some(t) && link::is_target(encode_utf8(url), dir, t),
            None => p.link is None,
        }
        &&& match self.back_link(d.named.0 as int, c) {
            Some(label) => p.back matches Some(LinkTarget::FootnoteBack(t)) && encode_utf8(t@)
                == label,
            None => p.back is None,
        }
        &&& p.image == self.image_hit_under(d)
        &&& p.cell == match d.cell {
            Some((info, r, k)) => hits::cell_range(self.text, info, r as int, k as int),
            None => None,
        }
        &&& p.table == d.table
        &&& p.cell_source == d.cell_source
        &&& p.in_table == d.in_table
        &&& p.hover == d.hover
        &&& p.swaps == d.swaps
        &&& p.layout == d.layout
        &&& p.total_rows == d.total_rows
    }
}

impl EditorState {
    /// What is under the pointer at column `col` and row `row` of the screen: where a
    /// click leads in the text and in the preview, the link, the image and the cell of a
    /// table there. `base_dir` is the directory of the document.
    pub fn pointer_at(&self, col: u16, row: u16, d: Drawn, base_dir: Option<&Path>) -> (p: Pointer)
        requires
            self.wf(),
            self@.drawn_fits(row as int, d),
        ensures
            self@.is_pointer(p, col, row as int, d, paths::dir_bytes(base_dir)),
            p.fits(self@.text),
    {
        let ghost v = self@;
        let c: usize = col as usize;
        let r: usize = row as usize;
        let at: Option<(usize, usize)> = self.walk_rendered_rows(r, d.top, d.width, &d.revealed);
        proof {
            self.lemma_screen_lines(d.width, d.revealed);
        }
        let offset: Option<usize> = self.click_to_char_offset(c, r, d.raw_top, &d.layout, at, &d.line);
        let shown: Option<(usize, usize)> = self.rendered_click_to_line_col(at, c, &d.line.wrap);
        let band: Option<CellBand> = match shown {
            Some((line, k)) => self.preview_table_cell_band(
                line,
                k,
                &d.kinds,
                d.pipes.as_slice(),
                d.pipe_cells.as_slice(),
            ),
            None => None,
        };
        let on_text: Option<(usize, usize)> = self.rendered_click_to_line_col_on_text(
            at,
            c,
            &d.line.wrap,
        );
        let lines: usize = self.parsed().lines.len();
        proof {
            match on_text {
                Some(q) => {
                    assert(q.0 < lines);
                    hits::lemma_runs_grow(v.parsed.lines@, 0, q.0 as int, lines as int);
                },
                None => {},
            }
        }
        let link: Option<LinkTarget> = match self.link_at_rendered_pos(on_text, d.runs.as_slice()) {
            Some((url, _)) => Some(LinkTarget::parse(url.as_str(), base_dir)),
            None => None,
        };
        let back: Option<LinkTarget> = self.back_link_glyph_at_click(Some(d.named.0), c);
        let image: Option<(usize, Option<usize>)> = match self.image_block_at_click(d.named.0) {
            Some(b) => Some((b, self.image_block_cursor_target(b))),
            None => None,
        };
        let cell: Option<(usize, usize)> = match &d.cell {
            Some((info, i, k)) => self.table_cell_char_range_at(info, *i, *k),
            None => None,
        };
        Pointer {
            col,
            offset,
            shown,
            band,
            link,
            back,
            table: d.table,
            image,
            cell,
            cell_source: d.cell_source,
            in_table: d.in_table,
            hover: d.hover,
            swaps: d.swaps,
            layout: d.layout,
            total_rows: d.total_rows,
        }
    }
}

} // verus!
