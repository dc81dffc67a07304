//! Which line of the document a row of the screen shows.

use crate::document::cursor;
use crate::document::rope;
use crate::document::source_map;
use crate::editor::mode::Mode;
use crate::editor::mouse_ops::coord;
use crate::editor::mouse_ops::click;
use crate::editor::mouse_ops::click::LineFacts;
use crate::editor::state;
use crate::editor::state::{EditorState, EditorView};
use crate::editor::wrap;
use crate::editor::wrap::{Layout, LineWrap};
use crate::text;
use vstd::prelude::*;
use vstd::string::*;

verus! {

/// What the layers that draw the text know of the block that the cursor rests in,
/// where that is shown by its source.
#[derive(Debug)]
pub struct RevealedBlock {
    pub is_table: bool,
    /// The rows of a formula above the source, where the block shows both.
    pub band: usize,
    /// The block is a paragraph that is shown as one flow else.
    pub reflowed: bool,
    /// The cursor's line can be shown by its source.
    pub reveals: bool,
    /// The rendered line that the cursor is on.
    pub cursor_line: usize,
    /// The rows that each line of the block's source takes.
    pub rows: Vec<usize>,
}

/// `n`, and at least 1.
pub open spec fn some(n: int) -> int {
    if n >= 1 {
        n
    } else {
        1
    }
}

/// The rows that the lines of a block's source from `k` on take together.
pub open spec fn rows_from(rows: Seq<usize>, k: int) -> int
    decreases rows.len() - k,
{
    if k < 0 || k >= rows.len() {
        0
    } else {
        some(rows[k] as int) + rows_from(rows, k + 1)
    }
}

impl EditorView {
    /// The rows that rendered line `line` takes where its source is shown in its
    /// place; none where the line is shown as it is rendered.
    pub open spec fn revealed_rows(self, line: int, f: RevealedBlock) -> Option<int> {
        let map = self.parsed.source_map;
        match self.track.block_idx {
            None => None,
            Some(b) => {
                let (first, end) = source_map::shown_at(
                    map.lines(),
                    b as int,
                    map.extended().len() as int,
                );
                let sub = line - first;
                if !self.revealed() || b >= map.extended().len() || !(first <= line < end) {
                    None
                } else if self.parsed.diagram_at(b) {
                    let k = if sub >= f.band {
                        sub - f.band
                    } else {
                        0
                    };
                    Some(
                        if k < f.rows@.len() {
                            some(f.rows@[k] as int)
                        } else {
                            1
                        },
                    )
                } else if f.is_table {
                    None
                } else if f.reflowed {
                    Some(some(rows_from(f.rows@, 0)))
                } else if line != f.cursor_line || !f.reveals {
                    None
                } else {
                    Some(
                        if sub < f.rows@.len() {
                            some(f.rows@[sub] as int)
                        } else {
                            1
                        },
                    )
                }
            },
        }
    }

    /// The rows that each rendered line takes on the screen.
    pub open spec fn screen_rows(self, width: usize, f: RevealedBlock) -> Seq<usize> {
        let rows = self.parsed.rows_at(width)->0;
        Seq::new(
            rows.len(),
            |i: int|
                match self.revealed_rows(i, f) {
                    Some(n) => n as usize,
                    None => rows[i],
                },
        )
    }

    /// Where a click in the source view leads: row `row` of the screen, whose top
    /// row is row `top.1` of line `top.0`.
    pub open spec fn raw_clicked(
        self,
        col: int,
        row: int,
        top: (usize, usize),
        layout: Layout,
    ) -> int {
        match coord::walked(line_rows(layout), top.0 as int, top.1 as int, row) {
            Some((line, sub)) => {
                let w = layout.wraps@[line];
                let begin = rope::line_begin(self.text, line);
                if sub < w.rows@.len() {
                    wrap::offset_in_row(
                        self.text,
                        begin,
                        w.rows@[sub],
                        col,
                        sub + 1 == w.rows@.len(),
                        0,
                    )
                } else {
                    begin
                }
            },
            None => self.text.len() as int,
        }
    }

    /// The line and the column that a click on the rendered text leads to.
    pub open spec fn line_col_at(self, line: int, sub: int, col: int, w: LineWrap) -> (int, int) {
        (line, coord::clicked_col(self.parsed.lines@[line]@, w, sub, col))
    }
}

/// The rows that each line of the source takes.
pub open spec fn line_rows(layout: Layout) -> Seq<usize> {
    layout.wraps@.map_values(|w: LineWrap| w.rows@.len() as usize)
}

proof fn lemma_rows_from(rows: Seq<usize>, k: int)
    requires
        0 <= k <= rows.len(),
    ensures
        0 <= rows_from(rows, k),
    decreases rows.len() - k,
{
    if k < rows.len() {
        lemma_rows_from(rows, k + 1);
    }
}

impl EditorState {
    /// The rows that a rendered line takes where its source is shown in its place.
    pub fn revealed_raw_row_count(&self, line: usize, f: &RevealedBlock) -> (r: Option<usize>)
        requires
            self.wf(),
            rows_from(f.rows@, 0) <= usize::MAX,
        ensures
            self@.revealed_rows(line as int, *f) == (match r {
                Some(n) => Some(n as int),
                None => None,
            }),
    {
        let b: usize = match self.facts().track.block_idx {
            Some(b) => b,
            None => {
                return None;
            },
        };
        let map = &self.parsed().source_map;
        if !self.cursor_block_revealed() || b >= map.block_count() {
            return None;
        }
        let lines = map.rendered_lines_for_block(b);
        if line < lines.start || line >= lines.end {
            return None;
        }
        let sub: usize = line - lines.start;
        if self.parsed().is_diagram_reveal_block(b) {
            let k: usize = if sub >= f.band {
                sub - f.band
            } else {
                0
            };
            return Some(
                if k < f.rows.len() && f.rows[k] >= 1 {
                    f.rows[k]
                } else {
                    1
                },
            );
        }
        if f.is_table {
            return None;
        }
        if f.reflowed {
            let mut total: usize = 0;
            let mut k: usize = 0;
            while k < f.rows.len()
                invariant
                    k <= f.rows@.len(),
                    rows_from(f.rows@, 0) <= usize::MAX,
                    total + rows_from(f.rows@, k as int) == rows_from(f.rows@, 0),
                decreases f.rows@.len() - k,
            {
                proof {
                    lemma_rows_from(f.rows@, k + 1);
                }
                total += if f.rows[k] >= 1 {
                    f.rows[k]
                } else {
                    1
                };
                k += 1;
            }
            return Some(
                if total >= 1 {
                    total
                } else {
                    1
                },
            );
        }
        if line != f.cursor_line || !f.reveals {
            return None;
        }
        Some(
            if sub < f.rows.len() && f.rows[sub] >= 1 {
                f.rows[sub]
            } else {
                1
            },
        )
    }

    /// The rendered line, and the row of it, on row `row` of the screen, whose top
    /// row is row `top.1` of rendered line `top.0`. None below the text.
    pub fn walk_rendered_rows(
        &self,
        row: usize,
        top: (usize, usize),
        width: usize,
        f: &RevealedBlock,
    ) -> (r: Option<(usize, usize)>)
        requires
            self.wf(),
            self@.parsed.rows_at(width) is Some,
            rows_from(f.rows@, 0) <= usize::MAX,
        ensures
            match r {
                Some(p) => coord::walked(
                    self@.screen_rows(width, *f),
                    top.0 as int,
                    top.1 as int,
                    row as int,
                ) == Some((p.0 as int, p.1 as int)) && p.0 < self@.screen_rows(width, *f).len(),
                None => coord::walked(
                    self@.screen_rows(width, *f),
                    top.0 as int,
                    top.1 as int,
                    row as int,
                ) is None,
            },
    {
        let ghost uses = self@.screen_rows(width, *f);
        let ghost rows = self@.parsed.rows_at(width)->0;
        let n: usize = self.parsed().lines.len();
        assert(rows.len() == n) by {
            self.lemma_rows_len(width);
        }
        let mut i: usize = top.0;
        let mut s: usize = top.1;
        let mut left: usize = row;
        while i < n
            invariant
                self.wf(),
                self@.parsed.rows_at(width) is Some,
                rows_from(f.rows@, 0) <= usize::MAX,
                uses == self@.screen_rows(width, *f),
                rows == self@.parsed.rows_at(width)->0,
                rows.len() == n,
                uses.len() == n,
                coord::walked(uses, top.0 as int, top.1 as int, row as int) == coord::walked(
                    uses,
                    i as int,
                    s as int,
                    left as int,
                ),
            decreases n - i,
        {
            let use_here: usize = match self.revealed_raw_row_count(i, f) {
                Some(k) => k,
                None => self.parsed().visual_rows_for_line_at(i, width),
            };
            assert(use_here == uses[i as int]);
            let used: usize = if use_here > s {
                use_here - s
            } else {
                1
            };
            if left < used {
                return Some((i, s + left));
            }
            left -= used;
            i += 1;
            s = 0;
        }
        None
    }

    /// The rows that are known are of the document's lines.
    proof fn lemma_rows_len(&self, width: usize)
        requires
            self.wf(),
            self@.parsed.rows_at(width) is Some,
        ensures
            (self@.parsed.rows_at(width)->0).len() == self@.parsed.lines@.len(),
    {
        reveal(state::sound);
        self@.parsed.lemma_rows_at(width);
    }

    /// The rows of the screen are those of the document's lines.
    pub proof fn lemma_screen_lines(&self, width: usize, f: RevealedBlock)
        requires
            self.wf(),
            self@.parsed.rows_at(width) is Some,
        ensures
            self@.screen_rows(width, f).len() == self@.parsed.lines@.len(),
    {
        self.lemma_rows_len(width);
    }

    /// Where a click in the source view leads: row `row` of the screen, whose top row
    /// is row `top.1` of line `top.0`.
    pub fn raw_click_to_offset(
        &self,
        col: usize,
        row: usize,
        top: (usize, usize),
        layout: &Layout,
    ) -> (r: usize)
        requires
            self.wf(),
            layout.fits(self@.text),
        ensures
            r == self@.raw_clicked(col as int, row as int, top, *layout),
            r <= self@.text.len(),
    {
        let n: usize = layout.wraps.len();
        let mut uses: Vec<usize> = Vec::new();
        let mut i: usize = 0;
        while i < n
            invariant
                n == layout.wraps@.len(),
                i <= n,
                uses@.len() == i,
                forall|k: int|
                    0 <= k < i ==> #[trigger] uses@[k] == layout.wraps@[k].rows@.len(),
            decreases n - i,
        {
            uses.push(layout.wraps[i].rows.len());
            i += 1;
        }
        assert(uses@ =~= line_rows(*layout));
        let buf = self.buffer();
        match coord::walk_rows(uses.as_slice(), top.0, top.1, row) {
            None => buf.len_chars(),
            Some((line, sub)) => {
                let begin: usize = buf.line_to_char(line);
                if sub >= layout.wraps[line].rows.len() {
                    return begin;
                }
                let last: bool = sub + 1 == layout.wraps[line].rows.len();
                let w = layout.wraps[line].rows[sub];
                proof {
                    assert(layout.wraps@[line as int].fits(
                        cursor::line_len(self@.text, line as int),
                    ));
                    assert(layout.wraps@[line as int].rows@[sub as int] == w);
                    cursor::lemma_line_len(self@.text, line as int);
                }
                wrap::find_offset_in_row(buf, begin, w, col, last, 0)
            },
        }
    }

    /// The rendered line on a row of the screen, and the row of it, where the rows of
    /// the view name line `at.0` and its row `at.1` for it.
    pub fn rendered_line_at_row(&self, at: (usize, usize)) -> (r: Option<(usize, usize)>)
        ensures
            r == if at.0 < self@.parsed.lines@.len() {
                Some(at)
            } else {
                None
            },
    {
        if at.0 < self.parsed().lines.len() {
            Some(at)
        } else {
            None
        }
    }

    /// The rendered line and the column that a click leads to, where row `at.1` of
    /// rendered line `at.0` is under the pointer and that line is wrapped as `w`.
    pub fn rendered_click_to_line_col(
        &self,
        at: Option<(usize, usize)>,
        col: usize,
        w: &LineWrap,
    ) -> (r: Option<(usize, usize)>)
        requires
            at matches Some(p) ==> p.0 < self@.parsed.lines@.len() ==> w.fits(
                self@.parsed.lines@[p.0 as int]@.len() as int,
            ),
        ensures
            r == (match at {
                Some(p) => if p.0 < self@.parsed.lines@.len() {
                    let lc = self@.line_col_at(p.0 as int, p.1 as int, col as int, *w);
                    Some((lc.0 as usize, lc.1 as usize))
                } else {
                    None
                },
                None => None,
            }),
    {
        match at {
            None => None,
            Some((line, sub)) => {
                if line >= self.parsed().lines.len() {
                    return None;
                }
                let shown: String = self.parsed().lines[line].text();
                let chars: Vec<char> = text::chars_of(shown.as_str());
                Some((line, coord::click_in_line(chars.as_slice(), w, sub, col)))
            },
        }
    }

    /// As [`EditorState::rendered_click_to_line_col`], but none where the pointer is
    /// behind the text of its row: blank cells to the right of a link are no part of
    /// it.
    pub fn rendered_click_to_line_col_on_text(
        &self,
        at: Option<(usize, usize)>,
        col: usize,
        w: &LineWrap,
    ) -> (r: Option<(usize, usize)>)
        requires
            at matches Some(p) ==> p.0 < self@.parsed.lines@.len() ==> w.fits(
                self@.parsed.lines@[p.0 as int]@.len() as int,
            ),
        ensures
            r == (match at {
                Some(p) => if p.0 < self@.parsed.lines@.len() {
                    match coord::col_under(
                        self@.parsed.lines@[p.0 as int]@,
                        *w,
                        p.1 as int,
                        col as int,
                    ) {
                        Some(c) => Some((p.0, c as usize)),
                        None => None,
                    }
                } else {
                    None
                },
                None => None,
            }),
    {
        match at {
            None => None,
            Some((line, sub)) => {
                if line >= self.parsed().lines.len() {
                    return None;
                }
                let shown: String = self.parsed().lines[line].text();
                let chars: Vec<char> = text::chars_of(shown.as_str());
                match coord::click_on_text(chars.as_slice(), w, sub, col) {
                    Some(c) => Some((line, c)),
                    None => None,
                }
            },
        }
    }

    /// Where a click leads. In the source view that goes by the row of the screen, the
    /// line `top.0` with its row `top.1` at the top, and the layout; in the others `at` is the
    /// rendered line and its row under the pointer, and `f` what is known of it. None in a
    /// review, which answers to clicks by itself.
    pub fn click_to_char_offset(
        &self,
        col: usize,
        row: usize,
        top: (usize, usize),
        layout: &Layout,
        at: Option<(usize, usize)>,
        f: &LineFacts,
    ) -> (r: Option<usize>)
        requires
            self.wf(),
            layout.fits(self@.text),
            at matches Some(p) ==> self@.line_facts_fit(p.0 as int, *f),
            state::bytes_of(self@.text).len() < usize::MAX,
        ensures
            match r {
                Some(o) => self@.mode != Mode::Diff && o <= self@.text.len() && o == if self@.mode
                    == Mode::Raw {
                    self@.raw_clicked(col as int, row as int, top, *layout)
                } else {
                    match at {
                        Some(p) => self@.clicked_offset(p.0 as int, p.1 as int, col as int, *f),
                        None => self@.text.len() as int,
                    }
                },
                None => self@.mode == Mode::Diff,
            },
    {
        match self.mode() {
            Mode::Raw => Some(self.raw_click_to_offset(col, row, top, layout)),
            Mode::Diff => None,
            _ => Some(self.rendered_click_to_offset(at, col, f)),
        }
    }

    /// Where a click leads in the rendered text; the end of the text below it.
    pub fn rendered_click_to_offset(
        &self,
        at: Option<(usize, usize)>,
        col: usize,
        f: &LineFacts,
    ) -> (r: usize)
        requires
            self.wf(),
            at matches Some(p) ==> self@.line_facts_fit(p.0 as int, *f),
            state::bytes_of(self@.text).len() < usize::MAX,
        ensures
            r == (match at {
                Some(p) => self@.clicked_offset(p.0 as int, p.1 as int, col as int, *f),
                None => self@.text.len() as int,
            }),
            r <= self@.text.len(),
    {
        match at {
            Some((line, sub)) => click::rendered_sub_line_to_offset(self, line, sub, col, f),
            None => self.buffer().len_chars(),
        }
    }
}

} // verus!
