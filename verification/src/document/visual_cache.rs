//! How many visual rows the lines of a view take, once they are wrapped.

use vstd::prelude::*;

verus! {

/// The visual rows of each line at one width, with their running sums.
#[derive(Debug, Clone)]
pub struct VisualRowCache {
    width: usize,
    rows_per_line: Vec<usize>,
    prefix_sum: Vec<usize>,
}

/// A line takes one row at least.
pub open spec fn at_least_one(n: usize) -> usize {
    if n == 0 {
        1
    } else {
        n
    }
}

/// The rows of the first `i` lines, as far as a number can count.
pub open spec fn rows_before(rows: Seq<usize>, i: int) -> usize
    decreases i,
{
    if i <= 0 {
        0
    } else {
        let sum = rows_before(rows, i - 1) + rows[i - 1];
        if sum <= usize::MAX {
            sum as usize
        } else {
            usize::MAX
        }
    }
}

/// The first line at or after `i` with rows past `row`, and how far `row` is
/// into it; past the last line, the number of lines and 0.
pub open spec fn line_holding_row(rows: Seq<usize>, row: int, i: int) -> (int, int)
    decreases rows.len() - i,
{
    if 0 <= i < rows.len() {
        if row < rows_before(rows, i + 1) {
            (
                i,
                if row >= rows_before(rows, i) {
                    row - rows_before(rows, i)
                } else {
                    0
                },
            )
        } else {
            line_holding_row(rows, row, i + 1)
        }
    } else {
        (rows.len() as int, 0)
    }
}

/// More lines take no fewer rows.
pub proof fn lemma_rows_before_monotone(rows: Seq<usize>, i: int, j: int)
    requires
        0 <= i <= j <= rows.len(),
    ensures
        rows_before(rows, i) <= rows_before(rows, j),
    decreases j - i,
{
    if i < j {
        lemma_rows_before_monotone(rows, i, j - 1);
    }
}

/// A row that the document has lies in the line that is found for it: behind the
/// rows of the lines above, and within the line's own.
pub proof fn law_row_lies_in_its_line(rows: Seq<usize>, row: int)
    requires
        0 <= row < rows_before(rows, rows.len() as int),
    ensures
        ({
            let (line, sub) = line_holding_row(rows, row, 0);
            &&& 0 <= line < rows.len()
            &&& row == rows_before(rows, line) + sub
            &&& 0 <= sub < rows[line]
        }),
{
    lemma_line_holding_row(rows, row, 0);
}

proof fn lemma_line_holding_row(rows: Seq<usize>, row: int, i: int)
    requires
        0 <= i <= rows.len(),
        rows_before(rows, i) <= row < rows_before(rows, rows.len() as int),
    ensures
        ({
            let (line, sub) = line_holding_row(rows, row, i);
            &&& i <= line < rows.len()
            &&& row == rows_before(rows, line) + sub
            &&& 0 <= sub < rows[line]
        }),
    decreases rows.len() - i,
{
    if row >= rows_before(rows, i + 1) {
        lemma_line_holding_row(rows, row, i + 1);
    }
}

impl VisualRowCache {
    /// The rows of each line.
    pub closed spec fn rows(&self) -> Seq<usize> {
        self.rows_per_line@
    }

    /// The width that the rows are counted at.
    pub closed spec fn width_view(&self) -> usize {
        self.width
    }

    /// The running sums agree with the rows.
    pub closed spec fn wf(&self) -> bool {
        &&& self.prefix_sum@.len() == self.rows_per_line@.len() + 1
        &&& forall|i: int|
            0 <= i < self.prefix_sum@.len() ==> #[trigger] self.prefix_sum@[i] == rows_before(
                self.rows_per_line@,
                i,
            )
    }

    /// The cache for lines that take `counts` rows at `width`, one at least.
    pub fn build(width: usize, counts: &Vec<usize>) -> (r: Self)
        ensures
            r.wf(),
            r.width_view() == width,
            r.rows() == counts@.map_values(|n: usize| at_least_one(n)),
    {
        let mut rows_per_line: Vec<usize> = Vec::new();
        let mut prefix_sum: Vec<usize> = Vec::new();
        let mut acc: usize = 0;
        let ghost rows = counts@.map_values(|n: usize| at_least_one(n));
        prefix_sum.push(0);
        let mut i: usize = 0;
        while i < counts.len()
            invariant
                i <= counts@.len(),
                rows == counts@.map_values(|n: usize| at_least_one(n)),
                rows_per_line@ == rows.take(i as int),
                prefix_sum@.len() == i + 1,
                acc == rows_before(rows, i as int),
                forall|k: int| 0 <= k <= i ==> #[trigger] prefix_sum@[k] == rows_before(rows, k),
            decreases counts@.len() - i,
        {
            let n: usize = if counts[i] == 0 {
                1
            } else {
                counts[i]
            };
            rows_per_line.push(n);
            acc = if n <= usize::MAX - acc {
                acc + n
            } else {
                usize::MAX
            };
            prefix_sum.push(acc);
            i += 1;
            assert(rows_per_line@ =~= rows.take(i as int));
        }
        assert(rows_per_line@ =~= rows);
        VisualRowCache { width, rows_per_line, prefix_sum }
    }

    /// The width that the rows are counted at.
    pub fn width(&self) -> (r: usize)
        ensures
            r == self.width_view(),
    {
        self.width
    }

    /// The rows of line `idx`; 1 past the last line.
    pub fn for_line(&self, idx: usize) -> (r: usize)
        ensures
            r == if idx < self.rows().len() {
                self.rows()[idx as int]
            } else {
                1
            },
    {
        if idx < self.rows_per_line.len() {
            self.rows_per_line[idx]
        } else {
            1
        }
    }

    /// The rows of the lines before `idx`.
    pub fn before(&self, idx: usize) -> (r: usize)
        requires
            self.wf(),
        ensures
            r == rows_before(
                self.rows(),
                if idx <= self.rows().len() {
                    idx as int
                } else {
                    self.rows().len() as int
                },
            ),
    {
        let n: usize = self.rows_per_line.len();
        let clamped: usize = if idx <= n {
            idx
        } else {
            n
        };
        self.prefix_sum[clamped]
    }

    /// The rows of the lines `first..=last`.
    pub fn between(&self, first: usize, last: usize) -> (r: usize)
        requires
            self.wf(),
        ensures
            r == ({
                let n = self.rows().len() as int;
                let end = if last < n {
                    last + 1
                } else {
                    n
                };
                if first > last || first >= n {
                    0
                } else {
                    rows_before(self.rows(), end) - rows_before(self.rows(), first as int)
                }
            }),
    {
        let n: usize = self.rows_per_line.len();
        if first > last || n == 0 {
            return 0;
        }
        let end: usize = if last < n {
            last + 1
        } else {
            n
        };
        let upper: usize = self.before(end);
        let lower: usize = self.before(first);
        proof {
            if first < n {
                lemma_rows_before_monotone(self.rows(), first as int, end as int);
            }
        }
        if upper >= lower {
            upper - lower
        } else {
            0
        }
    }

    /// The rows of all lines.
    pub fn total(&self) -> (r: usize)
        requires
            self.wf(),
        ensures
            r == rows_before(self.rows(), self.rows().len() as int),
    {
        self.before(self.rows_per_line.len())
    }

    /// The line that holds visual row `visual_row`, and the row within it; past
    /// the end, the number of lines and 0.
    pub fn find_visual_row(&self, visual_row: usize) -> (r: (usize, usize))
        requires
            self.wf(),
        ensures
            (r.0 as int, r.1 as int) == line_holding_row(self.rows(), visual_row as int, 0),
    {
        let n: usize = self.rows_per_line.len();
        let mut i: usize = 0;
        while i < n
            invariant
                self.wf(),
                n == self.rows().len(),
                i <= n,
                line_holding_row(self.rows(), visual_row as int, i as int) == line_holding_row(
                    self.rows(),
                    visual_row as int,
                    0,
                ),
            decreases n - i,
        {
            let start: usize = self.prefix_sum[i];
            let end: usize = self.prefix_sum[i + 1];
            if visual_row < end {
                return (
                    i,
                    if visual_row >= start {
                        visual_row - start
                    } else {
                        0
                    },
                );
            }
            i += 1;
        }
        (n, 0)
    }
}

} // verus!
