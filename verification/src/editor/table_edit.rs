//! Tables of the source, as the table layer finds them.

use vstd::prelude::*;

verus! {

/// What a row of a table is.
#[derive(Debug, Clone, Copy, PartialEq, Eq, Structural)]
pub enum RowKind {
    Header,
    /// The row of dashes below the header.
    Alignment,
    Data,
}

/// A cell of a table.
#[derive(Debug, Clone, PartialEq, Eq)]
pub struct TableCell {
    /// The text between the pipes, with its padding.
    pub raw: String,
    /// Where `raw` begins, in bytes from the start of its row.
    pub content_start: usize,
    /// Where `raw` ends, in bytes from the start of its row.
    pub content_end: usize,
}

/// A row of a table.
#[derive(Debug, Clone, PartialEq, Eq)]
pub struct TableRow {
    /// Byte offset of the row.
    pub start: usize,
    pub kind: RowKind,
    pub cells: Vec<TableCell>,
}

/// A table.
#[derive(Debug, Clone, PartialEq, Eq)]
pub struct TableInfo {
    /// Byte offset of the table.
    pub start: usize,
    /// Byte offset just past the table.
    pub end: usize,
    pub col_count: usize,
    pub rows: Vec<TableRow>,
}

/// How tables are drawn, in terminal cells.
#[derive(Debug, Clone, Copy, PartialEq, Eq, Structural)]
pub struct TableMetrics {
    /// The least width of a column.
    pub min_col_width: usize,
    /// What borders and padding take for each column.
    pub per_col_overhead: usize,
    /// What the border at the end of a row takes.
    pub row_end_overhead: usize,
}

} // verus!
