//! What the mouse does.

use crate::document::history::EditDelta;
use crate::document::selection::CellBand;
use crate::editor::link::LinkTarget;
use crate::editor::mouse_ops::hits::TableHit;
use crate::editor::state;
use crate::editor::state::EditorView;
use crate::editor::table_edit::TableCell;
use crate::editor::wrap::Layout;
use vstd::prelude::*;

verus! {

/// What the mouse does.
#[derive(Debug, Clone, Copy, PartialEq, Eq, Structural)]
pub enum MouseAction {
    /// A click, with the control key held or not.
    Click { ctrl: bool },
    DoubleClick,
    TripleClick,
    Drag,
    Release,
    /// The wheel, by rows.
    Scroll(i32),
}

/// What a drag is about. That is decided when the button goes down, and holds until
/// it is released.
#[derive(Debug, Clone, PartialEq, Eq)]
pub enum DragTarget {
    /// A selection that begins at a character offset, and stays in a table's cell
    /// where it began in one.
    TextSelection { anchor: usize, cell: Option<(usize, usize)> },
    /// A row of a table, counted with the header and the dashes, and the row under
    /// the pointer.
    TableRow { table_byte_start: usize, row_idx: usize, hover_row_idx: usize },
    /// The border before a column, with the widths that the columns had, those that
    /// the user had given, and where the drag began.
    TableColumnBorder {
        table_byte_start: usize,
        col_idx: usize,
        start_widths: Vec<usize>,
        start_user_widths: Vec<Option<usize>>,
        anchor_x: u16,
    },
    /// A column of a table, and the column under the pointer.
    TableColumnHeader { table_byte_start: usize, col_idx: usize, hover_col_idx: usize },
    /// The scroll bar, held so many rows below its top.
    Scrollbar { grab_offset: u16 },
}

/// A drawn table under the pointer.
pub struct TableUnder {
    /// The bytes of the table.
    pub start: usize,
    pub end: usize,
    pub col_count: usize,
    pub hit: TableHit,
    /// The widths of the columns, and those that the user gave; none where the table
    /// is gone.
    pub widths: Option<(Vec<usize>, Vec<Option<usize>>)>,
    /// The edit, with its offset in bytes, of the button under the pointer.
    pub deletion: Option<EditDelta>,
}

/// What is under the pointer.
pub struct Pointer {
    /// The column of the screen.
    pub col: u16,
    /// The character offset that a click leads to; none in a review, which answers to
    /// clicks by itself.
    pub offset: Option<usize>,
    /// The rendered line and column that a click in the preview leads to, and the
    /// cell of a table that they are in.
    pub shown: Option<(usize, usize)>,
    pub band: Option<CellBand>,
    /// The target of the link that is drawn there, and of the sign behind a
    /// footnote.
    pub link: Option<LinkTarget>,
    pub back: Option<LinkTarget>,
    pub table: Option<TableUnder>,
    /// The image block that is drawn there, and where a click on it puts the cursor.
    pub image: Option<(usize, Option<usize>)>,
    /// The characters of the table's cell at `offset`, if it is in one.
    pub cell: Option<(usize, usize)>,
    /// That cell, with the byte at which its row begins.
    pub cell_source: Option<(usize, TableCell)>,
    /// The cursor's block is a table.
    pub in_table: bool,
    /// The row or the column of the dragged table under the pointer.
    pub hover: Option<usize>,
    /// The edits, one after the other, that drop the dragged row or column.
    pub swaps: Vec<EditDelta>,
    /// How the text is laid out, and in how many rows.
    pub layout: Layout,
    pub total_rows: usize,
}

impl Pointer {
    /// What is known is of the text `s`.
    pub open spec fn fits(self, s: Seq<char>) -> bool {
        &&& (self.offset matches Some(o) ==> o <= s.len())
        &&& self.layout.fits(s)
        &&& (self.image matches Some((_, Some(t))) ==> t <= s.len())
        &&& (self.cell matches Some((lo, hi)) ==> lo <= hi <= s.len())
        &&& (self.table matches Some(t) ==> (t.deletion matches Some(d) ==> state::stands_at_byte(
            s,
            d@,
        )))
    }
}

/// What comes of the mouse: the state, the drag, and whether the cursor is to be kept
/// on the screen.
pub struct Moused {
    pub state: EditorView,
    pub drag: Option<DragTarget>,
    pub keep_visible: bool,
}

/// `x`, and not below `lo` nor above `hi`.
pub open spec fn clamped(x: int, lo: int, hi: int) -> int {
    if x < lo {
        lo
    } else if x > hi {
        hi
    } else {
        x
    }
}

/// `x`, and not below `lo` nor above `hi`.
pub fn clamp(x: usize, lo: usize, hi: usize) -> (r: usize)
    ensures
        r == clamped(x as int, lo as int, hi as int),
{
    if x < lo {
        lo
    } else if x > hi {
        hi
    } else {
        x
    }
}

} // verus!
