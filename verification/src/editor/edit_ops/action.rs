//! What the user asks for, what is known around it, and what it asks of others.

use crate::editor::wrap::{Layout, LineWrap};
use vstd::prelude::*;

verus! {

/// What the user asks for.
#[derive(Debug, Clone, Copy, PartialEq, Eq, Structural)]
pub enum Action {
    Quit,
    EnterEditMode,
    ExitToPreview,
    ToggleRawMode,
    MoveLeft,
    MoveRight,
    MoveUp,
    MoveDown,
    MoveWordLeft,
    MoveWordRight,
    MoveLineStart,
    MoveLineEnd,
    MoveDocStart,
    MoveDocEnd,
    SelectLeft,
    SelectRight,
    SelectUp,
    SelectDown,
    SelectAll,
    ScrollUp,
    ScrollDown,
    ScrollPageUp,
    ScrollPageDown,
    ScrollToTop,
    ScrollToBottom,
    InsertChar(char),
    InsertTab,
    Newline,
    DeleteCharBack,
    DeleteCharForward,
    DeleteWordBack,
    DeleteWordForward,
    DeleteLine,
    Undo,
    Redo,
    Copy,
    Cut,
    Paste,
    BoldSelection,
    ItalicizeSelection,
    InlineCodeSelection,
    StrikethroughSelection,
    HighlightSelection,
    ToggleCheckbox,
    TableNextCell,
    TablePrevCell,
    TableNextRow,
    TablePrevRow,
    TableMoveRowUp,
    TableMoveRowDown,
    TableMoveColumnLeft,
    TableMoveColumnRight,
    TableInsertRowAbove,
    TableInsertRowBelow,
    TableInsertColumnLeft,
    TableInsertColumnRight,
    TableDeleteRow,
    TableDeleteColumn,
    TableInsertBreak,
    /// What the application does without the editor, such as saving.
    Other,
}

/// A change of a table, or a step through it, at the cursor.
#[derive(Debug, Clone, Copy, PartialEq, Eq, Structural)]
pub enum TableCommand {
    NextCell,
    PrevCell,
    NextRow,
    PrevRow,
    MoveRowUp,
    MoveRowDown,
    MoveColumnLeft,
    MoveColumnRight,
    InsertRowAbove,
    InsertRowBelow,
    InsertColumnLeft,
    InsertColumnRight,
    DeleteRow,
    DeleteColumn,
}

/// How the view is to be scrolled.
#[derive(Debug, Clone, Copy, PartialEq, Eq, Structural)]
pub enum Scrolling {
    Stay,
    Up(usize),
    Down(usize),
    ToTop,
    ToBottom,
}

/// What is known around the cursor when an action comes.
pub struct Near {
    /// Rows on the screen.
    pub height: usize,
    /// The cursor is in a table.
    pub in_table: bool,
    /// Where the movement that is asked for leads within the cursor's table.
    pub cell: Option<usize>,
    /// How the text is laid out in the view that the action leads to.
    pub layout: Layout,
    /// Rows above the cursor's line, and the rows of that line, in the view that
    /// the action comes from.
    pub above: usize,
    pub flat: LineWrap,
    /// The text on the clipboard of the system, where that can be read.
    pub clipboard: Option<String>,
}

impl Near {
    /// What is known is of the text `s`.
    pub open spec fn fits(self, s: Seq<char>) -> bool {
        &&& self.layout.fits(s)
        &&& self.flat.rows@.len() > 0
        &&& (self.cell matches Some(t) ==> t <= s.len())
    }
}

/// What an action asks of the layers around the editor.
pub struct Outcome {
    /// The application is to end.
    pub quit: bool,
    pub scrolling: Scrolling,
    /// The cursor is to be kept on the screen when the view has scrolled past it.
    pub cursor_to_top: bool,
    /// The row of the screen on which the cursor is to stay.
    pub keep_row: Option<usize>,
    /// The view is to be scrolled until the cursor is on the screen.
    pub keep_visible: bool,
    /// The text for the clipboard of the system.
    pub copy: Option<String>,
    /// The table is to be changed; the upkeep after it is left to be done.
    pub table: Option<TableCommand>,
}

/// An outcome as mathematical values.
pub struct OutcomeView {
    pub quit: bool,
    pub scrolling: Scrolling,
    pub cursor_to_top: bool,
    pub keep_row: Option<usize>,
    pub keep_visible: bool,
    pub copy: Option<Seq<char>>,
    pub table: Option<TableCommand>,
}

impl View for Outcome {
    type V = OutcomeView;

    open spec fn view(&self) -> OutcomeView {
        OutcomeView {
            quit: self.quit,
            scrolling: self.scrolling,
            cursor_to_top: self.cursor_to_top,
            keep_row: self.keep_row,
            keep_visible: self.keep_visible,
            copy: match self.copy {
                Some(t) => Some(t@),
                None => None,
            },
            table: self.table,
        }
    }
}

/// Nothing is asked.
pub open spec fn quiet() -> OutcomeView {
    OutcomeView {
        quit: false,
        scrolling: Scrolling::Stay,
        cursor_to_top: false,
        keep_row: None,
        keep_visible: false,
        copy: None,
        table: None,
    }
}

/// The cursor is to be kept on the screen.
pub open spec fn watchful() -> OutcomeView {
    OutcomeView { keep_visible: true, ..quiet() }
}

/// The view is to be scrolled.
pub open spec fn scrolling(s: Scrolling, cursor_to_top: bool) -> OutcomeView {
    OutcomeView { scrolling: s, cursor_to_top, ..quiet() }
}

impl Outcome {
    /// Nothing is asked.
    pub fn quiet() -> (r: Self)
        ensures
            r@ == quiet(),
    {
        Outcome {
            quit: false,
            scrolling: Scrolling::Stay,
            cursor_to_top: false,
            keep_row: None,
            keep_visible: false,
            copy: None,
            table: None,
        }
    }

    /// The cursor is to be kept on the screen.
    pub fn watchful() -> (r: Self)
        ensures
            r@ == watchful(),
    {
        let mut r = Outcome::quiet();
        r.keep_visible = true;
        r
    }

    /// The view is to be scrolled.
    pub fn scrolling(s: Scrolling, cursor_to_top: bool) -> (r: Self)
        ensures
            r@ == scrolling(s, cursor_to_top),
    {
        let mut r = Outcome::quiet();
        r.scrolling = s;
        r.cursor_to_top = cursor_to_top;
        r
    }

    /// A table is to be changed.
    pub fn table(command: TableCommand) -> (r: Self)
        ensures
            r@ == (OutcomeView { table: Some(command), ..quiet() }),
    {
        let mut r = Outcome::quiet();
        r.table = Some(command);
        r
    }
}

impl Action {
    /// Typing: a single edit that needs no rendered document.
    pub open spec fn hot(self) -> bool {
        self is InsertChar || self is InsertTab || self is Newline || self is DeleteCharBack
            || self is DeleteCharForward || self is DeleteWordBack || self is DeleteWordForward
    }

    /// True iff the action is typing: a single edit that needs no rendered document,
    /// since the block of the cursor is painted from the text.
    pub fn is_hot_typing_action(&self) -> (r: bool)
        ensures
            r == self.hot(),
    {
        match self {
            Action::InsertChar(_) => true,
            Action::InsertTab => true,
            Action::Newline => true,
            Action::DeleteCharBack => true,
            Action::DeleteCharForward => true,
            Action::DeleteWordBack => true,
            Action::DeleteWordForward => true,
            _ => false,
        }
    }
}

} // verus!
