//! The editor's state, and the steps that every change of it is made of.
//!
//! The state holds plain values. What other layers do (rendering the document,
//! reading the clock, the clipboard and the mouse) they do outside, and hand the
//! results in: a change that needs the document rendered again asks for it by
//! `reparse_due`, and [`EditorState::install_parsed`] takes the result.

use crate::document::buffer;
use crate::document::buffer::{Buffer, LineEnding};
use crate::document::cursor;
use crate::document::cursor::Cursor;
use crate::document::history;
use crate::document::history::{EditDelta, History};
use crate::document::parsed_doc::ParsedDoc;
use crate::document::rope;
use crate::document::selection::{CellBand, Selection, VisualSelection};
use crate::document::source_map;
use crate::editor::blink::CursorBlink;
use crate::editor::link::LinkTarget;
use crate::editor::mode::Mode;
use crate::editor::motion;
use crate::editor::motion::Motion;
use crate::text;
use vstd::prelude::*;
use vstd::string::*;
use vstd::utf8::*;

verus! {

/// The rows that are kept free for the source of the image block that the cursor
/// rests in.
///
/// Both the index and the URL must agree: one image can be used twice, and a block
/// that an edit made another one must not be met by an old reservation.
#[derive(Debug, PartialEq, Eq)]
pub struct ImageReveal {
    /// Index of the image block.
    pub ordinal: usize,
    pub url: String,
    /// One row for each line of the source.
    pub rows: usize,
    /// Rows above the source for the rendered formula.
    pub preview_rows: usize,
}

/// A search flow: the version of the text that its matches are of, and where the
/// match in focus begins, in bytes.
#[derive(Debug, Clone, Copy, PartialEq, Eq)]
pub struct SearchFlow {
    pub version: u64,
    pub focused: Option<usize>,
}

/// What the user has set, and the size of the view.
#[derive(Debug, Clone, Copy, PartialEq, Eq)]
pub struct Settings {
    /// Number of the colour theme.
    pub theme: usize,
    pub preserve_blank_lines: bool,
    /// Vertical movement goes by rows of the view rather than by lines.
    pub visual_line_nav: bool,
    pub image_max_height: usize,
    pub image_max_width: usize,
    /// Width and height of a terminal cell in pixels.
    pub image_font_size: (u16, u16),
    pub images_enabled: bool,
    pub diagrams_enabled: bool,
    pub row_striping: bool,
    pub big_h1: bool,
    pub syntax_highlighting: bool,
    pub math_preview: bool,
    /// Paragraphs are shown as one flow of text.
    pub reflow: bool,
    /// Width of the document area in cells.
    pub viewport_width: usize,
    /// How many spaces one level of indentation takes.
    pub indent_width: usize,
    /// A dialog is open.
    pub modal_open: bool,
    /// The terminal has the focus.
    pub terminal_focused: bool,
}

/// Where the cursor rests, and since when.
#[derive(Debug, Clone, Copy, PartialEq, Eq)]
pub struct CursorTrack {
    /// The block that the cursor is in.
    pub block_idx: Option<usize>,
    /// The buffer lines of that block: its first line, and the line past its last.
    pub line_range: Option<(usize, usize)>,
    /// The cursor's line.
    pub line_idx: Option<usize>,
    /// When the cursor came to its line.
    pub entered_at: Option<u64>,
    /// The block is shown by its source as a whole, a diagram or a paragraph that is one
    /// flow, and the cursor rested in it: it stays so until the cursor leaves it.
    pub reveal_latched: bool,
}

/// The editor's state.
pub struct EditorState {
    pub buffer: Buffer,
    pub cursor: Cursor,
    pub selection: Option<Selection>,
    /// The selection in the preview, in rendered coordinates.
    pub visual_selection: Option<VisualSelection>,
    /// The table cell that the preview's selection is bound to.
    pub visual_band: Option<CellBand>,
    pub history: History,
    pub mode: Mode,
    pub parsed: ParsedDoc,
    /// There are changes that were not saved.
    pub dirty: bool,
    /// The editor's own clipboard.
    pub kill_ring: String,
    /// The first visual row on the screen.
    pub scroll: usize,
    pub track: CursorTrack,
    pub cursor_blink: CursorBlink,
    /// The clock, in milliseconds.
    pub now: u64,
    /// When a row or a column of a table was deleted by a click.
    pub last_table_delete_at: Option<u64>,
    pub drag_in_progress: bool,
    pub settings: Settings,
    /// Changes with everything that changes what is painted.
    pub parsed_version: u64,
    /// An edit within a line left `parsed` behind.
    pub parsed_dirty: bool,
    /// `parsed` was made with paragraphs as one flow.
    pub parsed_reflow: bool,
    /// The document is to be rendered again.
    pub reparse_due: bool,
    /// The cursor's block is to be looked up when that is done.
    pub track_due: bool,
    /// Column widths under a drag, and the table that they are of.
    pub live_table_widths: Option<(usize, Vec<Option<usize>>)>,
    /// The table whose widths wait to be written.
    pub pending_column_widths_commit: Option<usize>,
    /// The link that is to be followed.
    pub pending_link_follow: Option<LinkTarget>,
    /// The scroll position before the review.
    pub pre_diff_scroll: usize,
    /// The review's rendered text is to be made again.
    pub diff_parse_dirty: bool,
    /// The view is to be scrolled to what is in focus.
    pub pending_focus_scroll: bool,
    pub search: Option<SearchFlow>,
    /// A substitution is being previewed.
    pub substitute_preview: bool,
    /// The document cannot be edited.
    pub readonly: bool,
    pub image_reveal: Option<ImageReveal>,
    /// The cursor's paragraph was shown by its source in the last frame.
    pub prev_reflow_has_reveal: bool,
}

/// The state as mathematical values.
pub struct EditorView {
    pub text: Seq<char>,
    pub path: Option<Seq<u8>>,
    pub ending: LineEnding,
    pub version: u64,
    pub undo: Seq<history::Delta>,
    pub redo: Seq<history::Delta>,
    pub cursor: Cursor,
    pub selection: Option<Selection>,
    pub visual: Option<VisualSelection>,
    pub band: Option<CellBand>,
    pub mode: Mode,
    pub parsed: ParsedDoc,
    pub dirty: bool,
    pub kill_ring: Seq<char>,
    pub scroll: usize,
    pub track: CursorTrack,
    pub blink: CursorBlink,
    pub now: u64,
    pub deleted_at: Option<u64>,
    pub drag: bool,
    pub settings: Settings,
    pub parsed_version: u64,
    pub parsed_dirty: bool,
    pub parsed_reflow: bool,
    pub reparse_due: bool,
    pub track_due: bool,
    pub live_widths: Option<(usize, Seq<Option<usize>>)>,
    pub pending_widths: Option<usize>,
    pub pending_link: Option<LinkTarget>,
    pub pre_diff_scroll: usize,
    pub diff_parse_dirty: bool,
    pub pending_focus_scroll: bool,
    pub search: Option<SearchFlow>,
    pub substitute_preview: bool,
    pub readonly: bool,
    pub image_reveal: Option<ImageReveal>,
    pub prev_reflow_has_reveal: bool,
}

impl View for EditorState {
    type V = EditorView;

    closed spec fn view(&self) -> EditorView {
        EditorView {
            text: self.buffer@,
            path: self.buffer.path_view(),
            ending: self.buffer.ending(),
            version: self.buffer.version_view(),
            undo: self.history.undo_view(),
            redo: self.history.redo_view(),
            cursor: self.cursor,
            selection: self.selection,
            visual: self.visual_selection,
            band: self.visual_band,
            mode: self.mode,
            parsed: self.parsed,
            dirty: self.dirty,
            kill_ring: self.kill_ring@,
            scroll: self.scroll,
            track: self.track,
            blink: self.cursor_blink,
            now: self.now,
            deleted_at: self.last_table_delete_at,
            drag: self.drag_in_progress,
            settings: self.settings,
            parsed_version: self.parsed_version,
            parsed_dirty: self.parsed_dirty,
            parsed_reflow: self.parsed_reflow,
            reparse_due: self.reparse_due,
            track_due: self.track_due,
            live_widths: match self.live_table_widths {
                Some(l) => Some((l.0, l.1@)),
                None => None,
            },
            pending_widths: self.pending_column_widths_commit,
            pending_link: self.pending_link_follow,
            pre_diff_scroll: self.pre_diff_scroll,
            diff_parse_dirty: self.diff_parse_dirty,
            pending_focus_scroll: self.pending_focus_scroll,
            search: self.search,
            substitute_preview: self.substitute_preview,
            readonly: self.readonly,
            image_reveal: self.image_reveal,
            prev_reflow_has_reveal: self.prev_reflow_has_reveal,
        }
    }
}

/// `v` is the state of a buffer with nothing done yet.
pub open spec fn is_untouched(
    v: EditorView,
    buffer: Buffer,
    parsed: ParsedDoc,
    settings: Settings,
    blink: CursorBlink,
    now: u64,
) -> bool {
    &&& v.text == buffer@
    &&& v.path == buffer.path_view()
    &&& v.ending == buffer.ending()
    &&& v.version == buffer.version_view()
    &&& v.undo.len() == 0
    &&& v.redo.len() == 0
    &&& v.cursor == Cursor { offset: 0, preferred_col: 0 }
    &&& v.selection is None
    &&& v.visual is None
    &&& v.band is None
    &&& v.mode == Mode::Preview
    &&& v.parsed == parsed
    &&& !v.dirty
    &&& v.kill_ring.len() == 0
    &&& v.scroll == 0
    &&& v.track == CursorTrack {
        block_idx: None,
        line_range: None,
        line_idx: None,
        entered_at: None,
        reveal_latched: false,
    }
    &&& v.blink == blink
    &&& v.now == now
    &&& v.deleted_at is None
    &&& !v.drag
    &&& v.settings == settings
    &&& v.parsed_version == 0
    &&& !v.parsed_dirty
    &&& !v.parsed_reflow
    &&& !v.reparse_due
    &&& !v.track_due
    &&& v.live_widths is None
    &&& v.pending_widths is None
    &&& v.pending_link is None
    &&& v.pre_diff_scroll == 0
    &&& !v.diff_parse_dirty
    &&& !v.pending_focus_scroll
    &&& v.search is None
    &&& !v.substitute_preview
    &&& !v.readonly
    &&& v.image_reveal is None
    &&& !v.prev_reflow_has_reveal
}

/// The parts of the state that are plain values.
#[derive(Debug, Clone, Copy)]
pub struct Facts {
    pub cursor: Cursor,
    pub selection: Option<Selection>,
    pub visual: Option<VisualSelection>,
    pub band: Option<CellBand>,
    pub mode: Mode,
    pub dirty: bool,
    pub scroll: usize,
    pub track: CursorTrack,
    pub blink: CursorBlink,
    pub now: u64,
    pub deleted_at: Option<u64>,
    pub drag: bool,
    pub settings: Settings,
    pub parsed_version: u64,
    pub parsed_dirty: bool,
    pub parsed_reflow: bool,
    pub reparse_due: bool,
    pub pending_widths: Option<usize>,
    pub pre_diff_scroll: usize,
    pub search: Option<SearchFlow>,
    pub substitute_preview: bool,
    pub readonly: bool,
    pub prev_reflow_has_reveal: bool,
    pub undo_depth: usize,
}

impl Facts {
    /// The facts are those of `v`.
    pub open spec fn agrees(self, v: EditorView) -> bool {
        &&& self.cursor == v.cursor
        &&& self.selection == v.selection
        &&& self.visual == v.visual
        &&& self.band == v.band
        &&& self.mode == v.mode
        &&& self.dirty == v.dirty
        &&& self.scroll == v.scroll
        &&& self.track == v.track
        &&& self.blink == v.blink
        &&& self.now == v.now
        &&& self.deleted_at == v.deleted_at
        &&& self.drag == v.drag
        &&& self.settings == v.settings
        &&& self.parsed_version == v.parsed_version
        &&& self.parsed_dirty == v.parsed_dirty
        &&& self.parsed_reflow == v.parsed_reflow
        &&& self.reparse_due == v.reparse_due
        &&& self.pending_widths == v.pending_widths
        &&& self.pre_diff_scroll == v.pre_diff_scroll
        &&& self.search == v.search
        &&& self.substitute_preview == v.substitute_preview
        &&& self.readonly == v.readonly
        &&& self.prev_reflow_has_reveal == v.prev_reflow_has_reveal
        &&& self.undo_depth == v.undo.len()
    }
}

/// The smaller of two numbers.
pub open spec fn least(a: int, b: int) -> int {
    if a <= b {
        a
    } else {
        b
    }
}

/// The bytes of a text.
pub open spec fn bytes_of(s: Seq<char>) -> Seq<u8> {
    encode_utf8(s)
}

/// The character at a byte offset, which the text's end bounds.
pub open spec fn char_at_byte(s: Seq<char>, byte: int) -> int {
    rope::char_of_byte(s, least(byte, bytes_of(s).len() as int))
}

/// The tables of a rendered document agree, and a history leads from and to a
/// text.
#[verifier::opaque]
pub open spec fn sound(
    parsed: ParsedDoc,
    text: Seq<char>,
    undo: Seq<history::Delta>,
    redo: Seq<history::Delta>,
) -> bool {
    &&& parsed.wf()
    &&& history::undoable(text, undo)
    &&& history::redoable(text, redo)
}

proof fn lemma_sound_undo(
    parsed: ParsedDoc,
    text: Seq<char>,
    undo: Seq<history::Delta>,
    redo: Seq<history::Delta>,
)
    requires
        sound(parsed, text, undo, redo),
    ensures
        undo.len() > 0 ==> 0 <= undo.last().offset <= text.len() && sound(
            parsed,
            undo.last().undone(text),
            undo.drop_last(),
            redo.push(undo.last()),
        ),
{
    reveal(sound);
    if undo.len() > 0 {
        history::law_undo_keeps_history(text, undo, redo);
    }
}

proof fn lemma_sound_redo(
    parsed: ParsedDoc,
    text: Seq<char>,
    undo: Seq<history::Delta>,
    redo: Seq<history::Delta>,
)
    requires
        sound(parsed, text, undo, redo),
    ensures
        redo.len() > 0 ==> 0 <= redo.last().offset <= text.len() && sound(
            parsed,
            redo.last().redone(text),
            undo.push(redo.last()),
            redo.drop_last(),
        ),
{
    reveal(sound);
    if redo.len() > 0 {
        history::law_redo_keeps_history(text, undo, redo);
    }
}

proof fn lemma_sound_edit(
    parsed: ParsedDoc,
    text: Seq<char>,
    undo: Seq<history::Delta>,
    redo: Seq<history::Delta>,
    d: history::Delta,
)
    requires
        sound(parsed, text, undo, redo),
        d.fits(text),
    ensures
        sound(parsed, d.redone(text), history::recorded(undo, d), Seq::empty()),
{
    reveal(sound);
    history::law_record_keeps_history(text, undo, d);
}

impl EditorView {
    /// The state's parts agree: the cursor is in the text, and the history leads
    /// from and to it.
    pub open spec fn wf(self) -> bool {
        &&& self.cursor.offset <= self.text.len()
        &&& sound(self.parsed, self.text, self.undo, self.redo)
    }

    /// The cursor's offset in bytes.
    pub open spec fn cursor_byte(self) -> int {
        rope::byte_offset(self.text, self.cursor.offset as int)
    }

    /// The state with the cursor at `offset`, and its column as it was.
    #[verifier::opaque]
    pub open spec fn at(self, offset: int) -> EditorView {
        EditorView { cursor: Cursor { offset: offset as usize, ..self.cursor }, ..self }
    }

    /// The state with the column to aim at taken from where the cursor is.
    #[verifier::opaque]
    pub open spec fn aimed(self) -> EditorView {
        EditorView {
            cursor: Cursor {
                preferred_col: cursor::cell_col_of(self.text, self.cursor.offset as int),
                ..self.cursor
            },
            ..self
        }
    }

    /// The state with the column to aim at.
    #[verifier::opaque]
    pub open spec fn aimed_at(self, col: usize) -> EditorView {
        EditorView { cursor: Cursor { preferred_col: col, ..self.cursor }, ..self }
    }

    /// The state with the cursor moved.
    #[verifier::opaque]
    pub open spec fn moved(self, how: Motion) -> EditorView {
        EditorView { cursor: motion::moved(self.cursor, self.text, how), ..self }
    }

    /// The state with this selection.
    #[verifier::opaque]
    pub open spec fn selecting(self, selection: Option<Selection>) -> EditorView {
        EditorView { selection, ..self }
    }

    /// The state with this selection in the preview.
    #[verifier::opaque]
    pub open spec fn showing(
        self,
        visual: Option<VisualSelection>,
        band: Option<CellBand>,
    ) -> EditorView {
        EditorView { visual, band, ..self }
    }

    /// The state in this mode.
    #[verifier::opaque]
    pub open spec fn in_mode(self, mode: Mode) -> EditorView {
        EditorView { mode, ..self }
    }

    /// The state with the view scrolled to `scroll`.
    #[verifier::opaque]
    pub open spec fn scrolled(self, scroll: usize) -> EditorView {
        EditorView { scroll, ..self }
    }

    /// The state with a drag in progress, or none.
    #[verifier::opaque]
    pub open spec fn dragging(self, drag: bool) -> EditorView {
        EditorView { drag, ..self }
    }

    /// The state with `text` on the editor's clipboard.
    #[verifier::opaque]
    pub open spec fn holding(self, text: Seq<char>) -> EditorView {
        EditorView { kill_ring: text, ..self }
    }

    /// The state with a link to be followed.
    #[verifier::opaque]
    pub open spec fn following(self, link: Option<LinkTarget>) -> EditorView {
        EditorView { pending_link: link, ..self }
    }

    /// The state with these settings.
    #[verifier::opaque]
    pub open spec fn configured(self, settings: Settings) -> EditorView {
        EditorView { settings, ..self }
    }

    /// The state with this note of where the cursor rests.
    #[verifier::opaque]
    pub open spec fn resting(self, track: CursorTrack) -> EditorView {
        EditorView { track, ..self }
    }

    /// The state with these column widths under a drag.
    #[verifier::opaque]
    pub open spec fn with_live_widths(
        self,
        widths: Option<(usize, Seq<Option<usize>>)>,
    ) -> EditorView {
        EditorView { live_widths: widths, ..self }
    }

    /// The state with a table whose widths wait to be written.
    #[verifier::opaque]
    pub open spec fn with_pending_widths(self, table: Option<usize>) -> EditorView {
        EditorView { pending_widths: table, ..self }
    }

    /// The state with a newly rendered document. In a review the other text is to be
    /// rendered again too, since what made the one anew holds of both.
    #[verifier::opaque]
    pub open spec fn rendered_as(self, parsed: ParsedDoc, reflow: bool) -> EditorView {
        EditorView {
            parsed,
            parsed_reflow: reflow,
            parsed_version: self.parsed_version.wrapping_add(1),
            parsed_dirty: false,
            reparse_due: false,
            track_due: false,
            diff_parse_dirty: self.mode == Mode::Diff,
            ..self
        }
    }

    /// The state with the last edit undone, if there is one.
    pub open spec fn undone(self) -> EditorView {
        if self.undo.len() == 0 {
            self
        } else {
            self.undo_made()
        }
    }

    /// The state with the last edit undone.
    #[verifier::opaque]
    pub open spec fn undo_made(self) -> EditorView {
        let d = self.undo.last();
        EditorView {
            text: d.undone(self.text),
            version: history::edited_version(self.version, d.inserted, d.removed),
            undo: self.undo.drop_last(),
            redo: self.redo.push(d),
            cursor: Cursor { offset: (d.offset + d.removed.len()) as usize, ..self.cursor },
            ..self
        }.refreshed()
    }

    /// The state with the last undone edit made again, if there is one.
    pub open spec fn redone(self) -> EditorView {
        if self.redo.len() == 0 {
            self
        } else {
            self.redo_made()
        }
    }

    /// The state with the last undone edit made again.
    #[verifier::opaque]
    pub open spec fn redo_made(self) -> EditorView {
        let d = self.redo.last();
        EditorView {
            text: d.redone(self.text),
            version: history::edited_version(self.version, d.removed, d.inserted),
            undo: self.undo.push(d),
            redo: self.redo.drop_last(),
            cursor: Cursor { offset: (d.offset + d.inserted.len()) as usize, ..self.cursor },
            ..self
        }.refreshed()
    }

    /// The state that asks for the document to be rendered again.
    #[verifier::opaque]
    pub open spec fn refreshed(self) -> EditorView {
        EditorView { reparse_due: true, ..self }
    }

    /// The buffer lines that block `idx` takes.
    pub open spec fn block_lines(self, idx: int) -> Option<(usize, usize)> {
        let ranges = self.parsed.source_map.original();
        if 0 <= idx < ranges.len() {
            let total = bytes_of(self.text).len() as int;
            let start = least(ranges[idx].start as int, total);
            let end = least(ranges[idx].end as int, total);
            let last = if end - 1 >= start {
                end - 1
            } else {
                start
            };
            let first_line = rope::lines_before(self.text, rope::char_of_byte(self.text, start));
            let last_line = rope::lines_before(self.text, rope::char_of_byte(self.text, last));
            Some(
                (
                    first_line as usize,
                    (if last_line >= first_line {
                        last_line + 1
                    } else {
                        first_line + 1
                    }) as usize,
                ),
            )
        } else {
            None
        }
    }

    /// Where the cursor rests now. The time at which it came there begins anew with
    /// each line. A block that is shown by its source as a whole stays so until the
    /// cursor comes to another block.
    pub open spec fn track_now(self) -> CursorTrack {
        let idx: Option<usize> = match source_map::owner(
            self.parsed.source_map.extended(),
            self.cursor_byte(),
        ) {
            Some(b) => Some(b as usize),
            None => None,
        };
        let line = cursor::line_of(self.text, self.cursor.offset as int) as usize;
        CursorTrack {
            block_idx: idx,
            line_range: match idx {
                Some(b) => self.block_lines(b as int),
                None => None,
            },
            line_idx: Some(line),
            entered_at: if self.track.line_idx == Some(line) {
                self.track.entered_at
            } else {
                Some(self.now)
            },
            reveal_latched: self.track.reveal_latched && idx == self.track.block_idx,
        }
    }

    /// The state with the cursor's block looked up, or, while the document waits
    /// to be rendered, noted to be looked up then.
    #[verifier::opaque]
    pub open spec fn followed(self) -> EditorView {
        if self.reparse_due {
            EditorView { track_due: true, ..self }
        } else {
            EditorView {
                track: self.track_now(),
                blink: self.blink.restarted(self.now),
                ..self
            }
        }
    }

    /// The state after an edit. A document that cannot be edited stays as it is.
    /// An edit across lines has the document rendered again; one within a line
    /// only marks it, since the cursor's block is painted from the text.
    #[verifier::opaque]
    pub open spec fn edited(self, d: history::Delta) -> EditorView {
        if self.readonly {
            self
        } else {
            let v = EditorView {
                text: d.redone(self.text),
                version: history::edited_version(self.version, d.removed, d.inserted),
                undo: history::recorded(self.undo, d),
                redo: Seq::empty(),
                cursor: Cursor { offset: (d.offset + d.inserted.len()) as usize, ..self.cursor },
                dirty: true,
                ..self
            };
            if d.inserted.contains('\n') || d.removed.contains('\n') {
                v.refreshed().followed()
            } else {
                EditorView {
                    parsed_dirty: true,
                    parsed_version: v.parsed_version.wrapping_add(1),
                    blink: v.blink.restarted(v.now),
                    ..v
                }
            }
        }
    }
}

/// What an edit takes out stands in `s` at its offset, which counts bytes.
pub open spec fn stands_at_byte(s: Seq<char>, d: history::Delta) -> bool {
    let b = bytes_of(s);
    let end = d.offset + bytes_of(d.removed).len();
    text::sliceable(b, d.offset, end) && b.subrange(d.offset, end) == bytes_of(d.removed)
}

/// An edit whose offset counts bytes, with the offset in characters.
pub open spec fn in_chars(s: Seq<char>, d: history::Delta) -> history::Delta {
    history::Delta { offset: rope::char_of_byte(s, d.offset), ..d }
}

/// What stands at a byte stands at its character.
pub proof fn lemma_in_chars_fits(s: Seq<char>, d: history::Delta)
    requires
        stands_at_byte(s, d),
    ensures
        in_chars(s, d).fits(s),
{
    let from = d.offset;
    let to = from + bytes_of(d.removed).len();
    rope::lemma_boundary_is_offset(s, from);
    rope::lemma_boundary_is_offset(s, to);
    let i = rope::char_of_byte(s, from);
    let j = rope::char_of_byte(s, to);
    if j < i {
        rope::lemma_part_bytes(s, j, i);
    }
    rope::lemma_part_bytes(s, i, j);
    text::lemma_encode_injective(s.subrange(i, j), d.removed);
}

/// The bytes of a text after an edit whose offset counts bytes: what was put in stands in
/// the place of what was taken out.
pub proof fn lemma_in_chars_bytes(s: Seq<char>, d: history::Delta)
    requires
        stands_at_byte(s, d),
    ensures
        bytes_of(in_chars(s, d).redone(s)) == bytes_of(s).subrange(0, d.offset) + bytes_of(
            d.inserted,
        ) + bytes_of(s).subrange(
            d.offset + bytes_of(d.removed).len(),
            bytes_of(s).len() as int,
        ),
{
    lemma_in_chars_fits(s, d);
    let b = bytes_of(s);
    let to = d.offset + bytes_of(d.removed).len();
    let c = in_chars(s, d);
    let i = c.offset;
    let j = i + d.removed.len();
    rope::lemma_boundary_is_offset(s, d.offset);
    rope::lemma_part_bytes(s, 0, i);
    rope::lemma_part_bytes(s, i, j);
    rope::lemma_part_bytes(s, j, s.len() as int);
    assert(s.subrange(i, j) == d.removed);
    let head = s.subrange(0, i);
    let tail = s.subrange(j, s.len() as int);
    assert(c.redone(s) =~= head + d.inserted + tail);
    text::lemma_encode_concat(head + d.inserted, tail);
    text::lemma_encode_concat(head, d.inserted);
    assert(rope::byte_offset(s, j) == to);
}

/// True iff `s` holds a line feed.
pub fn has_newline(s: &str) -> (r: bool)
    ensures
        r == s@.contains('\n'),
{
    let chars: Vec<char> = text::chars_of(s);
    let mut i: usize = 0;
    while i < chars.len()
        invariant
            chars@ == s@,
            i <= chars@.len(),
            forall|k: int| 0 <= k < i ==> #[trigger] chars@[k] != '\n',
        decreases chars@.len() - i,
    {
        if chars[i] == '\n' {
            assert(s@[i as int] == '\n');
            return true;
        }
        i += 1;
    }
    false
}

impl EditorState {
    /// Each field of the state is what its view says.
    pub proof fn lemma_fields(&self)
        ensures
            self@ == (EditorView {
                text: self.buffer@,
                path: self.buffer.path_view(),
                ending: self.buffer.ending(),
                version: self.buffer.version_view(),
                undo: self.history.undo_view(),
                redo: self.history.redo_view(),
                cursor: self.cursor,
                selection: self.selection,
                visual: self.visual_selection,
                band: self.visual_band,
                mode: self.mode,
                parsed: self.parsed,
                dirty: self.dirty,
                kill_ring: self.kill_ring@,
                scroll: self.scroll,
                track: self.track,
                blink: self.cursor_blink,
                now: self.now,
                deleted_at: self.last_table_delete_at,
                drag: self.drag_in_progress,
                settings: self.settings,
                parsed_version: self.parsed_version,
                parsed_dirty: self.parsed_dirty,
                parsed_reflow: self.parsed_reflow,
                reparse_due: self.reparse_due,
                track_due: self.track_due,
                live_widths: match self.live_table_widths {
                    Some(l) => Some((l.0, l.1@)),
                    None => None,
                },
                pending_widths: self.pending_column_widths_commit,
                pending_link: self.pending_link_follow,
                pre_diff_scroll: self.pre_diff_scroll,
                diff_parse_dirty: self.diff_parse_dirty,
                pending_focus_scroll: self.pending_focus_scroll,
                search: self.search,
                substitute_preview: self.substitute_preview,
                readonly: self.readonly,
                image_reveal: self.image_reveal,
                prev_reflow_has_reveal: self.prev_reflow_has_reveal,
            }),
    {
    }

    /// The state's parts agree.
    pub open spec fn wf(&self) -> bool {
        self@.wf()
    }

    /// A state of a buffer, with `parsed` as its rendered document and nothing
    /// done yet.
    pub fn untouched(
        buffer: Buffer,
        parsed: ParsedDoc,
        settings: Settings,
        blink: CursorBlink,
        now: u64,
    ) -> (r: Self)
        requires
            parsed.wf(),
        ensures
            r.wf(),
            is_untouched(r@, buffer, parsed, settings, blink, now),
    {
        reveal(sound);
        EditorState {
            buffer,
            cursor: Cursor::new(),
            selection: None,
            visual_selection: None,
            visual_band: None,
            history: History::new(),
            mode: Mode::Preview,
            parsed,
            dirty: false,
            kill_ring: String::new(),
            scroll: 0,
            track: CursorTrack {
                block_idx: None,
                line_range: None,
                line_idx: None,
                entered_at: None,
                reveal_latched: false,
            },
            cursor_blink: blink,
            now,
            last_table_delete_at: None,
            drag_in_progress: false,
            settings,
            parsed_version: 0,
            parsed_dirty: false,
            parsed_reflow: false,
            reparse_due: false,
            track_due: false,
            live_table_widths: None,
            pending_column_widths_commit: None,
            pending_link_follow: None,
            pre_diff_scroll: 0,
            diff_parse_dirty: false,
            pending_focus_scroll: false,
            search: None,
            substitute_preview: false,
            readonly: false,
            image_reveal: None,
            prev_reflow_has_reveal: false,
        }
    }

    /// Asks for the document to be rendered again.
    pub fn refresh_parsed(&mut self)
        ensures
            old(self).wf() ==> final(self).wf(),
            final(self)@ == old(self)@.refreshed(),
    {
        reveal(EditorView::refreshed);
        self.reparse_due = true;
    }

    /// The cursor's offset in bytes.
    pub fn cursor_byte(&self) -> (r: usize)
        requires
            self.wf(),
        ensures
            r == self@.cursor_byte(),
            r <= bytes_of(self@.text).len(),
            is_char_boundary(bytes_of(self@.text), r as int),
    {
        proof {
            rope::lemma_char_round_trip(self.buffer@, self.cursor.offset as int);
            rope::lemma_offset_is_boundary(self.buffer@, self.cursor.offset as int);
        }
        self.buffer.char_to_byte(self.cursor.offset)
    }

    /// The character at a byte offset, which the text's end bounds.
    pub fn char_at_byte(&self, byte: usize) -> (r: usize)
        ensures
            r == char_at_byte(self@.text, byte as int),
            r <= self@.text.len(),
    {
        let total: usize = self.buffer.len_bytes();
        self.buffer.byte_to_char(
            if byte <= total {
                byte
            } else {
                total
            },
        )
    }

    /// The buffer lines of a block.
    fn block_line_range(&self, idx: usize) -> (r: Option<(usize, usize)>)
        ensures
            r == self@.block_lines(idx as int),
    {
        match self.parsed.source_map.original_range_for_block(idx) {
            None => None,
            Some(range) => {
                let total: usize = self.buffer.len_bytes();
                let start: usize = if range.start <= total {
                    range.start
                } else {
                    total
                };
                let end: usize = if range.end <= total {
                    range.end
                } else {
                    total
                };
                let last: usize = if end > start {
                    end - 1
                } else {
                    start
                };
                let first_line: usize = self.buffer.byte_to_line(start);
                let last_line: usize = self.buffer.byte_to_line(last);
                let lines: usize = self.buffer.line_count();
                Some(
                    (
                        first_line,
                        if last_line >= first_line {
                            last_line + 1
                        } else {
                            first_line + 1
                        },
                    ),
                )
            },
        }
    }

    /// Looks up the block and the line that the cursor is in, after the cursor
    /// moved. Coming to another line begins the delay after which the block is
    /// shown by its source, so that each row of a table takes the same time.
    pub fn update_cursor_block(&mut self)
        requires
            old(self).wf(),
        ensures
            final(self)@ == old(self)@.followed(),
            final(self).wf(),
    {
        reveal(EditorView::followed);
        if self.reparse_due {
            self.track_due = true;
            return ;
        }
        let byte: usize = self.cursor_byte();
        let idx: Option<usize> = self.parsed.source_map.block_for_byte(byte);
        let line_range: Option<(usize, usize)> = match idx {
            Some(b) => self.block_line_range(b),
            None => None,
        };
        let (line, _) = self.cursor.line_col(&self.buffer);
        let same_line: bool = match self.track.line_idx {
            Some(l) => l == line,
            None => false,
        };
        let same_block: bool = match (idx, self.track.block_idx) {
            (Some(b), Some(p)) => b == p,
            (None, None) => true,
            _ => false,
        };
        let entered_at: Option<u64> = if same_line {
            self.track.entered_at
        } else {
            Some(self.now)
        };
        let track = CursorTrack {
            block_idx: idx,
            line_range,
            line_idx: Some(line),
            entered_at,
            reveal_latched: self.track.reveal_latched && same_block,
        };
        assert(track == self@.track_now());
        self.track = track;
        self.cursor_blink.reset(self.now);
    }

    /// Makes an edit, records it, and marks the document as changed; see
    /// [`EditorView::edited`].
    pub fn apply_delta(&mut self, delta: EditDelta)
        requires
            old(self).wf(),
            delta@.fits(old(self)@.text),
        ensures
            final(self)@ == old(self)@.edited(delta@),
            final(self).wf(),
    {
        reveal(EditorView::refreshed);
        reveal(EditorView::edited);
        reveal(EditorView::followed);
        if self.readonly {
            return ;
        }
        let ghost v = self@;
        let ghost d = delta@;
        proof {
            lemma_sound_edit(v.parsed, v.text, v.undo, v.redo, d);
        }
        let crosses_line: bool = has_newline(delta.inserted.as_str()) || has_newline(
            delta.removed.as_str(),
        );
        let end: usize = history::exchange(
            &mut self.buffer,
            delta.offset,
            delta.removed.as_str(),
            delta.inserted.as_str(),
        );
        self.history.record(delta);
        self.cursor.offset = end;
        self.dirty = true;
        if crosses_line {
            self.refresh_parsed();
            self.update_cursor_block();
        } else {
            self.parsed_dirty = true;
            self.parsed_version = self.parsed_version.wrapping_add(1);
            self.cursor_blink.reset(self.now);
        }
    }

    /// Makes an edit whose offset counts bytes.
    pub fn apply_byte_edit(&mut self, delta: EditDelta)
        requires
            old(self).wf(),
            stands_at_byte(old(self)@.text, delta@),
        ensures
            final(self)@ == old(self)@.edited(in_chars(old(self)@.text, delta@)),
            final(self).wf(),
    {
        proof {
            lemma_in_chars_fits(self@.text, delta@);
        }
        let offset: usize = self.buffer.byte_to_char(delta.offset);
        let char_delta = EditDelta { offset, removed: delta.removed, inserted: delta.inserted };
        assert(char_delta@ == in_chars(self@.text, delta@));
        self.apply_delta(char_delta);
    }

    /// Takes the column to aim at from where the cursor is.
    pub fn aim(&mut self)
        requires
            old(self).wf(),
        ensures
            final(self)@ == old(self)@.aimed(),
            final(self).wf(),
    {
        reveal(EditorView::aimed);
        self.cursor.preferred_col = self.cursor.cell_col(&self.buffer);
    }

    /// The text.
    pub fn buffer(&self) -> (r: &Buffer)
        ensures
            r@ == self@.text,
            r.path_view() == self@.path,
            r.ending() == self@.ending,
            r.version_view() == self@.version,
    {
        &self.buffer
    }

    /// The rendered document.
    pub fn parsed(&self) -> (r: &ParsedDoc)
        ensures
            *r == self@.parsed,
            self.wf() ==> r.wf(),
    {
        reveal(sound);
        &self.parsed
    }

    /// The plain parts of the state.
    pub fn facts(&self) -> (r: Facts)
        ensures
            r.agrees(self@),
    {
        Facts {
            cursor: self.cursor,
            selection: self.selection,
            visual: self.visual_selection,
            band: self.visual_band,
            mode: self.mode,
            dirty: self.dirty,
            scroll: self.scroll,
            track: self.track,
            blink: self.cursor_blink,
            now: self.now,
            deleted_at: self.last_table_delete_at,
            drag: self.drag_in_progress,
            settings: self.settings,
            parsed_version: self.parsed_version,
            parsed_dirty: self.parsed_dirty,
            parsed_reflow: self.parsed_reflow,
            reparse_due: self.reparse_due,
            pending_widths: self.pending_column_widths_commit,
            pre_diff_scroll: self.pre_diff_scroll,
            search: self.search,
            substitute_preview: self.substitute_preview,
            readonly: self.readonly,
            prev_reflow_has_reveal: self.prev_reflow_has_reveal,
            undo_depth: self.history.undo_depth(),
        }
    }

    /// The mode.
    pub fn mode(&self) -> (r: Mode)
        ensures
            r == self@.mode,
    {
        self.mode
    }

    /// The cursor.
    pub fn cursor(&self) -> (r: Cursor)
        ensures
            r == self@.cursor,
    {
        self.cursor
    }

    /// The selection.
    pub fn selection(&self) -> (r: Option<Selection>)
        ensures
            r == self@.selection,
    {
        self.selection
    }

    /// The text on the editor's clipboard.
    pub fn kill_ring(&self) -> (r: &String)
        ensures
            r@ == self@.kill_ring,
    {
        &self.kill_ring
    }

    /// The column widths under a drag.
    pub fn live_table_widths(&self) -> (r: &Option<(usize, Vec<Option<usize>>)>)
        ensures
            self@.live_widths == (match *r {
                Some(l) => Some((l.0, l.1@)),
                None => None,
            }),
    {
        &self.live_table_widths
    }

    /// The rows kept for an image block's source.
    pub fn image_reveal(&self) -> (r: &Option<ImageReveal>)
        ensures
            *r == self@.image_reveal,
    {
        &self.image_reveal
    }

    /// Puts the cursor to `offset`.
    pub fn put_cursor(&mut self, offset: usize)
        requires
            old(self).wf(),
            offset <= old(self)@.text.len(),
        ensures
            final(self)@ == old(self)@.at(offset as int),
            final(self).wf(),
    {
        reveal(EditorView::at);
        self.cursor.offset = offset;
    }

    /// Takes a column to aim at.
    pub fn aim_at(&mut self, col: usize)
        requires
            old(self).wf(),
        ensures
            final(self)@ == old(self)@.aimed_at(col),
            final(self).wf(),
    {
        reveal(EditorView::aimed_at);
        self.cursor.preferred_col = col;
    }

    /// Moves the cursor.
    pub fn step(&mut self, how: Motion)
        requires
            old(self).wf(),
        ensures
            final(self)@ == old(self)@.moved(how),
            final(self).wf(),
    {
        reveal(EditorView::moved);
        motion::move_cursor(&mut self.cursor, &self.buffer, how);
    }

    /// Selects a part of the text, or nothing.
    pub fn select(&mut self, selection: Option<Selection>)
        requires
            old(self).wf(),
        ensures
            final(self)@ == old(self)@.selecting(selection),
            final(self).wf(),
    {
        reveal(EditorView::selecting);
        self.selection = selection;
    }

    /// Selects a part of the preview, or nothing.
    pub fn show(&mut self, visual: Option<VisualSelection>, band: Option<CellBand>)
        requires
            old(self).wf(),
        ensures
            final(self)@ == old(self)@.showing(visual, band),
            final(self).wf(),
    {
        reveal(EditorView::showing);
        self.visual_selection = visual;
        self.visual_band = band;
    }

    /// Changes the mode.
    pub fn enter_mode(&mut self, mode: Mode)
        requires
            old(self).wf(),
        ensures
            final(self)@ == old(self)@.in_mode(mode),
            final(self).wf(),
    {
        reveal(EditorView::in_mode);
        self.mode = mode;
    }

    /// Scrolls the view.
    pub fn scroll_to(&mut self, scroll: usize)
        requires
            old(self).wf(),
        ensures
            final(self)@ == old(self)@.scrolled(scroll),
            final(self).wf(),
    {
        reveal(EditorView::scrolled);
        self.scroll = scroll;
    }

    /// Notes that a drag is in progress, or none.
    pub fn drag(&mut self, drag: bool)
        requires
            old(self).wf(),
        ensures
            final(self)@ == old(self)@.dragging(drag),
            final(self).wf(),
    {
        reveal(EditorView::dragging);
        self.drag_in_progress = drag;
    }

    /// Puts `text` on the editor's clipboard.
    pub fn hold(&mut self, text: String)
        requires
            old(self).wf(),
        ensures
            final(self)@ == old(self)@.holding(text@),
            final(self).wf(),
    {
        reveal(EditorView::holding);
        self.kill_ring = text;
    }

    /// Notes a link to be followed.
    pub fn follow(&mut self, link: Option<LinkTarget>)
        requires
            old(self).wf(),
        ensures
            final(self)@ == old(self)@.following(link),
            final(self).wf(),
    {
        reveal(EditorView::following);
        self.pending_link_follow = link;
    }

    /// Takes other settings.
    pub fn configure(&mut self, settings: Settings)
        ensures
            old(self).wf() ==> final(self).wf(),
            final(self)@ == old(self)@.configured(settings),
    {
        reveal(EditorView::configured);
        self.settings = settings;
    }

    /// Notes where the cursor rests.
    pub fn rest(&mut self, track: CursorTrack)
        requires
            old(self).wf(),
        ensures
            final(self)@ == old(self)@.resting(track),
            final(self).wf(),
    {
        reveal(EditorView::resting);
        self.track = track;
    }

    /// Takes column widths under a drag.
    pub fn set_live_widths(&mut self, widths: Option<(usize, Vec<Option<usize>>)>)
        ensures
            old(self).wf() ==> final(self).wf(),
            final(self)@ == old(self)@.with_live_widths(
                match widths {
                    Some(l) => Some((l.0, l.1@)),
                    None => None,
                },
            ),
    {
        reveal(EditorView::with_live_widths);
        self.live_table_widths = widths;
    }

    /// Notes the table whose widths wait to be written.
    pub fn set_pending_widths(&mut self, table: Option<usize>)
        ensures
            old(self).wf() ==> final(self).wf(),
            final(self)@ == old(self)@.with_pending_widths(table),
    {
        reveal(EditorView::with_pending_widths);
        self.pending_column_widths_commit = table;
    }

    /// Notes when a part of a table was deleted by a click.
    pub fn set_deleted_at(&mut self, at: Option<u64>)
        ensures
            old(self).wf() ==> final(self).wf(),
            final(self)@ == (EditorView { deleted_at: at, ..old(self)@ }),
    {
        self.last_table_delete_at = at;
    }

    /// Notes the rows kept for an image block's source.
    pub fn set_image_reveal(&mut self, reveal: Option<ImageReveal>)
        requires
            old(self).wf(),
        ensures
            final(self)@ == (EditorView { image_reveal: reveal, ..old(self)@ }),
            final(self).wf(),
    {
        self.image_reveal = reveal;
    }

    /// Notes whether the cursor's paragraph is shown by its source.
    pub fn set_prev_reveal(&mut self, on: bool)
        ensures
            old(self).wf() ==> final(self).wf(),
            final(self)@ == (EditorView { prev_reflow_has_reveal: on, ..old(self)@ }),
    {
        self.prev_reflow_has_reveal = on;
    }

    /// Takes the time.
    pub fn set_now(&mut self, now: u64)
        requires
            old(self).wf(),
        ensures
            final(self)@ == (EditorView { now, ..old(self)@ }),
            final(self).wf(),
    {
        self.now = now;
    }

    /// Takes the scroll position before a review, and whether its text is to be rendered.
    pub fn set_review(&mut self, kept_scroll: usize, dirty: bool)
        requires
            old(self).wf(),
        ensures
            final(self)@ == (EditorView {
                pre_diff_scroll: kept_scroll,
                diff_parse_dirty: dirty,
                ..old(self)@
            }),
            final(self).wf(),
    {
        self.pre_diff_scroll = kept_scroll;
        self.diff_parse_dirty = dirty;
    }

    /// Begins or ends a search flow.
    pub fn set_search(&mut self, search: Option<SearchFlow>)
        requires
            old(self).wf(),
        ensures
            final(self)@ == (EditorView { search, ..old(self)@ }),
            final(self).wf(),
    {
        self.search = search;
    }

    /// Asks for the view to be scrolled to what is in focus.
    pub fn set_focus_scroll(&mut self, due: bool)
        requires
            old(self).wf(),
        ensures
            final(self)@ == (EditorView { pending_focus_scroll: due, ..old(self)@ }),
            final(self).wf(),
    {
        self.pending_focus_scroll = due;
    }

    /// Puts another text in the place of the old one, with nothing to undo.
    pub fn set_buffer(&mut self, buffer: Buffer, offset: usize)
        requires
            old(self).wf(),
            offset <= buffer@.len(),
        ensures
            final(self).wf(),
            final(self)@ == (EditorView {
                text: buffer@,
                path: buffer.path_view(),
                ending: buffer.ending(),
                version: buffer.version_view(),
                undo: Seq::empty(),
                redo: Seq::empty(),
                dirty: false,
                substitute_preview: false,
                ..old(self)@.at(offset as int)
            }),
    {
        reveal(EditorView::at);
        reveal(sound);
        self.buffer = buffer;
        self.history = History::new();
        self.dirty = false;
        self.substitute_preview = false;
        self.cursor.offset = offset;
    }

    /// Takes a rendered document.
    pub fn set_parsed(&mut self, parsed: ParsedDoc, reflow: bool)
        requires
            old(self).wf(),
            parsed.wf(),
        ensures
            final(self).wf(),
            final(self)@ == old(self)@.rendered_as(parsed, reflow),
    {
        reveal(EditorView::rendered_as);
        reveal(sound);
        self.parsed = parsed;
        self.parsed_reflow = reflow;
        self.parsed_version = self.parsed_version.wrapping_add(1);
        self.parsed_dirty = false;
        self.reparse_due = false;
        self.track_due = false;
        self.diff_parse_dirty = self.mode == Mode::Diff;
    }

    /// True iff the review's rendered text is to be made again.
    pub fn diff_parse_dirty(&self) -> (r: bool)
        ensures
            r == self@.diff_parse_dirty,
    {
        self.diff_parse_dirty
    }

    /// True iff the cursor's block waits to be looked up.
    pub fn is_track_due(&self) -> (r: bool)
        ensures
            r == self@.track_due,
    {
        self.track_due
    }

    /// Undoes the last edit; true iff there was one.
    pub fn undo(&mut self) -> (r: bool)
        requires
            old(self).wf(),
        ensures
            r == (old(self)@.undo.len() > 0),
            r ==> final(self)@ == old(self)@.undo_made(),
            !r ==> final(self)@ == old(self)@,
            final(self).wf(),
    {
        reveal(EditorView::undo_made);
        reveal(EditorView::refreshed);
        proof {
            lemma_sound_undo(self@.parsed, self@.text, self@.undo, self@.redo);
        }
        if !self.history.can_undo() {
            return false;
        }
        let ghost v = self@;
        let ghost w = v.undo_made();
        let offset: usize = match self.history.undo(&mut self.buffer) {
            Some(offset) => offset,
            None => 0,
        };
        assert(self.buffer@ == w.text);
        assert(self.history.undo_view() == w.undo);
        assert(self.history.redo_view() == w.redo);
        assert(self.buffer.version_view() == w.version);
        assert(offset <= w.text.len());
        assert(sound(v.parsed, w.text, w.undo, w.redo));
        self.cursor = Cursor { offset, preferred_col: self.cursor.preferred_col };
        assert(self.cursor == w.cursor);
        self.reparse_due = true;
        true
    }

    /// Makes the last undone edit again; true iff there was one.
    pub fn redo(&mut self) -> (r: bool)
        requires
            old(self).wf(),
        ensures
            r == (old(self)@.redo.len() > 0),
            r ==> final(self)@ == old(self)@.redo_made(),
            !r ==> final(self)@ == old(self)@,
            final(self).wf(),
    {
        reveal(EditorView::redo_made);
        reveal(EditorView::refreshed);
        proof {
            lemma_sound_redo(self@.parsed, self@.text, self@.undo, self@.redo);
        }
        if !self.history.can_redo() {
            return false;
        }
        let ghost v = self@;
        let ghost w = v.redo_made();
        let offset: usize = match self.history.redo(&mut self.buffer) {
            Some(offset) => offset,
            None => 0,
        };
        assert(self.buffer@ == w.text);
        assert(self.history.undo_view() == w.undo);
        assert(self.history.redo_view() == w.redo);
        assert(self.buffer.version_view() == w.version);
        assert(offset <= w.text.len());
        assert(sound(v.parsed, w.text, w.undo, w.redo));
        self.cursor = Cursor { offset, preferred_col: self.cursor.preferred_col };
        assert(self.cursor == w.cursor);
        self.reparse_due = true;
        true
    }
}

} // verus!
