//! Making the state, taking a rendered document in, and settings.

use crate::cells;
use crate::document::buffer::Buffer;
use crate::document::history::EditDelta;
use crate::document::parsed_doc;
use crate::document::parsed_doc::{Block, ParsedDoc};
use crate::document::rope;
use crate::document::selection::{CellBand, VisualSelection};
use crate::editor::blink;
use crate::editor::blink::CursorBlink;
use crate::editor::mode::Mode;
use crate::editor::state;
use crate::editor::state::{CursorTrack, EditorState, EditorView, Settings};
use crate::editor::table_edit::TableInfo;
use crate::text;
use std::ops::Range;
use vstd::prelude::*;
use vstd::string::*;

verus! {

impl EditorView {
    /// Paragraphs are to be shown as one flow: in the preview and the rendered
    /// view, where the setting is on. The source, and a review, never are.
    pub open spec fn want_reflow(self) -> bool {
        self.settings.reflow && (self.mode == Mode::Preview || self.mode == Mode::Rendered)
    }

    /// The state with the view brought back into `total` rows.
    pub open spec fn scrolled_into(self, total: int) -> EditorView {
        self.scrolled(
            state::least(
                self.scroll as int,
                if total > 0 {
                    total - 1
                } else {
                    0
                },
            ) as usize,
        )
    }

    /// The state with a newly rendered document of `total` rows, the view brought back
    /// into them, and the cursor's block looked up if that was due.
    pub open spec fn installed(self, parsed: ParsedDoc, total: int) -> EditorView {
        let v = self.rendered_as(parsed, self.want_reflow()).scrolled_into(total);
        if self.track_due {
            v.followed()
        } else {
            v
        }
    }

    /// The state that asks for the document where it was made with another flow of
    /// paragraphs.
    pub open spec fn reflow_synced(self) -> EditorView {
        if self.parsed_reflow != self.want_reflow() {
            self.refreshed()
        } else {
            self
        }
    }
}

/// The settings that a new state has, but for the ones that its maker chooses.
pub open spec fn default_settings(
    theme: usize,
    preserve_blank_lines: bool,
    visual_line_nav: bool,
    image_max_height: usize,
    image_max_width: usize,
    image_font_size: (u16, u16),
    indent_width: usize,
) -> Settings {
    Settings {
        theme,
        preserve_blank_lines,
        visual_line_nav,
        image_max_height,
        image_max_width,
        image_font_size,
        images_enabled: true,
        diagrams_enabled: true,
        row_striping: false,
        big_h1: false,
        syntax_highlighting: false,
        math_preview: false,
        reflow: true,
        viewport_width: 80,
        indent_width,
        modal_open: false,
        terminal_focused: true,
    }
}

/// The settings that a new state has, but for the ones that its maker chooses.
pub fn new_settings(
    theme: usize,
    preserve_blank_lines: bool,
    visual_line_nav: bool,
    image_max_height: usize,
    image_max_width: usize,
    image_font_size: (u16, u16),
    indent_width: usize,
) -> (r: Settings)
    ensures
        r == default_settings(
            theme,
            preserve_blank_lines,
            visual_line_nav,
            image_max_height,
            image_max_width,
            image_font_size,
            indent_width,
        ),
{
    Settings {
        theme,
        preserve_blank_lines,
        visual_line_nav,
        image_max_height,
        image_max_width,
        image_font_size,
        images_enabled: true,
        diagrams_enabled: true,
        row_striping: false,
        big_h1: false,
        syntax_highlighting: false,
        math_preview: false,
        reflow: true,
        viewport_width: 80,
        indent_width,
        modal_open: false,
        terminal_focused: true,
    }
}

impl EditorView {
    /// The state with another buffer in the place of the old one, and all that was
    /// of the old one gone.
    pub open spec fn replaced(self, new: Buffer) -> EditorView {
        let v = EditorView {
            text: new@,
            path: new.path_view(),
            ending: new.ending(),
            version: new.version_view(),
            undo: Seq::empty(),
            redo: Seq::empty(),
            dirty: false,
            substitute_preview: false,
            ..self.at(state::least(self.cursor.offset as int, new@.len() as int))
        };
        EditorView { search: None, image_reveal: None, ..v }.selecting(None).showing(
            None,
            None,
        ).refreshed().followed()
    }

    /// The state with no delay begun.
    pub open spec fn unhurried(self) -> EditorView {
        self.resting(CursorTrack { entered_at: None, line_idx: None, ..self.track })
    }
}

impl EditorState {
    /// A new state of a buffer, with `parsed` as its rendered document. The
    /// cursor's block is looked up, but no delay begins: a new document shows the
    /// source of the cursor's block at once.
    pub fn new_with_image_config(
        buffer: Buffer,
        parsed: ParsedDoc,
        settings: Settings,
        blink: CursorBlink,
        now: u64,
    ) -> (r: Self)
        requires
            parsed.wf(),
        ensures
            r.wf(),
            exists|v: EditorView| #[trigger]
                state::is_untouched(v, buffer, parsed, settings, blink, now) && r@
                    == v.followed().unhurried(),
    {
        let mut r = EditorState::untouched(buffer, parsed, settings, blink, now);
        r.update_cursor_block();
        let track = r.facts().track;
        r.rest(CursorTrack { entered_at: None, line_idx: None, ..track });
        r
    }

    /// A new state with the given settings for blank lines, movement and images.
    pub fn new_with_config(
        buffer: Buffer,
        parsed: ParsedDoc,
        theme: usize,
        preserve_blank_lines: bool,
        visual_line_nav: bool,
        image_max_height: usize,
        indent_width: usize,
    ) -> (r: Self)
        requires
            parsed.wf(),
        ensures
            r.wf(),
            exists|v: EditorView| #[trigger]
                state::is_untouched(
                    v,
                    buffer,
                    parsed,
                    default_settings(
                        theme,
                        preserve_blank_lines,
                        visual_line_nav,
                        image_max_height,
                        80,
                        (10u16, 20u16),
                        indent_width,
                    ),
                    blink::first_blink(),
                    0,
                ) && r@ == v.followed().unhurried(),
    {
        let settings = new_settings(
            theme,
            preserve_blank_lines,
            visual_line_nav,
            image_max_height,
            80,
            (10, 20),
            indent_width,
        );
        EditorState::new_with_image_config(buffer, parsed, settings, CursorBlink::default(), 0)
    }

    /// A new state with default settings.
    pub fn new(buffer: Buffer, parsed: ParsedDoc, theme: usize, indent_width: usize) -> (r: Self)
        requires
            parsed.wf(),
        ensures
            r.wf(),
            exists|v: EditorView| #[trigger]
                state::is_untouched(
                    v,
                    buffer,
                    parsed,
                    default_settings(theme, true, true, 24, 80, (10u16, 20u16), indent_width),
                    blink::first_blink(),
                    0,
                ) && r@ == v.followed().unhurried(),
    {
        EditorState::new_with_config(buffer, parsed, theme, true, true, 24, indent_width)
    }

    /// The document's text.
    pub fn contents(&self) -> (r: String)
        ensures
            r@ == self@.text,
    {
        self.buffer().contents()
    }

    /// The number of the theme that the document was rendered with.
    pub fn theme(&self) -> (r: usize)
        ensures
            r == self@.settings.theme,
    {
        self.facts().settings.theme
    }

    /// True iff paragraphs are to be shown as one flow.
    pub fn want_reflow(&self) -> (r: bool)
        ensures
            r == self@.want_reflow(),
    {
        let f = self.facts();
        let view: bool = match f.mode {
            Mode::Preview => true,
            Mode::Rendered => true,
            Mode::Raw => false,
            Mode::Diff => false,
        };
        f.settings.reflow && view
    }

    /// The parsed blocks of the document in the form in which they are to be rendered,
    /// with the column widths under a drag on the table that they are of; see
    /// [`parsed_doc::settle_blocks`].
    pub fn blocks_to_render(&self, blocks: Vec<Block>, real_ranges: Vec<Range<usize>>) -> (r: (
        Vec<Block>,
        Vec<Range<usize>>,
    ))
        requires
            blocks@.len() == real_ranges@.len(),
        ensures
            r.0@.len() == r.1@.len(),
            parsed_doc::settled(
                parsed_doc::placed(blocks@, real_ranges@),
                0,
                match self@.live_widths {
                    Some((start, widths)) => Some(
                        parsed_doc::LiveWidths { start: start as int, widths },
                    ),
                    None => None,
                },
                parsed_doc::placed(r.0@, r.1@),
                0,
            ),
    {
        parsed_doc::settle_blocks(blocks, real_ranges, self.live_table_widths().as_ref())
    }

    /// True iff a comment with column widths stands behind a table: a line follows it, and
    /// `widths`, what that line names, is not none. No `table` is the answer for a place
    /// without one.
    pub fn table_has_tui_columns_comment(
        &self,
        table: Option<&TableInfo>,
        widths: &Option<Vec<Option<usize>>>,
    ) -> (r: bool)
        ensures
            r == (table matches Some(t) && t.end < state::bytes_of(self@.text).len()
                && *widths is Some),
    {
        match table {
            Some(t) => t.end < self.buffer().len_bytes() && widths.is_some(),
            None => false,
        }
    }

    /// Takes a newly rendered document, with which the view has `total` rows. A document
    /// that has become shorter than what was scrolled past brings the view back to its
    /// last row.
    pub fn install_parsed(&mut self, parsed: ParsedDoc, total: usize)
        requires
            old(self).wf(),
            parsed.wf(),
        ensures
            final(self)@ == old(self)@.installed(parsed, total as int),
            final(self).wf(),
    {
        let due: bool = self.is_track_due();
        let reflow: bool = self.want_reflow();
        self.set_parsed(parsed, reflow);
        self.clamp_scroll_to_document(total);
        if due {
            self.update_cursor_block();
        }
    }

    /// Asks for the document to be rendered again if an edit within a line left it
    /// behind; true iff that was so.
    pub fn flush_parsed_if_dirty(&mut self) -> (r: bool)
        ensures
            r == old(self)@.parsed_dirty,
            final(self)@ == if r {
                old(self)@.refreshed()
            } else {
                old(self)@
            },
            old(self).wf() ==> final(self).wf(),
    {
        if self.facts().parsed_dirty {
            self.refresh_parsed();
            true
        } else {
            false
        }
    }

    /// Changes the theme, and has the document rendered anew if it is another.
    pub fn set_theme(&mut self, theme: usize)
        ensures
            final(self)@ == if old(self)@.settings.theme == theme {
                old(self)@
            } else {
                old(self)@.configured(Settings { theme, ..old(self)@.settings }).refreshed()
            },
    {
        let settings = self.facts().settings;
        if settings.theme == theme {
            return ;
        }
        self.configure(Settings { theme, ..settings });
        self.refresh_parsed();
    }

    /// Turns the striping of table rows on or off.
    pub fn set_row_striping(&mut self, on: bool)
        ensures
            final(self)@ == if old(self)@.settings.row_striping == on {
                old(self)@
            } else {
                old(self)@.configured(Settings { row_striping: on, ..old(self)@.settings }).refreshed()
            },
    {
        let settings = self.facts().settings;
        if settings.row_striping == on {
            return ;
        }
        self.configure(Settings { row_striping: on, ..settings });
        self.refresh_parsed();
    }

    /// Turns large headings on or off.
    pub fn set_big_h1(&mut self, on: bool)
        ensures
            final(self)@ == if old(self)@.settings.big_h1 == on {
                old(self)@
            } else {
                old(self)@.configured(Settings { big_h1: on, ..old(self)@.settings }).refreshed()
            },
    {
        let settings = self.facts().settings;
        if settings.big_h1 == on {
            return ;
        }
        self.configure(Settings { big_h1: on, ..settings });
        self.refresh_parsed();
    }

    /// Turns syntax highlighting on or off.
    pub fn set_syntax_highlighting(&mut self, on: bool)
        ensures
            final(self)@ == if old(self)@.settings.syntax_highlighting == on {
                old(self)@
            } else {
                old(self)@.configured(Settings { syntax_highlighting: on, ..old(self)@.settings }).refreshed()
            },
    {
        let settings = self.facts().settings;
        if settings.syntax_highlighting == on {
            return ;
        }
        self.configure(Settings { syntax_highlighting: on, ..settings });
        self.refresh_parsed();
    }

    /// Takes the width of the document area, of one cell at least.
    pub fn set_viewport_width(&mut self, width: usize)
        ensures
            ({
                let w = if width >= 1 {
                    width
                } else {
                    1
                };
                final(self)@ == if old(self)@.settings.viewport_width == w {
                    old(self)@
                } else {
                    old(self)@.configured(
                        Settings { viewport_width: w, ..old(self)@.settings },
                    ).refreshed()
                }
            }),
    {
        let w: usize = if width >= 1 {
            width
        } else {
            1
        };
        let settings = self.facts().settings;
        if settings.viewport_width == w {
            return ;
        }
        self.configure(Settings { viewport_width: w, ..settings });
        self.refresh_parsed();
    }

    /// Asks for the document where it was made with another flow of paragraphs
    /// than the mode wants.
    pub fn sync_reflow_for_mode(&mut self)
        ensures
            final(self)@ == old(self)@.reflow_synced(),
    {
        if self.facts().parsed_reflow != self.want_reflow() {
            self.refresh_parsed();
        }
    }

    /// Turns the flow of paragraphs on or off.
    pub fn set_reflow(&mut self, on: bool)
        ensures
            final(self)@ == if old(self)@.settings.reflow == on {
                old(self)@
            } else {
                old(self)@.configured(Settings { reflow: on, ..old(self)@.settings }).reflow_synced()
            },
    {
        let settings = self.facts().settings;
        if settings.reflow == on {
            return ;
        }
        self.configure(Settings { reflow: on, ..settings });
        self.sync_reflow_for_mode();
    }

    /// How many rows an image block is to take, where the renderer is not to decide
    /// it: the rows of its source while that is shown, one row where images are
    /// off, and else what its decoded picture takes.
    ///
    /// `decoded` is the height of the picture, if it is known, and `diagram` says
    /// that the block is a diagram or a formula, which the setting for images does
    /// not touch.
    pub fn reserved_rows(
        &self,
        url: &str,
        ordinal: usize,
        diagram: bool,
        decoded: Option<usize>,
    ) -> (r: Option<usize>)
        requires
            self@.image_reveal matches Some(i) ==> i.rows + i.preview_rows <= usize::MAX,
        ensures
            r == (match self@.image_reveal {
                Some(i) => if i.ordinal == ordinal && i.url@ == url@ {
                    Some((i.rows + i.preview_rows) as usize)
                } else if !self@.settings.images_enabled && !diagram {
                    Some(1)
                } else {
                    decoded
                },
                None => if !self@.settings.images_enabled && !diagram {
                    Some(1)
                } else {
                    decoded
                },
            }),
    {
        match self.image_reveal() {
            Some(i) => {
                if i.ordinal == ordinal && text::text_eq(i.url.as_str(), url) {
                    return Some(i.rows + i.preview_rows);
                }
            },
            None => {},
        }
        if !self.facts().settings.images_enabled && !diagram {
            Some(1)
        } else {
            decoded
        }
    }

    /// How many rows an image block of the other text of a review is to take, where the
    /// renderer is not to decide it. A review has no cursor in its text, so that no
    /// source is shown.
    pub fn reserved_rows_in_review(&self, decoded: Option<usize>) -> (r: Option<usize>)
        ensures
            r == if self@.settings.images_enabled {
                decoded
            } else {
                Some(1)
            },
    {
        if self.facts().settings.images_enabled {
            decoded
        } else {
            Some(1)
        }
    }

    /// Brings the view back to the document's last row where a document of `total` rows
    /// has become shorter than what was scrolled past.
    pub fn clamp_scroll_to_document(&mut self, total: usize)
        requires
            old(self).wf(),
        ensures
            final(self)@ == old(self)@.scrolled_into(total as int),
            final(self).wf(),
    {
        let last: usize = if total > 0 {
            total - 1
        } else {
            0
        };
        let scroll: usize = self.facts().scroll;
        self.scroll_to(
            if scroll <= last {
                scroll
            } else {
                last
            },
        );
    }

    /// Puts another buffer in the place of the old one. The cursor stays where it
    /// is as far as the new text goes, and so does the view.
    pub fn replace_buffer(&mut self, new_buffer: Buffer)
        requires
            old(self).wf(),
        ensures
            final(self).wf(),
            final(self)@ == old(self)@.replaced(new_buffer),
    {
        let len: usize = new_buffer.len_chars();
        let offset: usize = self.cursor().offset;
        self.set_buffer(
            new_buffer,
            if offset <= len {
                offset
            } else {
                len
            },
        );
        self.set_search(None);
        self.set_image_reveal(None);
        self.select(None);
        self.show(None, None);
        self.refresh_parsed();
        self.update_cursor_block();
    }
}

/// The columns of rendered line `row` that count as selected.
pub open spec fn selected_cols(
    line: Seq<char>,
    row: int,
    from: (usize, usize),
    to: (usize, usize),
    band: Option<CellBand>,
) -> int {
    let len = line.len() as int;
    let start = if row == from.0 {
        from.1 as int
    } else {
        0
    };
    let end = if row == to.0 {
        state::least(to.1 as int, len)
    } else {
        len
    };
    let (start, end) = match band {
        Some(b) => {
            let (lo, hi) = b.columns(line);
            (
                if start >= lo {
                    start
                } else {
                    lo
                },
                state::least(end, hi),
            )
        },
        None => (start, end),
    };
    if end >= start {
        end - start
    } else {
        0
    }
}

/// How many characters the rendered lines from the first selected one up to, and
/// without, `upto` hold of the selection.
pub open spec fn selected_chars(
    lines: Seq<parsed_doc::RenderedLine>,
    from: (usize, usize),
    to: (usize, usize),
    band: Option<CellBand>,
    upto: int,
) -> nat
    decreases upto - from.0,
{
    if upto <= from.0 {
        0
    } else {
        selected_chars(lines, from, to, band, upto - 1) + selected_cols(
            lines[upto - 1]@,
            upto - 1,
            from,
            to,
            band,
        ) as nat
    }
}

impl EditorView {
    /// How many characters and lines are selected.
    pub open spec fn size_of_selection(self) -> Option<(usize, usize)> {
        if self.mode == Mode::Preview {
            match self.visual {
                None => None,
                Some(vs) => if vs.anchor == vs.active {
                    None
                } else {
                    let (from, to) = vs.span();
                    let n = self.parsed.lines@.len() as int;
                    let upto = state::least(to.0 + 1, n);
                    let rows = if upto > from.0 {
                        upto - from.0
                    } else {
                        1
                    };
                    Some(
                        (
                            cells::capped(
                                selected_chars(self.parsed.lines@, from, to, self.band, upto),
                            ),
                            rows as usize,
                        ),
                    )
                },
            }
        } else {
            match self.selection {
                None => None,
                Some(sel) => {
                    let start = sel.low() as int;
                    let end = state::least(sel.high() as int, self.text.len() as int);
                    if start >= end {
                        None
                    } else {
                        let lines = rope::lines_before(self.text, end - 1) - rope::lines_before(
                            self.text,
                            start,
                        ) + 1;
                        Some(((end - start) as usize, lines as usize))
                    }
                },
            }
        }
    }
}

impl EditorState {
    /// How many characters and lines are selected: of the rendered text in the
    /// preview, of the source otherwise. A selection that ends just behind a line
    /// feed does not count the next line.
    pub fn selection_size(&self) -> (r: Option<(usize, usize)>)
        ensures
            r == self@.size_of_selection(),
    {
        let f = self.facts();
        match f.mode {
            Mode::Preview => match f.visual {
                None => None,
                Some(vs) => {
                    if vs.is_empty() {
                        None
                    } else {
                        Some(rendered_selection_size(self.parsed().lines.as_slice(), &vs, f.band))
                    }
                },
            },
            _ => match f.selection {
                None => None,
                Some(sel) => {
                    let (start, high) = sel.range();
                    let len: usize = self.buffer().len_chars();
                    let end: usize = if high <= len {
                        high
                    } else {
                        len
                    };
                    if start >= end {
                        return None;
                    }
                    let first: usize = self.buffer().char_to_line(start);
                    let last: usize = self.buffer().char_to_line(end - 1);
                    let lines: usize = self.buffer().line_count();
                    proof {
                        rope::lemma_lines_before_monotone(self@.text, start as int, end - 1);
                    }
                    Some((end - start, last - first + 1))
                },
            },
        }
    }
}

/// How many characters and lines of the rendered text are selected.
fn rendered_selection_size(
    lines: &[parsed_doc::RenderedLine],
    vs: &VisualSelection,
    band: Option<CellBand>,
) -> (r: (usize, usize))
    ensures
        ({
            let (from, to) = vs.span();
            let upto = state::least(to.0 + 1, lines@.len() as int);
            &&& r.0 == cells::capped(selected_chars(lines@, from, to, band, upto))
            &&& r.1 == if upto > from.0 {
                upto - from.0
            } else {
                1
            }
        }),
{
    let (from, to) = vs.range();
    let n: usize = lines.len();
    let mut row: usize = from.0;
    let mut chars: usize = 0;
    while row < n && row <= to.0
        invariant
            n == lines@.len(),
            from.0 <= row,
            row <= to.0 + 1,
            from.0 < n ==> row <= n,
            from.0 >= n ==> row == from.0,
            chars == cells::capped(selected_chars(lines@, from, to, band, row as int)),
        decreases n - row,
    {
        let line: Vec<char> = text::chars_of(lines[row].text().as_str());
        let len: usize = line.len();
        let mut start: usize = if row == from.0 {
            from.1
        } else {
            0
        };
        let mut end: usize = if row == to.0 && to.1 <= len {
            to.1
        } else {
            len
        };
        match band {
            Some(b) => {
                let (lo, hi) = b.char_cols(line.as_slice());
                if start < lo {
                    start = lo;
                }
                if end > hi {
                    end = hi;
                }
            },
            None => {},
        }
        let part: usize = if end >= start {
            end - start
        } else {
            0
        };
        assert(part == selected_cols(lines@[row as int]@, row as int, from, to, band));
        chars = if part <= usize::MAX - chars {
            chars + part
        } else {
            usize::MAX
        };
        row += 1;
    }
    if row > from.0 {
        (chars, row - from.0)
    } else {
        (chars, 1)
    }
}

impl EditorView {
    /// The widths of the drag that waits to be written, if they are those of the
    /// table that it is of.
    pub open spec fn widths_to_write(self) -> Option<Seq<Option<usize>>> {
        match (self.pending_widths, self.live_widths) {
            (Some(table), Some(l)) => if l.0 == table {
                Some(l.1)
            } else {
                None
            },
            _ => None,
        }
    }
}

impl EditorState {
    /// The table whose column widths are to be written, and the widths, if a drag
    /// waits for that.
    pub fn pending_column_widths(&self) -> (r: Option<(usize, &Vec<Option<usize>>)>)
        ensures
            match r {
                Some(w) => self@.pending_widths == Some(w.0) && self@.widths_to_write() == Some(
                    w.1@,
                ),
                None => self@.widths_to_write() is None,
            },
    {
        match (self.facts().pending_widths, self.live_table_widths()) {
            (Some(table), Some(l)) => if l.0 == table {
                Some((table, &l.1))
            } else {
                None
            },
            _ => None,
        }
    }

    /// Ends a column drag that waits for its widths to be written: `write` is the
    /// edit, in bytes, that writes [`EditorState::pending_column_widths`] into the
    /// text. Without widths or without an edit the table is rendered as it was.
    pub fn commit_pending_column_widths(&mut self, write: Option<EditDelta>)
        requires
            old(self).wf(),
            write matches Some(d) ==> state::stands_at_byte(old(self)@.text, d@),
        ensures
            final(self).wf(),
            final(self)@ == ({
                let v = old(self)@.with_pending_widths(None).with_live_widths(None);
                if old(self)@.pending_widths is None {
                    old(self)@
                } else if old(self)@.widths_to_write() is None {
                    v.refreshed()
                } else {
                    match write {
                        Some(d) => v.edited(state::in_chars(v.text, d@)),
                        None => v.refreshed(),
                    }
                }
            }),
    {
        reveal(EditorView::with_pending_widths);
        reveal(EditorView::with_live_widths);
        if self.facts().pending_widths.is_none() {
            return ;
        }
        let due: bool = self.pending_column_widths().is_some();
        self.set_pending_widths(None);
        self.set_live_widths(None);
        if !due {
            self.refresh_parsed();
            return ;
        }
        match write {
            Some(d) => self.apply_byte_edit(d),
            None => self.refresh_parsed(),
        }
    }

    /// Gives a column drag up: the table goes back to its widths.
    pub fn cancel_pending_column_widths(&mut self)
        ensures
            final(self)@ == old(self)@.with_pending_widths(None).with_live_widths(None).refreshed(),
    {
        self.set_pending_widths(None);
        self.set_live_widths(None);
        self.refresh_parsed();
    }

    /// True iff a column drag waits for its widths to be written.
    pub fn has_pending_column_widths(&self) -> (r: bool)
        ensures
            r == (self@.pending_widths is Some),
    {
        self.facts().pending_widths.is_some()
    }
}

} // verus!
