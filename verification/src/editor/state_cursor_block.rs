//! When the cursor's block is shown by its source.

use crate::document::cursor;
use crate::document::parsed_doc;
use crate::document::parsed_doc::{DiagramSource, ImageBlockInfo};
use crate::document::source_map;
use crate::editor::blink;
use crate::editor::mode::Mode;
use crate::editor::state::{CursorTrack, EditorState, EditorView, ImageReveal, Settings};
use crate::text;
use vstd::prelude::*;
use vstd::string::*;

verus! {

/// How long the cursor rests on a line before its block is shown by its source, in
/// milliseconds.
pub const RAW_REVEAL_DELAY: u64 = 120;

impl EditorView {
    /// The cursor is painted.
    pub open spec fn cursor_shown(self) -> bool {
        &&& self.settings.terminal_focused
        &&& self.mode != Mode::Preview
        &&& self.settings.modal_open || !self.blink.blinking || self.blink.visible
    }

    /// Something keeps the cursor's block from being shown by its source.
    pub open spec fn reveal_held(self) -> bool {
        self.drag || self.search is Some || self.substitute_preview
    }

    /// The cursor's block is shown by its source: nothing holds it back, and the
    /// cursor rested long enough on its line, or did so before in a block that is shown
    /// as a whole.
    pub open spec fn revealed(self) -> bool {
        &&& !self.reveal_held()
        &&& self.track.reveal_latched || match self.track.entered_at {
            None => true,
            Some(t) => blink::elapsed(t, self.now) >= RAW_REVEAL_DELAY,
        }
    }

    /// The cursor's block is shown by its source as a whole: a diagram, or a paragraph
    /// that is one flow else, as `reflowed` says.
    pub open spec fn reveals_whole(self, reflowed: bool) -> bool {
        reflowed || (self.track.block_idx matches Some(b) && self.parsed.mermaid_at(b))
    }

    /// The state with it noted that the cursor's block is shown by its source as a
    /// whole, where it is.
    pub open spec fn reveal_kept(self, reflowed: bool) -> EditorView {
        if self.mode == Mode::Rendered && self.revealed() && self.reveals_whole(reflowed) {
            self.resting(CursorTrack { reveal_latched: true, ..self.track })
        } else {
            self
        }
    }
}

/// A cursor that passes through a block reveals nothing: with each line that it comes
/// to the delay begins anew, unless the block is shown by its source already.
pub proof fn law_passing_reveals_nothing(v: EditorView)
    requires
        !v.reparse_due,
        v.track.line_idx != Some(cursor::line_of(v.text, v.cursor.offset as int) as usize),
        !v.track.reveal_latched || v.track_now().block_idx != v.track.block_idx,
    ensures
        !v.followed().revealed(),
{
    reveal(EditorView::followed);
}

/// A block that is shown by its source as a whole stays so wherever the cursor goes in
/// it, as long as nothing holds it back.
pub proof fn law_whole_reveal_stays(v: EditorView, to: int, reflowed: bool)
    requires
        v.mode == Mode::Rendered,
        v.revealed(),
        v.reveals_whole(reflowed),
        !v.reparse_due,
        v.reveal_kept(reflowed).at(to).track_now().block_idx == v.track.block_idx,
    ensures
        v.reveal_kept(reflowed).at(to).followed().revealed(),
{
    reveal(EditorView::followed);
    reveal(EditorView::resting);
    reveal(EditorView::at);
}

/// A reservation as values.
pub struct RevealView {
    pub ordinal: int,
    pub url: Seq<char>,
    pub rows: int,
    pub preview_rows: int,
}

impl View for ImageReveal {
    type V = RevealView;

    open spec fn view(&self) -> RevealView {
        RevealView {
            ordinal: self.ordinal as int,
            url: self.url@,
            rows: self.rows as int,
            preview_rows: self.preview_rows as int,
        }
    }
}

/// A reservation as values, or none.
pub open spec fn reveal_view(r: Option<ImageReveal>) -> Option<RevealView> {
    match r {
        Some(i) => Some(i@),
        None => None,
    }
}

/// The first image block at or after index `k` that is map block `block`.
pub open spec fn image_of_block(images: Seq<ImageBlockInfo>, block: int, k: int) -> Option<int>
    decreases images.len() - k,
{
    if k < 0 || k >= images.len() {
        None
    } else if images[k].block_idx == block {
        Some(k)
    } else {
        image_of_block(images, block, k + 1)
    }
}

impl EditorView {
    /// The rows that the diagram at the cursor is to have, one for each of the
    /// `rows` lines of its source, or none. The source is shown in the rendered
    /// view alone, and while an edit waits to be rendered nothing changes.
    pub open spec fn reveal_target(self, rows: int) -> Option<RevealView> {
        if self.mode != Mode::Rendered {
            None
        } else if self.parsed_dirty {
            reveal_view(self.image_reveal)
        } else if !self.revealed() {
            None
        } else {
            match source_map::owner(self.parsed.source_map.extended(), self.cursor_byte()) {
                Some(b) => if self.parsed.mermaid_at(b as usize) && b
                    < self.parsed.source_map.original().len() {
                    match image_of_block(self.parsed.image_blocks@, b, 0) {
                        Some(k) => Some(
                            RevealView {
                                ordinal: k,
                                url: self.parsed.image_blocks@[k].url@,
                                rows,
                                preview_rows: 0,
                            },
                        ),
                        None => None,
                    }
                } else {
                    None
                },
                None => None,
            }
        }
    }
}

impl EditorView {
    /// The rows above its source in which the formula of image block `k` is kept in
    /// sight while it is edited: those that it takes, `fitted`, and where that is not
    /// known, as in the midst of typing, those that it had last, or else the most that
    /// an image gets.
    pub open spec fn formula_band(self, k: int, fitted: Option<usize>) -> int {
        if !parsed_doc::is_latex(self.parsed.image_blocks@[k]) || !self.settings.math_preview {
            0
        } else {
            match (fitted, self.image_reveal) {
                (Some(n), _) => n as int,
                (None, Some(r)) => if r.ordinal == k && r.preview_rows > 0 {
                    r.preview_rows as int
                } else {
                    self.settings.image_max_height as int
                },
                (None, None) => self.settings.image_max_height as int,
            }
        }
    }

    /// The rows that the image at the cursor is to have, a plain image, a diagram or a
    /// formula: one for each of the `rows` lines of its source, and those in which a
    /// formula is kept in sight.
    pub open spec fn image_rows_target(
        self,
        rows: int,
        fitted: Option<usize>,
    ) -> Option<RevealView> {
        if self.mode != Mode::Rendered {
            None
        } else if self.parsed_dirty {
            reveal_view(self.image_reveal)
        } else if !self.revealed() {
            None
        } else {
            match source_map::owner(self.parsed.source_map.extended(), self.cursor_byte()) {
                Some(b) => match image_of_block(self.parsed.image_blocks@, b, 0) {
                    Some(k) => Some(
                        RevealView {
                            ordinal: k,
                            url: self.parsed.image_blocks@[k].url@,
                            rows,
                            preview_rows: self.formula_band(k, fitted),
                        },
                    ),
                    None => None,
                },
                None => None,
            }
        }
    }
}

/// The first image block that is map block `block`.
fn find_image(images: &[ImageBlockInfo], block: usize) -> (r: Option<usize>)
    ensures
        match r {
            Some(k) => image_of_block(images@, block as int, 0) == Some(k as int) && k
                < images@.len(),
            None => image_of_block(images@, block as int, 0) is None,
        },
{
    let mut k: usize = 0;
    while k < images.len()
        invariant
            k <= images@.len(),
            image_of_block(images@, block as int, k as int) == image_of_block(
                images@,
                block as int,
                0,
            ),
        decreases images@.len() - k,
    {
        if images[k].block_idx == block {
            return Some(k);
        }
        k += 1;
    }
    None
}

fn same_reveal(a: &Option<ImageReveal>, b: &Option<ImageReveal>) -> (r: bool)
    ensures
        r == (reveal_view(*a) == reveal_view(*b)),
{
    match (a, b) {
        (Some(x), Some(y)) => x.ordinal == y.ordinal && x.rows == y.rows && x.preview_rows
            == y.preview_rows && text::text_eq(x.url.as_str(), y.url.as_str()),
        (None, None) => true,
        _ => false,
    }
}

impl EditorState {
    /// True iff the cursor is to be painted. The preview shows none, and an open
    /// dialog keeps it from blinking.
    pub fn cursor_visible(&self) -> (r: bool)
        ensures
            r == self@.cursor_shown(),
    {
        let f = self.facts();
        f.settings.terminal_focused && f.mode != Mode::Preview && (f.settings.modal_open
            || f.blink.is_visible())
    }

    /// True iff the cursor's block is to be shown by its source: not during a
    /// drag, a search or the preview of a substitution, and not before the cursor
    /// rested on its line for [`RAW_REVEAL_DELAY`], unless it did so before in a block
    /// that is shown as a whole.
    pub fn cursor_block_revealed(&self) -> (r: bool)
        ensures
            r == self@.revealed(),
    {
        let f = self.facts();
        if f.drag || f.search.is_some() || f.substitute_preview {
            return false;
        }
        f.track.reveal_latched || match f.track.entered_at {
            None => true,
            Some(t) => blink::has_elapsed(t, f.now, RAW_REVEAL_DELAY),
        }
    }

    /// Notes that the cursor's block is shown by its source as a whole, where it is a
    /// diagram, or a paragraph that is one flow else, as `reflowed` says. From then on
    /// it stays so until the cursor leaves it.
    pub fn latch_cursor_reveal(&mut self, reflowed: bool)
        requires
            old(self).wf(),
        ensures
            final(self)@ == old(self)@.reveal_kept(reflowed),
            final(self).wf(),
    {
        let f = self.facts();
        if f.mode != Mode::Rendered || !self.cursor_block_revealed() {
            return ;
        }
        let whole: bool = reflowed || match f.track.block_idx {
            Some(b) => self.parsed().is_mermaid_block(b),
            None => false,
        };
        if whole {
            self.rest(CursorTrack { reveal_latched: true, ..f.track });
        }
    }

    /// The rows that the diagram at the cursor is to have, if the source of its
    /// block has `rows` lines.
    fn diagram_reveal_target(&self, rows: usize) -> (r: Option<ImageReveal>)
        requires
            self.wf(),
            self@.mode == Mode::Rendered,
            !self@.parsed_dirty,
        ensures
            reveal_view(r) == self@.reveal_target(rows as int),
    {
        if !self.cursor_block_revealed() {
            return None;
        }
        let byte: usize = self.cursor_byte();
        let parsed = self.parsed();
        match parsed.source_map.block_for_byte(byte) {
            None => None,
            Some(block) => {
                if !parsed.is_mermaid_block(block)
                    || parsed.source_map.original_range_for_block(block).is_none() {
                    return None;
                }
                match find_image(parsed.image_blocks.as_slice(), block) {
                    None => None,
                    Some(k) => Some(
                        ImageReveal {
                            ordinal: k,
                            url: parsed.image_blocks[k].url.clone(),
                            rows,
                            preview_rows: 0,
                        },
                    ),
                }
            },
        }
    }

    /// Keeps rows for the source of the diagram that the cursor rests in, one for
    /// each of the `rows` lines of its block; true iff that changed, so that the
    /// document is to be rendered again.
    pub fn sync_diagram_reveal(&mut self, rows: usize) -> (r: bool)
        requires
            old(self).wf(),
        ensures
            r == (reveal_view(old(self)@.image_reveal) != old(self)@.reveal_target(rows as int)),
            reveal_view(final(self)@.image_reveal) == old(self)@.reveal_target(rows as int),
            final(self)@ == if r {
                EditorView {
                    image_reveal: final(self)@.image_reveal,
                    ..old(self)@
                }.refreshed()
            } else {
                old(self)@
            },
            final(self).wf(),
    {
        reveal(EditorView::refreshed);
        let f = self.facts();
        let target: Option<ImageReveal> = if f.mode != Mode::Rendered {
            None
        } else if f.parsed_dirty {
            return false;
        } else {
            self.diagram_reveal_target(rows)
        };
        if same_reveal(&target, self.image_reveal()) {
            return false;
        }
        self.set_image_reveal(target);
        self.refresh_parsed();
        true
    }

    /// The rows that the image at the cursor is to have.
    fn image_reveal_target(&self, rows: usize, fitted: Option<usize>) -> (r: Option<ImageReveal>)
        requires
            self.wf(),
            self@.mode == Mode::Rendered,
            !self@.parsed_dirty,
        ensures
            reveal_view(r) == self@.image_rows_target(rows as int, fitted),
    {
        if !self.cursor_block_revealed() {
            return None;
        }
        let settings = self.facts().settings;
        let byte: usize = self.cursor_byte();
        let parsed = self.parsed();
        match parsed.source_map.block_for_byte(byte) {
            None => None,
            Some(block) => match find_image(parsed.image_blocks.as_slice(), block) {
                None => None,
                Some(k) => {
                    let formula: bool = matches!(
                        parsed.image_blocks[k].source,
                        Some(DiagramSource::Latex(_))
                    );
                    let band: usize = if !formula || !settings.math_preview {
                        0
                    } else {
                        match (fitted, self.image_reveal()) {
                            (Some(n), _) => n,
                            (None, Some(r)) => if r.ordinal == k && r.preview_rows > 0 {
                                r.preview_rows
                            } else {
                                settings.image_max_height
                            },
                            (None, None) => settings.image_max_height,
                        }
                    };
                    Some(
                        ImageReveal {
                            ordinal: k,
                            url: parsed.image_blocks[k].url.clone(),
                            rows,
                            preview_rows: band,
                        },
                    )
                },
            },
        }
    }

    /// Keeps rows for the source of the image that the cursor rests in, one for each of
    /// the `rows` lines of its block, and, for a formula that is to stay in sight, the
    /// rows above it; `fitted` are the rows that the formula takes, where that is known.
    /// True iff that changed, so that the document is to be rendered again.
    pub fn sync_image_reveal(&mut self, rows: usize, fitted: Option<usize>) -> (r: bool)
        requires
            old(self).wf(),
        ensures
            r == (reveal_view(old(self)@.image_reveal) != old(self)@.image_rows_target(rows as int, fitted)),
            reveal_view(final(self)@.image_reveal) == old(self)@.image_rows_target(rows as int, fitted),
            final(self)@ == if r {
                EditorView {
                    image_reveal: final(self)@.image_reveal,
                    ..old(self)@
                }.refreshed()
            } else {
                old(self)@
            },
            final(self).wf(),
    {
        reveal(EditorView::refreshed);
        let f = self.facts();
        let target: Option<ImageReveal> = if f.mode != Mode::Rendered {
            None
        } else if f.parsed_dirty {
            return false;
        } else {
            self.image_reveal_target(rows, fitted)
        };
        if same_reveal(&target, self.image_reveal()) {
            return false;
        }
        self.set_image_reveal(target);
        self.refresh_parsed();
        true
    }

    /// Turns the preview of formulas that are being edited on or off. The rest is as
    /// for [`EditorState::sync_image_reveal`].
    pub fn set_math_preview(&mut self, on: bool, rows: usize, fitted: Option<usize>)
        requires
            old(self).wf(),
        ensures
            final(self).wf(),
            ({
                let v = old(self)@.configured(
                    Settings { math_preview: on, ..old(self)@.settings },
                );
                let target = v.image_rows_target(rows as int, fitted);
                if old(self)@.settings.math_preview == on {
                    final(self)@ == old(self)@
                } else if reveal_view(v.image_reveal) == target {
                    final(self)@ == v
                } else {
                    &&& reveal_view(final(self)@.image_reveal) == target
                    &&& final(self)@ == EditorView {
                        image_reveal: final(self)@.image_reveal,
                        ..v
                    }.refreshed()
                }
            }),
    {
        let settings = self.facts().settings;
        if settings.math_preview == on {
            return ;
        }
        self.configure(Settings { math_preview: on, ..settings });
        self.sync_image_reveal(rows, fitted);
    }
}

} // verus!
