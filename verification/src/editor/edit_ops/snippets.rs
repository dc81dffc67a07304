//! Snippets, and the edits that other layers make at the cursor.

use crate::document::history;
use crate::document::history::EditDelta;
use crate::document::parsed_doc;
use crate::document::parsed_doc::Block;
use crate::document::rope;
use crate::document::selection::Selection;
use crate::editor::edit_ops::basic;
use crate::editor::edit_ops::emphasis;
use crate::editor::edit_ops::moves;
use crate::editor::list_edit::edit;
use crate::editor::list_edit::parse;
use crate::editor::list_edit::parse::MarkerKind;
use crate::editor::mode::Mode;
use crate::editor::motion::Motion;
use crate::editor::state;
use crate::editor::state::{EditorState, EditorView};
use vstd::prelude::*;
use vstd::string::*;

verus! {

/// Stands for the destination in a snippet, and is selected so that the next keys
/// replace it.
pub const URL_PLACEHOLDER: &'static str = "file path or URL";

/// Stands for the text of an image in a snippet.
pub const ALT_PLACEHOLDER: &'static str = "alt text";

/// Stands for the text of a link in a snippet.
pub const LINK_PLACEHOLDER: &'static str = "link text";

/// A block in which inline markup is markup, not plain text.
pub open spec fn hosts_inline(b: Block) -> bool {
    !(b is CodeBlock || b is Html || b is HtmlComment || b is HorizontalRule || b is ImageBlock
        || b is MetadataBlock)
}

/// The reference `[text](url)`, with a `!` before it for an image.
pub open spec fn reference(image: bool, shown: Seq<char>, url: Seq<char>) -> Seq<char> {
    (if image {
        seq!['!', '[']
    } else {
        seq!['[']
    }) + shown + seq![']', '('] + url + seq![')']
}

/// What the command to put list numbers right did.
#[derive(Debug, Clone, Copy, PartialEq, Eq, Structural)]
pub enum FixListNumbering {
    /// The cursor is in no ordered list.
    NotOrdered,
    /// The numbers were right.
    AlreadyCorrect,
    /// The numbers were put right, as one edit.
    Fixed,
}

impl EditorView {
    /// Inline markup can stand at `offset`: in no block, or in one that hosts it.
    pub open spec fn hosts_inline_at(self, offset: int) -> bool {
        match parsed_doc::block_holding(
            self.parsed.real_ranges@,
            rope::byte_offset(self.text, offset),
            0,
        ) {
            Some(i) => hosts_inline(self.parsed.blocks@[i]),
            None => true,
        }
    }

    /// The selected text that a snippet takes as its text, and where it begins: a
    /// part of one line.
    pub open spec fn wrappable(self) -> Option<(int, Seq<char>)> {
        match self.selection {
            Some(sel) => {
                let start = sel.low() as int;
                let end = basic::bounded(self.text, sel.high() as int);
                if start >= end || self.text.subrange(start, end).contains('\n') {
                    None
                } else {
                    Some((start, self.text.subrange(start, end)))
                }
            },
            None => None,
        }
    }

    /// The cursor where a snippet is to go.
    pub open spec fn at_snippet(self, height: int) -> EditorView {
        if self.mode == Mode::Preview {
            self.synced_to_scroll(height)
        } else {
            self
        }
    }

    /// Where a snippet goes.
    pub open spec fn snippet_place(self) -> int {
        match self.wrappable() {
            Some(w) => w.0,
            None => self.cursor.offset as int,
        }
    }

    /// A snippet can go where the cursor or the selection is.
    pub open spec fn snippet_allowed(self, height: int) -> bool {
        let v = self.at_snippet(height);
        v.hosts_inline_at(v.snippet_place())
    }

    /// The edit of a snippet, and what is selected then: the part `from..to` of the
    /// inserted text.
    pub open spec fn snippet_edit(
        self,
        wrap: Option<(int, Seq<char>)>,
        image: bool,
        placeholder: Seq<char>,
        url: Option<Seq<char>>,
    ) -> (history::Delta, int, int) {
        let offset = match wrap {
            Some(w) => w.0,
            None => self.cursor.offset as int,
        };
        let removed: Seq<char> = match wrap {
            Some(w) => w.1,
            None => Seq::empty(),
        };
        let shown = match wrap {
            Some(w) => w.1,
            None => placeholder,
        };
        let n: int = if image {
            2
        } else {
            1
        };
        let end = offset + removed.len();
        match url {
            Some(u) => {
                let t = emphasis::own_paragraph(self.text, offset, reference(image, shown, u));
                (basic::splice(self.text, offset, end, t), t.len() as int, t.len() as int)
            },
            None => {
                let t = reference(image, shown, URL_PLACEHOLDER@);
                let d = basic::splice(self.text, offset, end, t);
                if wrap is Some {
                    (d, n + shown.len() + 2, n + shown.len() + 2 + URL_PLACEHOLDER@.len())
                } else {
                    (d, n, n + shown.len())
                }
            },
        }
    }

    /// The state with a snippet put in. A document that cannot be edited takes none.
    pub open spec fn snippet_made(
        self,
        image: bool,
        placeholder: Seq<char>,
        url: Option<Seq<char>>,
        height: int,
    ) -> EditorView {
        let v = self.at_snippet(height);
        let e = v.selecting(None).entered_edit(height);
        let (d, from, to) = e.snippet_edit(v.wrappable(), image, placeholder, url);
        if !self.snippet_allowed(height) {
            v
        } else if self.readonly {
            e
        } else {
            let w = e.at(d.offset).edited(d);
            (if url is None {
                w.selecting(
                    Some(
                        Selection {
                            anchor: (d.offset + from) as usize,
                            active: (d.offset + to) as usize,
                        },
                    ),
                )
            } else {
                w
            }).at(d.offset + to).aimed().followed()
        }
    }

    /// The cursor is in an ordered list.
    pub open spec fn in_ordered_list(self) -> bool {
        parse::list_at(self.bytes(), self.cursor_byte()) matches Some(l) && l.kind is Ordered
    }

    /// The numbers of the lists around the cursor are to be put right.
    pub open spec fn numbers_wrong(self) -> bool {
        edit::block_at(self.bytes(), self.cursor_byte()) matches Some((start, end))
            && edit::renumber_changes(self.bytes(), start, end, Seq::empty())
    }

    /// The state after an edit of another layer at the cursor, whose offset counts
    /// bytes.
    pub open spec fn edit_inserted(self, d: history::Delta, target: int, height: int) -> EditorView {
        self.entered_edit(height).byte_edited(d, target)
    }
}

/// The reference `[text](url)`, with a `!` before it for an image.
fn make_reference(image: bool, shown: &str, url: &str) -> (r: String)
    ensures
        r@ == reference(image, shown@, url@),
{
    let mut out: String = String::new();
    if image {
        out.push('!');
    }
    out.push('[');
    assert(out@ =~= if image {
        seq!['!', '[']
    } else {
        seq!['[']
    });
    out.append(shown);
    out.push(']');
    out.push('(');
    out.append(url);
    out.push(')');
    assert(out@ =~= reference(image, shown@, url@));
    out
}

impl EditorState {
    /// True iff inline markup can stand at a character offset: a snippet there is
    /// markup rather than plain text. Blocks are those of the top level, so that
    /// code within a list item is not seen.
    pub fn block_allows_inline_markdown_at(&self, char_offset: usize) -> (r: bool)
        requires
            self.wf(),
            char_offset <= self@.text.len(),
        ensures
            r == self@.hosts_inline_at(char_offset as int),
    {
        let byte: usize = self.buffer().char_to_byte(char_offset);
        let doc = self.parsed();
        match doc.real_block_for_byte(byte) {
            None => true,
            Some(i) => match &doc.blocks[i] {
                Block::CodeBlock { .. } => false,
                Block::Html => false,
                Block::HtmlComment { .. } => false,
                Block::HorizontalRule => false,
                Block::ImageBlock { .. } => false,
                Block::MetadataBlock => false,
                _ => true,
            },
        }
    }

    /// The selected part of a line, and where it begins.
    fn wrappable_text(&self) -> (r: Option<(usize, String)>)
        requires
            self.wf(),
        ensures
            self@.wrappable() == (match r {
                Some(w) => Some((w.0 as int, w.1@)),
                None => None,
            }),
            r matches Some(w) ==> w.0 + w.1@.len() <= self@.text.len() && self@.text.subrange(
                w.0 as int,
                w.0 + w.1@.len(),
            ) == w.1@,
    {
        let sel: Selection = match self.selection() {
            Some(sel) => sel,
            None => {
                return None;
            },
        };
        let (start, high) = sel.range();
        let len: usize = self.buffer().len_chars();
        let end: usize = if high <= len {
            high
        } else {
            len
        };
        if start >= end {
            return None;
        }
        let t: String = self.buffer().slice_to_string(start, end);
        if state::has_newline(t.as_str()) {
            return None;
        }
        Some((start, t))
    }

    /// Puts `t` in the place of the characters `start..end`, selects the part
    /// `from..to` of it if that is asked, and puts the cursor behind that part.
    fn place_snippet(
        &mut self,
        start: usize,
        end: usize,
        t: String,
        from: usize,
        to: usize,
        select: bool,
    )
        requires
            old(self).wf(),
            !old(self)@.readonly,
            start <= end <= old(self)@.text.len(),
            from <= to <= t@.len(),
        ensures
            final(self).wf(),
            final(self)@ == ({
                let w = old(self)@.at(start as int).edited(
                    basic::splice(old(self)@.text, start as int, end as int, t@),
                );
                (if select {
                    w.selecting(
                        Some(
                            Selection {
                                anchor: (start + from) as usize,
                                active: (start + to) as usize,
                            },
                        ),
                    )
                } else {
                    w
                }).at(start + to).aimed().followed()
            }),
    {
        let ghost v = self@;
        let ghost d = basic::splice(v.text, start as int, end as int, t@);
        self.put_cursor(start);
        assert(self@.text == v.text && self@.readonly == v.readonly) by {
            reveal(EditorView::at);
        }
        let ghost u = self@;
        self.splice(start, end, t);
        assert(start + to <= self@.text.len()) by {
            basic::lemma_edited_text(u, d);
            basic::lemma_splice_fits(v.text, start as int, end as int, d.inserted);
        }
        let len: usize = self.buffer().len_chars();
        let ghost w = self@;
        if select {
            self.select(Some(Selection { anchor: start + from, active: start + to }));
            assert(self@.text == w.text) by {
                reveal(EditorView::selecting);
            }
        }
        self.put_cursor(start + to);
        self.aim();
        self.update_cursor_block();
    }

    /// Puts an image or a link in. A selected part of a line becomes its text, and
    /// the destination is selected then; otherwise the text is. With `url` the
    /// destination is given: the reference gets a paragraph of its own, and the
    /// cursor goes behind it.
    ///
    /// False, with the text, the mode and the selection as they were, where inline
    /// markup cannot stand. The document must be rendered from the text at hand.
    pub fn insert_inline_snippet(
        &mut self,
        image: bool,
        text_placeholder: &str,
        url: Option<&str>,
        viewport_height: usize,
    ) -> (r: bool)
        requires
            old(self).wf(),
            !old(self)@.parsed_dirty,
            !old(self)@.reparse_due,
        ensures
            r == old(self)@.snippet_allowed(viewport_height as int),
            final(self)@ == old(self)@.snippet_made(
                image,
                text_placeholder@,
                match url {
                    Some(u) => Some(u@),
                    None => None,
                },
                viewport_height as int,
            ),
            final(self).wf(),
    {
        let ghost v0 = self@;
        if self.mode() == Mode::Preview {
            self.sync_cursor_to_scroll(viewport_height);
        }
        let ghost v = self@;
        let wrap: Option<(usize, String)> = self.wrappable_text();
        let insert_at: usize = match &wrap {
            Some(w) => w.0,
            None => self.cursor().offset,
        };
        if !self.block_allows_inline_markdown_at(insert_at) {
            return false;
        }
        self.select(None);
        let ghost u = self@;
        self.enter_edit_if_preview(viewport_height);
        let ghost e = self@;
        proof {
            moves::lemma_entered_text(u, viewport_height as int);
            moves::lemma_steps_keep_text(v, Motion::Left, None);
            lemma_synced(v0, viewport_height as int);
        }
        if self.facts().readonly {
            return true;
        }
        let (offset, end, shown, wrapped): (usize, usize, String, bool) = match wrap {
            Some(w) => {
                let end: usize = w.0 + w.1.as_str().unicode_len();
                (w.0, end, w.1, true)
            },
            None => {
                let c: usize = self.cursor().offset;
                (c, c, text_placeholder.to_string(), false)
            },
        };
        let n: usize = if image {
            2
        } else {
            1
        };
        let shown_len: usize = shown.as_str().unicode_len();
        match url {
            Some(dest) => {
                let reference: String = make_reference(image, shown.as_str(), dest);
                let t: String = emphasis::frame_own_paragraph(
                    self.buffer(),
                    offset,
                    reference.as_str(),
                );
                let to: usize = t.as_str().unicode_len();
                self.place_snippet(offset, end, t, to, to, false);
            },
            None => {
                let t: String = make_reference(image, shown.as_str(), URL_PLACEHOLDER);
                let total: usize = t.as_str().unicode_len();
                assert(total == n + shown@.len() + 2 + URL_PLACEHOLDER@.len() + 1);
                if wrapped {
                    let from: usize = n + shown_len + 2;
                    self.place_snippet(offset, end, t, from, total - 1, true);
                } else {
                    self.place_snippet(offset, end, t, n, n + shown_len, true);
                }
            },
        }
        true
    }
}

/// The cursor's way to the screen changes nothing else.
proof fn lemma_synced(v: EditorView, height: int)
    ensures
        v.at_snippet(height).readonly == v.readonly,
        v.at_snippet(height).text == v.text,
        v.at_snippet(height).selection == v.selection,
        v.at_snippet(height).mode == v.mode,
{
    reveal(EditorView::at);
}

/// Puts a new table in. The table layer gives the edit, with its offset in
/// bytes, and the byte of the first cell.
pub fn insert_table_at_cursor(
    state: &mut EditorState,
    delta: EditDelta,
    cursor_target: usize,
    viewport_height: usize,
)
    requires
        old(state).wf(),
        state::stands_at_byte(old(state)@.text, delta@),
    ensures
        final(state)@ == old(state)@.edit_inserted(
            delta@,
            cursor_target as int,
            viewport_height as int,
        ),
        final(state).wf(),
{
    proof {
        moves::lemma_entered_text(state@, viewport_height as int);
    }
    state.enter_edit_if_preview(viewport_height);
    state.apply_byte_delta(delta, cursor_target);
}

/// True iff inline markup can stand at the cursor. The document must be rendered
/// from the text at hand.
pub fn cursor_block_allows_inline_markdown(state: &EditorState) -> (r: bool)
    requires
        state.wf(),
        !state@.parsed_dirty,
        !state@.reparse_due,
    ensures
        r == state@.hosts_inline_at(state@.cursor.offset as int),
{
    state.block_allows_inline_markdown_at(state.cursor().offset)
}

/// Puts an image in at the cursor; see [`EditorState::insert_inline_snippet`].
pub fn insert_image_at_cursor(state: &mut EditorState, viewport_height: usize) -> (r: bool)
    requires
        old(state).wf(),
        !old(state)@.parsed_dirty,
        !old(state)@.reparse_due,
    ensures
        r == old(state)@.snippet_allowed(viewport_height as int),
        final(state)@ == old(state)@.snippet_made(
            true,
            ALT_PLACEHOLDER@,
            None,
            viewport_height as int,
        ),
        final(state).wf(),
{
    state.insert_inline_snippet(true, ALT_PLACEHOLDER, None, viewport_height)
}

/// Puts a link in at the cursor; see [`EditorState::insert_inline_snippet`].
pub fn insert_link_at_cursor(state: &mut EditorState, viewport_height: usize) -> (r: bool)
    requires
        old(state).wf(),
        !old(state)@.parsed_dirty,
        !old(state)@.reparse_due,
    ensures
        r == old(state)@.snippet_allowed(viewport_height as int),
        final(state)@ == old(state)@.snippet_made(
            false,
            LINK_PLACEHOLDER@,
            None,
            viewport_height as int,
        ),
        final(state).wf(),
{
    state.insert_inline_snippet(false, LINK_PLACEHOLDER, None, viewport_height)
}

/// Puts an image without a text in at the cursor, as a paragraph of its own;
/// see [`EditorState::insert_inline_snippet`].
pub fn insert_image_reference_at_cursor(state: &mut EditorState, url: &str, viewport_height: usize) -> (r: bool)
    requires
        old(state).wf(),
        !old(state)@.parsed_dirty,
        !old(state)@.reparse_due,
    ensures
        r == old(state)@.snippet_allowed(viewport_height as int),
        final(state)@ == old(state)@.snippet_made(
            true,
            Seq::empty(),
            Some(url@),
            viewport_height as int,
        ),
        final(state).wf(),
{
    let none: String = String::new();
    assert(none@ =~= Seq::<char>::empty());
    state.insert_inline_snippet(true, none.as_str(), Some(url), viewport_height)
}

/// Puts a footnote's mark in. The footnote layer gives the edit, with its offset
/// in bytes, and the byte for the cursor.
pub fn insert_footnote_at_cursor(
    state: &mut EditorState,
    delta: EditDelta,
    cursor_target: usize,
    viewport_height: usize,
)
    requires
        old(state).wf(),
        state::stands_at_byte(old(state)@.text, delta@),
    ensures
        final(state)@ == old(state)@.edit_inserted(
            delta@,
            cursor_target as int,
            viewport_height as int,
        ),
        final(state).wf(),
{
    proof {
        moves::lemma_entered_text(state@, viewport_height as int);
    }
    state.enter_edit_if_preview(viewport_height);
    state.apply_byte_delta(delta, cursor_target);
}

/// Puts the numbers of the footnotes into order, where the footnote layer gives
/// an edit for it; the cursor stays at its byte. False iff there is nothing to
/// do.
pub fn renumber_footnotes(state: &mut EditorState, delta: Option<EditDelta>) -> (r: bool)
    requires
        old(state).wf(),
        delta matches Some(d) ==> state::stands_at_byte(old(state)@.text, d@),
    ensures
        r == (delta is Some),
        final(state)@ == match delta {
            Some(d) => old(state)@.byte_edited(d@, old(state)@.cursor_byte()),
            None => old(state)@,
        },
        final(state).wf(),
{
    match delta {
        Some(d) => {
            let target: usize = state.cursor_byte();
            state.apply_byte_delta(d, target);
            true
        },
        None => false,
    }
}

/// Deletes the footnote at the cursor, where the footnote layer gives an edit for
/// it; the cursor goes to where the edit begins. False iff the cursor is on no
/// footnote.
pub fn delete_footnote_at_cursor(state: &mut EditorState, delta: Option<EditDelta>) -> (r: bool)
    requires
        old(state).wf(),
        delta matches Some(d) ==> state::stands_at_byte(old(state)@.text, d@),
    ensures
        r == (delta is Some),
        final(state)@ == match delta {
            Some(d) => old(state)@.byte_edited(d@, d.offset as int),
            None => old(state)@,
        },
        final(state).wf(),
{
    match delta {
        Some(d) => {
            let target: usize = d.offset;
            state.apply_byte_delta(d, target);
            true
        },
        None => false,
    }
}

/// Puts the numbers of the ordered list at the cursor right, in the source view
/// too, and says what was done.
pub fn fix_list_numbering(state: &mut EditorState) -> (r: FixListNumbering)
    requires
        old(state).wf(),
    ensures
        r == (if !old(state)@.in_ordered_list() {
            FixListNumbering::NotOrdered
        } else if old(state)@.numbers_wrong() {
            FixListNumbering::Fixed
        } else {
            FixListNumbering::AlreadyCorrect
        }),
        final(state)@ == if old(state)@.in_ordered_list() {
            old(state)@.renumbered()
        } else {
            old(state)@
        },
        final(state).wf(),
{
    let source: String = state.buffer().contents();
    let byte: usize = state.cursor_byte();
    let ordered: bool = match parse::find_list_at(source.as_str(), byte) {
        Some(info) => match info.kind {
            MarkerKind::Ordered(_) => true,
            MarkerKind::Bullet(_) => false,
        },
        None => false,
    };
    if !ordered {
        return FixListNumbering::NotOrdered;
    }
    if state.renumber_at_cursor() {
        FixListNumbering::Fixed
    } else {
        FixListNumbering::AlreadyCorrect
    }
}

} // verus!
