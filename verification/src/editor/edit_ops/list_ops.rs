//! List editing at the cursor.
//!
//! In the source view lists are plain text, so that markers and checkboxes can be
//! edited by hand.

use crate::document::graphemes;
use crate::document::history;
use crate::document::history::EditDelta;
use crate::editor::list_edit::edit;
use crate::editor::list_edit::edit::ListEdit;
use crate::editor::list_edit::laws;
use crate::editor::list_edit::parse;
use crate::editor::list_edit::parse::{ContinueResult, ListInfo};
use crate::editor::mode::Mode;
use crate::editor::state;
use crate::editor::state::{EditorState, EditorView};
use crate::text;
use vstd::prelude::*;
use vstd::string::*;
use vstd::utf8::*;

verus! {

/// The list around byte `at`.
pub open spec fn list_for(b: Seq<u8>, at: int) -> Option<ListInfo> {
    if exists|info: ListInfo| parse::is_list_at(info, b, at) {
        Some(choose|info: ListInfo| parse::is_list_at(info, b, at))
    } else {
        None
    }
}

/// A list edit as an edit of text.
pub open spec fn delta_of(e: ListEdit) -> history::Delta {
    history::Delta {
        offset: e.offset,
        removed: decode_utf8(e.removed),
        inserted: decode_utf8(e.inserted),
    }
}

impl EditorView {
    /// The bytes of the text.
    pub open spec fn bytes(self) -> Seq<u8> {
        state::bytes_of(self.text)
    }

    /// The list around the cursor; none in the source view.
    pub open spec fn list(self) -> Option<ListInfo> {
        if self.mode == Mode::Raw {
            None
        } else {
            list_for(self.bytes(), self.cursor_byte())
        }
    }

    /// The item of that list that the cursor is in.
    pub open spec fn list_item(self) -> Option<int> {
        match self.list() {
            Some(info) => parse::item_index(info, self.cursor_byte()),
            None => None,
        }
    }

    /// The state after a list edit.
    pub open spec fn list_edited(self, e: ListEdit) -> EditorView {
        self.byte_edited(delta_of(e), e.cursor)
    }

    /// The state after a list edit, if there is one.
    pub open spec fn list_edit(self, e: Option<ListEdit>) -> Option<EditorView> {
        match e {
            Some(x) => Some(self.list_edited(x)),
            None => None,
        }
    }

    /// The state with the cursor put to byte `byte`.
    pub open spec fn at_byte(self, byte: int) -> EditorView {
        self.at(state::char_at_byte(self.text, byte))
    }

    /// What a line break does in a list: an item with text is continued by a new
    /// one; an item without text is set off by a blank line, and, where there is
    /// one above it already, ends the list. Before the text of an item, and outside
    /// lists, it does nothing.
    pub open spec fn list_newline_edit(self) -> Option<ListEdit> {
        match (self.list(), self.list_item()) {
            (Some(info), Some(i)) => {
                let item = info.items@[i];
                let c = self.cursor_byte();
                if c < item.marker_end {
                    None
                } else if !edit::empty_item(self.bytes(), item) {
                    edit::continued(self.bytes(), info, c)
                } else if edit::blank_above(self.bytes(), item.start as int) {
                    edit::exited(self.bytes(), info, c)
                } else {
                    edit::spaced_out(self.bytes(), info, c)
                }
            },
            _ => None,
        }
    }

    /// What a tab does in a list: the item goes one level deeper. The first item
    /// has none to go below, and stays.
    pub open spec fn list_indent_edit(self) -> Option<ListEdit> {
        match self.list() {
            Some(info) => edit::nested(
                self.bytes(),
                info,
                self.cursor_byte(),
                self.settings.indent_width as nat,
            ),
            None => None,
        }
    }

    /// What going one level up does in a list.
    pub open spec fn list_outdent_edit(self) -> Option<ListEdit> {
        match self.list() {
            Some(info) => edit::unnested(
                self.bytes(),
                info,
                self.cursor_byte(),
                self.settings.indent_width as nat,
            ),
            None => None,
        }
    }

    /// What toggling a checkbox does.
    pub open spec fn list_toggle_edit(self) -> Option<ListEdit> {
        match self.list() {
            Some(info) => edit::toggled(self.bytes(), info, self.cursor_byte()),
            None => None,
        }
    }

    /// The offsets that list edits put the cursor to are offsets.
    pub open spec fn list_cursors_fit(self) -> bool {
        &&& edit::cursor_fits(self.list_newline_edit())
        &&& edit::cursor_fits(self.list_indent_edit())
    }

    /// What deleting backwards at the start of an item's text does: the checkbox
    /// goes first, then the marker with its indentation. The line stays a line.
    pub open spec fn list_backspace_edit(self) -> Option<ListEdit> {
        match (self.list(), self.list_item()) {
            (Some(info), Some(i)) => {
                let item = info.items@[i];
                let from = if item.task is Some {
                    item.marker_end as int
                } else {
                    item.start as int
                };
                if self.cursor_byte() != item.content_start || from == item.content_start {
                    None
                } else {
                    Some(
                        ListEdit {
                            offset: from,
                            removed: self.bytes().subrange(from, item.content_start as int),
                            inserted: Seq::empty(),
                            cursor: from,
                        },
                    )
                }
            },
            _ => None,
        }
    }

    /// The state with the numbers of the ordered lists around the cursor put
    /// right; unchanged in the source view and where nothing is to be put right.
    pub open spec fn list_renumbered(self) -> EditorView {
        if self.mode == Mode::Raw {
            self
        } else {
            self.renumbered()
        }
    }

    /// The state with the numbers of the ordered lists around the cursor put
    /// right.
    pub open spec fn renumbered(self) -> EditorView {
        match edit::block_at(self.bytes(), self.cursor_byte()) {
            Some((start, end)) => if edit::renumber_changes(
                self.bytes(),
                start,
                end,
                Seq::empty(),
            ) {
                self.list_edited(
                    ListEdit {
                        offset: start,
                        removed: self.bytes().subrange(start, end),
                        inserted: edit::renumber_lines(self.bytes(), start, end, Seq::empty()),
                        cursor: self.cursor_byte(),
                    },
                )
            } else {
                self
            },
            None => self,
        }
    }

    /// The state with a cursor that is on an item's marker put to the item's text.
    pub open spec fn off_marker(self) -> EditorView {
        match (self.list(), self.list_item()) {
            (Some(info), Some(i)) => {
                let item = info.items@[i];
                if item.start <= self.cursor_byte() < item.content_start {
                    self.at_byte(item.content_start as int)
                } else {
                    self
                }
            },
            _ => self,
        }
    }

    /// The state after a step to the left or the right in a list, if the step is
    /// one of the list's: markers are stepped over, from an item's text to the next
    /// or the one before, and out of the list at its ends. On the further lines of
    /// an item it is not.
    pub open spec fn list_step(self, forward: bool) -> Option<EditorView> {
        match (self.list(), self.list_item()) {
            (Some(info), Some(i)) => {
                let item = info.items@[i];
                let c = self.cursor_byte();
                let more = item.end > item.line_end + 1;
                if c > item.line_end || (c == item.line_end && more && forward) {
                    None
                } else if forward {
                    if c >= item.line_end {
                        if i + 1 < info.items@.len() {
                            Some(self.at_byte(info.items@[i + 1].content_start as int))
                        } else {
                            Some(self.at_byte(info.end as int))
                        }
                    } else {
                        Some(
                            self.at(graphemes::next_boundary(self.text, self.cursor.offset as int)),
                        )
                    }
                } else if c <= item.content_start {
                    if i > 0 {
                        Some(self.at_byte(info.items@[i - 1].line_end as int))
                    } else if info.start > 0 {
                        Some(self.at_byte(info.start - 1))
                    } else {
                        Some(self)
                    }
                } else {
                    Some(self.at(graphemes::prev_boundary(self.text, self.cursor.offset as int)))
                }
            },
            _ => None,
        }
    }
}

/// A list's description fits the text and agrees with the one that contracts speak
/// of.
pub open spec fn describes(v: EditorView, info: ListInfo) -> bool {
    &&& parse::is_list_at(info, v.bytes(), v.cursor_byte())
    &&& v.list() is Some
    &&& parse::is_list_at(v.list()->0, v.bytes(), v.cursor_byte())
}

pub proof fn lemma_describes(v: EditorView, info: ListInfo)
    requires
        describes(v, info),
    ensures
        info.start == v.list()->0.start,
        info.end == v.list()->0.end,
        info.items@ == v.list()->0.items@,
        parse::item_index(info, v.cursor_byte()) == v.list_item(),
        edit::continued(v.bytes(), info, v.cursor_byte()) == edit::continued(
            v.bytes(),
            v.list()->0,
            v.cursor_byte(),
        ),
        edit::exited(v.bytes(), info, v.cursor_byte()) == edit::exited(
            v.bytes(),
            v.list()->0,
            v.cursor_byte(),
        ),
        edit::spaced_out(v.bytes(), info, v.cursor_byte()) == edit::spaced_out(
            v.bytes(),
            v.list()->0,
            v.cursor_byte(),
        ),
        v.list_toggle_edit() == edit::toggled(v.bytes(), info, v.cursor_byte()),
        v.list_indent_edit() == edit::nested(
            v.bytes(),
            info,
            v.cursor_byte(),
            v.settings.indent_width as nat,
        ),
        v.list_outdent_edit() == edit::unnested(
            v.bytes(),
            info,
            v.cursor_byte(),
            v.settings.indent_width as nat,
        ),
{
    let y = v.list()->0;
    let c = v.cursor_byte();
    let w = v.settings.indent_width as nat;
    laws::lemma_same_list(info, y, v.bytes(), c);
    laws::lemma_same_edits(info, y, v.bytes(), c, c, w);
}

impl EditorState {
    /// The list around the cursor, with the text.
    pub fn current_list(&self) -> (r: Option<(String, ListInfo)>)
        requires
            self.wf(),
        ensures
            match r {
                Some(l) => l.0@ == self@.text && describes(self@, l.1),
                None => self@.list() is None,
            },
    {
        if self.mode() == Mode::Raw {
            return None;
        }
        let source: String = self.buffer().contents();
        let byte: usize = self.cursor_byte();
        match parse::find_list_at(source.as_str(), byte) {
            Some(info) => {
                assert(parse::is_list_at(info, self@.bytes(), self@.cursor_byte()));
                Some((source, info))
            },
            None => {
                assert(forall|info: ListInfo| !parse::is_list_at(info, self@.bytes(), self@.cursor_byte()));
                None
            },
        }
    }

    /// Makes a list edit.
    fn apply_list_edit(&mut self, res: ContinueResult, Ghost(e): Ghost<ListEdit>)
        requires
            old(self).wf(),
            edit::is_edit(res, e),
            laws::edit_fits(old(self)@.bytes(), e),
        ensures
            final(self)@ == old(self)@.list_edited(e),
            final(self).wf(),
    {
        proof {
            encode_utf8_decode_utf8(res.delta.removed@);
            encode_utf8_decode_utf8(res.delta.inserted@);
            assert(res.delta@ == delta_of(e));
        }
        self.apply_byte_delta(res.delta, res.cursor_byte);
    }

    /// Makes a line break in a list; true iff the list took it.
    pub fn list_handle_newline(&mut self) -> (r: bool)
        requires
            old(self).wf(),
            edit::cursor_fits(old(self)@.list_newline_edit()),
        ensures
            r == (old(self)@.list_newline_edit() is Some),
            final(self)@ == match old(self)@.list_newline_edit() {
                Some(e) => old(self)@.list_edited(e),
                None => old(self)@,
            },
            final(self).wf(),
    {
        let ghost v = self@;
        let (source, info) = match self.current_list() {
            Some(l) => l,
            None => {
                return false;
            },
        };
        let byte: usize = self.cursor_byte();
        proof {
            lemma_describes(v, info);
            encode_utf8_valid_utf8(v.text);
            laws::law_list_edits_fit(v.bytes(), info, byte as int, 0);
        }
        let i: usize = match parse::cursor_item_idx(&info, byte) {
            Some(i) => i,
            None => {
                return false;
            },
        };
        let item = &info.items[i];
        assert(parse::item_wf(v.bytes(), *item));
        if byte < item.marker_end {
            return false;
        }
        let empty: bool = item.content_is_empty(source.as_str());
        let res: Option<ContinueResult> = if !empty {
            edit::continue_item(&info, source.as_str(), byte)
        } else if edit::is_blank_line_above(source.as_str(), item.start) {
            edit::exit_list(&info, source.as_str(), byte)
        } else {
            edit::space_out_empty_item(&info, source.as_str(), byte)
        };
        match res {
            Some(x) => {
                self.apply_list_edit(x, Ghost(v.list_newline_edit()->0));
                true
            },
            None => false,
        }
    }

    /// Moves the cursor's list item one level deeper; true iff the list took the
    /// tab. The first item of a list has none to go below: the tab is taken, and
    /// nothing happens, since spaces would break its marker.
    pub fn list_indent(&mut self) -> (r: bool)
        requires
            old(self).wf(),
            edit::cursor_fits(old(self)@.list_indent_edit()),
        ensures
            r == (old(self)@.list_item() == Some(0int) || old(self)@.list_indent_edit() is Some),
            final(self)@ == match old(self)@.list_indent_edit() {
                Some(e) => old(self)@.list_edited(e),
                None => old(self)@,
            },
            final(self).wf(),
    {
        let ghost v = self@;
        let (source, info) = match self.current_list() {
            Some(l) => l,
            None => {
                return false;
            },
        };
        let byte: usize = self.cursor_byte();
        let width: usize = self.facts().settings.indent_width;
        proof {
            lemma_describes(v, info);
            encode_utf8_valid_utf8(v.text);
            laws::law_list_edits_fit(v.bytes(), info, byte as int, width as nat);
        }
        match parse::cursor_item_idx(&info, byte) {
            Some(i) => {
                if i == 0 {
                    return true;
                }
            },
            None => {},
        }
        match edit::indent_item(&info, source.as_str(), byte, width) {
            Some(x) => {
                self.apply_list_edit(x, Ghost(v.list_indent_edit()->0));
                true
            },
            None => false,
        }
    }

    /// Moves the cursor's list item one level up; true iff it moved.
    pub fn list_outdent(&mut self) -> (r: bool)
        requires
            old(self).wf(),
        ensures
            r == (old(self)@.list_outdent_edit() is Some),
            final(self)@ == match old(self)@.list_outdent_edit() {
                Some(e) => old(self)@.list_edited(e),
                None => old(self)@,
            },
            final(self).wf(),
    {
        let ghost v = self@;
        let (source, info) = match self.current_list() {
            Some(l) => l,
            None => {
                return false;
            },
        };
        let byte: usize = self.cursor_byte();
        let width: usize = self.facts().settings.indent_width;
        proof {
            lemma_describes(v, info);
            encode_utf8_valid_utf8(v.text);
            laws::law_list_edits_fit(v.bytes(), info, byte as int, width as nat);
        }
        match edit::outdent_item(&info, source.as_str(), byte, width) {
            Some(x) => {
                self.apply_list_edit(x, Ghost(v.list_outdent_edit()->0));
                true
            },
            None => false,
        }
    }

    /// Toggles the checkbox of the cursor's list item, if it has one.
    pub fn list_toggle_checkbox(&mut self)
        requires
            old(self).wf(),
        ensures
            final(self)@ == match old(self)@.list_toggle_edit() {
                Some(e) => old(self)@.list_edited(e),
                None => old(self)@,
            },
            final(self).wf(),
    {
        let ghost v = self@;
        let (source, info) = match self.current_list() {
            Some(l) => l,
            None => {
                return ;
            },
        };
        let byte: usize = self.cursor_byte();
        proof {
            lemma_describes(v, info);
            encode_utf8_valid_utf8(v.text);
            laws::law_list_edits_fit(v.bytes(), info, byte as int, 0);
        }
        match edit::toggle_checkbox(&info, source.as_str(), byte) {
            Some(x) => self.apply_list_edit(x, Ghost(v.list_toggle_edit()->0)),
            None => {},
        }
    }

    /// Deletes the checkbox, or else the marker, of the item at whose text's start
    /// the cursor is; true iff there was one.
    pub fn list_backspace_consumes_marker(&mut self) -> (r: bool)
        requires
            old(self).wf(),
        ensures
            r == (old(self)@.list_backspace_edit() is Some),
            final(self)@ == match old(self)@.list_backspace_edit() {
                Some(e) => old(self)@.list_edited(e),
                None => old(self)@,
            },
            final(self).wf(),
    {
        let ghost v = self@;
        let (source, info) = match self.current_list() {
            Some(l) => l,
            None => {
                return false;
            },
        };
        let byte: usize = self.cursor_byte();
        proof {
            lemma_describes(v, info);
            encode_utf8_valid_utf8(v.text);
        }
        let i: usize = match parse::cursor_item_idx(&info, byte) {
            Some(i) => i,
            None => {
                return false;
            },
        };
        let item = &info.items[i];
        assert(parse::item_wf(v.bytes(), *item));
        let from: usize = if item.task.is_some() {
            item.marker_end
        } else {
            item.start
        };
        let to: usize = item.content_start;
        if byte != to || from == to {
            return false;
        }
        let removed: String = text::slice(source.as_str(), from, to).to_owned();
        let delta = EditDelta { offset: from, removed, inserted: String::new() };
        let ghost e = v.list_backspace_edit()->0;
        proof {
            assert(encode_utf8(delta.inserted@) =~= e.inserted);
        }
        self.apply_list_edit(ContinueResult { delta, cursor_byte: from }, Ghost(e));
        true
    }

    /// Puts the numbers of the ordered lists around the cursor right; true iff
    /// something was to be put right.
    pub fn renumber_at_cursor(&mut self) -> (r: bool)
        requires
            old(self).wf(),
        ensures
            final(self)@ == old(self)@.renumbered(),
            final(self).wf(),
            r == (edit::block_at(old(self)@.bytes(), old(self)@.cursor_byte()) matches Some((start, end))
                && edit::renumber_changes(old(self)@.bytes(), start, end, Seq::empty())),
    {
        let ghost v = self@;
        let source: String = self.buffer().contents();
        let byte: usize = self.cursor_byte();
        match edit::renumber_list_block(source.as_str(), byte) {
            Some(delta) => {
                let ghost se = edit::block_at(v.bytes(), v.cursor_byte())->0;
                let ghost e = ListEdit {
                    offset: se.0,
                    removed: v.bytes().subrange(se.0, se.1),
                    inserted: edit::renumber_lines(v.bytes(), se.0, se.1, Seq::empty()),
                    cursor: v.cursor_byte(),
                };
                self.apply_list_edit(ContinueResult { delta, cursor_byte: byte }, Ghost(e));
                true
            },
            None => false,
        }
    }

    /// Puts the numbers of the ordered lists around the cursor right after an
    /// edit. The source view is left alone.
    pub fn list_renumber_at_cursor(&mut self)
        requires
            old(self).wf(),
        ensures
            final(self)@ == old(self)@.list_renumbered(),
            final(self).wf(),
    {
        if self.mode() == Mode::Raw {
            return ;
        }
        self.renumber_at_cursor();
    }

    /// Puts the cursor to a byte, as far as the text goes.
    pub fn set_cursor_byte(&mut self, target_byte: usize)
        requires
            old(self).wf(),
        ensures
            final(self)@ == old(self)@.at_byte(target_byte as int),
            final(self).wf(),
    {
        let offset: usize = self.char_at_byte(target_byte);
        self.put_cursor(offset);
    }

    /// Puts a cursor that is on an item's marker to the item's text.
    pub fn clamp_cursor_out_of_marker(&mut self)
        requires
            old(self).wf(),
        ensures
            final(self)@ == old(self)@.off_marker(),
            final(self).wf(),
    {
        let ghost v = self@;
        let (_, info) = match self.current_list() {
            Some(l) => l,
            None => {
                return ;
            },
        };
        let byte: usize = self.cursor_byte();
        proof {
            lemma_describes(v, info);
        }
        match parse::cursor_item_idx(&info, byte) {
            Some(i) => {
                if info.items[i].start <= byte && byte < info.items[i].content_start {
                    self.set_cursor_byte(info.items[i].content_start);
                }
            },
            None => {},
        }
    }

    /// Steps to the left or the right in a list; true iff the step was the list's.
    pub fn list_move_horizontal(&mut self, forward: bool) -> (r: bool)
        requires
            old(self).wf(),
        ensures
            r == (old(self)@.list_step(forward) is Some),
            final(self)@ == match old(self)@.list_step(forward) {
                Some(w) => w,
                None => old(self)@,
            },
            final(self).wf(),
    {
        let ghost v = self@;
        let (_, info) = match self.current_list() {
            Some(l) => l,
            None => {
                return false;
            },
        };
        let byte: usize = self.cursor_byte();
        proof {
            lemma_describes(v, info);
        }
        let i: usize = match parse::cursor_item_idx(&info, byte) {
            Some(i) => i,
            None => {
                return false;
            },
        };
        let item = &info.items[i];
        assert(parse::item_wf(v.bytes(), *item));
        let more: bool = item.end - item.line_end > 1;
        if byte > item.line_end || (byte == item.line_end && more && forward) {
            return false;
        }
        let offset: usize = self.cursor().offset;
        if forward {
            if byte >= item.line_end {
                if i < info.items.len() - 1 {
                    self.set_cursor_byte(info.items[i + 1].content_start);
                } else {
                    self.set_cursor_byte(info.end);
                }
            } else {
                let next: usize = graphemes::next_grapheme_offset(self.buffer(), offset);
                self.put_cursor(next);
            }
        } else if byte <= item.content_start {
            if i > 0 {
                self.set_cursor_byte(info.items[i - 1].line_end);
            } else if info.start > 0 {
                self.set_cursor_byte(info.start - 1);
            }
        } else {
            let prev: usize = graphemes::prev_grapheme_offset(self.buffer(), offset);
            self.put_cursor(prev);
        }
        true
    }
}

} // verus!
