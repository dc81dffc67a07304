//! Edits whose offsets count bytes, as the list and table layers make them.

use crate::document::history;
use crate::document::history::EditDelta;
use crate::editor::state;
use crate::editor::state::{EditorState, EditorView};
use vstd::prelude::*;

verus! {

impl EditorView {
    /// The state after an edit whose offset counts bytes, with the cursor put to
    /// byte `target` of the new text.
    pub open spec fn byte_edited(self, d: history::Delta, target: int) -> EditorView {
        let v = self.edited(state::in_chars(self.text, d));
        v.at(state::char_at_byte(v.text, target)).aimed().followed()
    }
}

impl EditorState {
    /// Makes an edit whose offset counts bytes, and puts the cursor to byte
    /// `cursor_byte_target` of the new text.
    pub fn apply_byte_delta(&mut self, byte_delta: EditDelta, cursor_byte_target: usize)
        requires
            old(self).wf(),
            state::stands_at_byte(old(self)@.text, byte_delta@),
        ensures
            final(self)@ == old(self)@.byte_edited(byte_delta@, cursor_byte_target as int),
            final(self).wf(),
    {
        self.apply_byte_edit(byte_delta);
        let offset: usize = self.char_at_byte(cursor_byte_target);
        self.put_cursor(offset);
        self.aim();
        self.update_cursor_block();
    }
}

} // verus!
