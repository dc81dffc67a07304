//! Clicks on checkboxes.

use crate::editor::edit_ops::list_ops;
use crate::editor::list_edit::edit;
use crate::editor::list_edit::edit::ListEdit;
use crate::editor::list_edit::laws;
use crate::editor::list_edit::parse;
use crate::editor::list_edit::parse::ListInfo;
use crate::editor::state;
use crate::editor::state::{EditorState, EditorView};
use vstd::prelude::*;
use vstd::string::*;
use vstd::utf8::*;

verus! {

/// Byte `at` of `b` is on a task item's bullet or checkbox.
pub open spec fn on_checkbox(b: Seq<u8>, info: ListInfo, at: int) -> bool {
    match parse::item_index(info, at) {
        Some(i) => info.items@[i].task_box matches Some(t) && info.items@[i].start <= at < t + 3,
        None => false,
    }
}

/// Byte `at` of `b` is on the bullet or the checkbox of a task item.
pub open spec fn box_at(b: Seq<u8>, at: int) -> bool {
    list_ops::list_for(b, at) matches Some(info) && on_checkbox(b, info, at)
}

impl EditorView {
    /// The edit of a click on a checkbox: on the item's bullet, or on the box.
    pub open spec fn checkbox_edit(self, offset: int) -> Option<ListEdit> {
        let u = self.at(offset);
        match u.list() {
            Some(info) => if on_checkbox(u.bytes(), info, u.cursor_byte()) {
                u.list_toggle_edit()
            } else {
                None
            },
            None => None,
        }
    }

    /// The state with the checkbox at `offset` toggled. The cursor and what is noted
    /// of it stay.
    pub open spec fn checkbox_toggled(self, offset: int) -> EditorView {
        match self.checkbox_edit(offset) {
            Some(e) => {
                let w = self.at(offset).edited(
                    state::in_chars(self.text, list_ops::delta_of(e)),
                );
                w.at(state::least(self.cursor.offset as int, w.text.len() as int)).aimed_at(
                    self.cursor.preferred_col,
                ).resting(self.track)
            },
            None => self,
        }
    }
}

/// True iff a byte is on the bullet or the checkbox of a task item.
pub fn is_on_checkbox(source: &str, byte: usize) -> (r: bool)
    ensures
        r == box_at(source.spec_bytes(), byte as int),
{
    let ghost b = source.spec_bytes();
    match parse::find_list_at(source, byte) {
        None => {
            assert(forall|info: ListInfo| !parse::is_list_at(info, b, byte as int));
            false
        },
        Some(info) => {
            proof {
                assert(parse::is_list_at(info, b, byte as int));
                let y = list_ops::list_for(b, byte as int)->0;
                laws::lemma_same_list(info, y, b, byte as int);
                laws::lemma_same_edits(info, y, b, byte as int, byte as int, 0);
            }
            match parse::cursor_item_idx(&info, byte) {
                None => false,
                Some(i) => {
                    let item = &info.items[i];
                    assert(parse::item_wf(b, *item));
                    match item.task_box {
                        Some(t) => item.start <= byte && (byte < t || byte - t < 3),
                        None => false,
                    }
                },
            }
        },
    }
}

impl EditorState {
    /// Toggles the checkbox at a character offset, if one is there, and says whether
    /// one was. The bullet counts as a part of it; the space behind it does not, so
    /// that the cursor can be put before the item's text. In the source view a
    /// checkbox is plain text.
    pub fn toggle_checkbox_at(&mut self, offset: usize) -> (r: bool)
        requires
            old(self).wf(),
            offset <= old(self)@.text.len(),
        ensures
            r == (old(self)@.checkbox_edit(offset as int) is Some),
            final(self)@ == old(self)@.checkbox_toggled(offset as int),
            final(self).wf(),
    {
        let ghost v = self@;
        let f = self.facts();
        self.put_cursor(offset);
        let ghost u = self@;
        let byte: usize = self.cursor_byte();
        let found: Option<(String, ListInfo)> = self.current_list();
        match found {
            Some((source, info)) => {
                proof {
                    list_ops::lemma_describes(u, info);
                    encode_utf8_valid_utf8(u.text);
                    laws::law_list_edits_fit(u.bytes(), info, byte as int, 0);
                }
                let hit: bool = match parse::cursor_item_idx(&info, byte) {
                    Some(i) => {
                        let item = &info.items[i];
                        assert(parse::item_wf(u.bytes(), *item));
                        match item.task_box {
                            Some(t) => item.start <= byte && (byte < t || byte - t < 3),
                            None => false,
                        }
                    },
                    None => false,
                };
                assert(hit == on_checkbox(u.bytes(), u.list()->0, u.cursor_byte()));
                if hit {
                    match edit::toggle_checkbox(&info, source.as_str(), byte) {
                        Some(x) => {
                            let ghost e = v.checkbox_edit(offset as int)->0;
                            proof {
                                encode_utf8_decode_utf8(x.delta.removed@);
                                encode_utf8_decode_utf8(x.delta.inserted@);
                                assert(x.delta@ == list_ops::delta_of(e));
                                assert(u.text == v.text) by {
                                    reveal(EditorView::at);
                                }
                            }
                            self.apply_byte_edit(x.delta);
                            let len: usize = self.buffer().len_chars();
                            self.put_cursor(
                                if f.cursor.offset <= len {
                                    f.cursor.offset
                                } else {
                                    len
                                },
                            );
                            self.aim_at(f.cursor.preferred_col);
                            self.rest(f.track);
                            return true;
                        },
                        None => {},
                    }
                }
            },
            None => {},
        }
        assert(u.text == v.text) by {
            reveal(EditorView::at);
        }
        self.put_cursor(f.cursor.offset);
        proof {
            reveal(EditorView::at);
        }
        false
    }
}

} // verus!
