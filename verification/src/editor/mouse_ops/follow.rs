//! Following links and footnotes by a click.

use crate::document::paths;
use crate::document::rope;
use crate::editor::link;
use crate::editor::link::LinkTarget;
use crate::editor::mouse_ops::footnotes;
use crate::editor::mouse_ops::links;
use crate::editor::state;
use crate::editor::state::{EditorState, EditorView};
use std::path::Path;
use vstd::prelude::*;
use vstd::string::*;
use vstd::utf8::*;

verus! {

broadcast use {vstd::utf8::encode_utf8_valid_utf8, vstd::utf8::encode_utf8_decode_utf8};

/// `t` is the target of the footnote marker at byte `byte`.
pub open spec fn marks(b: Seq<u8>, byte: int, t: LinkTarget) -> bool {
    match footnotes::footnote_at(b, byte) {
        Some(m) => if m.is_definition {
            t matches LinkTarget::FootnoteBack(l) && encode_utf8(l@) == m.label
        } else {
            t matches LinkTarget::Footnote(l) && encode_utf8(l@) == m.label
        },
        None => false,
    }
}

impl EditorView {
    /// A click leads to something to follow: the link that is drawn there, one in the
    /// source there, a footnote's mark, or the sign that leads back to one.
    pub open spec fn follows(
        self,
        offset: Option<usize>,
        drawn: Option<LinkTarget>,
        back: Option<LinkTarget>,
    ) -> bool {
        let b = state::bytes_of(self.text);
        drawn is Some || (offset matches Some(o) && {
            let byte = rope::byte_offset(self.text, o as int);
            links::link_at(b, byte) is Some || footnotes::footnote_at(b, byte) is Some || back
                is Some
        })
    }

    /// `t` is what a click there is to follow.
    pub open spec fn leads_to(
        self,
        offset: Option<usize>,
        drawn: Option<LinkTarget>,
        back: Option<LinkTarget>,
        dir: Option<Seq<u8>>,
        t: LinkTarget,
    ) -> bool {
        let b = state::bytes_of(self.text);
        match (drawn, offset) {
            (Some(l), _) => t == l,
            (None, Some(o)) => {
                let byte = rope::byte_offset(self.text, o as int);
                match links::link_at(b, byte) {
                    Some(url) => link::is_target(encode_utf8(url), dir, t),
                    None => if footnotes::footnote_at(b, byte) is Some {
                        marks(b, byte, t)
                    } else {
                        back == Some(t)
                    },
                }
            },
            (None, None) => false,
        }
    }

    /// A click leads to a footnote's mark, or to the sign that leads back to one.
    pub open spec fn follows_footnote(self, offset: Option<usize>, back: Option<LinkTarget>) -> bool {
        back is Some || (offset matches Some(o) && footnotes::footnote_at(
            state::bytes_of(self.text),
            rope::byte_offset(self.text, o as int),
        ) is Some)
    }

    /// `t` is the footnote that a click there is to follow.
    pub open spec fn leads_to_footnote(
        self,
        offset: Option<usize>,
        back: Option<LinkTarget>,
        t: LinkTarget,
    ) -> bool {
        match (back, offset) {
            (Some(l), _) => t == l,
            (None, Some(o)) => marks(
                state::bytes_of(self.text),
                rope::byte_offset(self.text, o as int),
                t,
            ),
            (None, None) => false,
        }
    }
}

impl EditorState {
    /// Notes what a click there is to follow, and says whether there is anything.
    /// `drawn` is the target of the link that is drawn under the pointer, `back` that
    /// of the sign behind a footnote, and `base_dir` the directory of the document.
    pub fn follow_link_at_click(
        &mut self,
        offset: Option<usize>,
        drawn: Option<LinkTarget>,
        back: Option<LinkTarget>,
        base_dir: Option<&Path>,
    ) -> (r: bool)
        requires
            old(self).wf(),
            offset matches Some(o) ==> o <= old(self)@.text.len(),
        ensures
            r == old(self)@.follows(offset, drawn, back),
            r ==> exists|t: LinkTarget| #[trigger]
                old(self)@.leads_to(offset, drawn, back, paths::dir_bytes(base_dir), t)
                    && final(self)@ == old(self)@.following(Some(t)),
            !r ==> final(self)@ == old(self)@,
            final(self).wf(),
    {
        let ghost v = self@;
        let ghost dir = paths::dir_bytes(base_dir);
        match drawn {
            Some(l) => {
                self.follow(Some(l));
                assert(v.leads_to(offset, drawn, back, dir, l));
                return true;
            },
            None => {},
        }
        let at: usize = match offset {
            Some(o) => o,
            None => {
                return false;
            },
        };
        let source: String = self.buffer().contents();
        let byte: usize = self.buffer().char_to_byte(at);
        match links::link_at_offset(source.as_str(), byte) {
            Some(url) => {
                let t: LinkTarget = LinkTarget::parse(url.as_str(), base_dir);
                self.follow(Some(t));
                assert(v.leads_to(offset, drawn, back, dir, t));
                return true;
            },
            None => {},
        }
        match footnotes::footnote_at_offset(source.as_str(), byte) {
            Some(t) => {
                self.follow(Some(t));
                assert(v.leads_to(offset, drawn, back, dir, t));
                return true;
            },
            None => {},
        }
        match back {
            Some(l) => {
                self.follow(Some(l));
                assert(v.leads_to(offset, drawn, back, dir, l));
                true
            },
            None => false,
        }
    }

    /// Notes the footnote that a click there is to follow, and says whether there is
    /// one. A plain click in an editing view follows no links, so that the cursor can
    /// be put into them.
    pub fn follow_footnote_at_click(&mut self, offset: Option<usize>, back: Option<LinkTarget>) -> (r:
        bool)
        requires
            old(self).wf(),
            offset matches Some(o) ==> o <= old(self)@.text.len(),
        ensures
            r == old(self)@.follows_footnote(offset, back),
            r ==> exists|t: LinkTarget| #[trigger]
                old(self)@.leads_to_footnote(offset, back, t) && final(self)@ == old(
                    self,
                )@.following(Some(t)),
            !r ==> final(self)@ == old(self)@,
            final(self).wf(),
    {
        let ghost v = self@;
        match back {
            Some(l) => {
                self.follow(Some(l));
                assert(v.leads_to_footnote(offset, back, l));
                return true;
            },
            None => {},
        }
        let at: usize = match offset {
            Some(o) => o,
            None => {
                return false;
            },
        };
        let source: String = self.buffer().contents();
        let byte: usize = self.buffer().char_to_byte(at);
        match footnotes::footnote_at_offset(source.as_str(), byte) {
            Some(t) => {
                self.follow(Some(t));
                assert(v.leads_to_footnote(offset, back, t));
                true
            },
            None => false,
        }
    }
}

} // verus!
