//! Which footnote a click or the cursor is on.

use crate::editor::footnote_edit;
use crate::editor::footnote_edit::FootnoteSpan;
use crate::editor::link::LinkTarget;
use crate::text;
use vstd::prelude::*;
use vstd::string::*;
use vstd::utf8::*;

verus! {

broadcast use {vstd::utf8::encode_utf8_valid_utf8, vstd::utf8::encode_utf8_decode_utf8};

/// The first marker at or after index `k` that covers column `col`. A
/// definition's marker covers its colon too.
pub open spec fn covering(
    markers: Seq<footnote_edit::MarkerSpan>,
    col: int,
    k: int,
) -> Option<footnote_edit::MarkerSpan>
    decreases markers.len() - k,
{
    if 0 <= k < markers.len() {
        let m = markers[k];
        let last = if m.is_definition {
            m.end
        } else {
            m.end - 1
        };
        if m.start <= col <= last {
            Some(m)
        } else {
            covering(markers, col, k + 1)
        }
    } else {
        None
    }
}

/// The marker at offset `byte`, looked for on its line.
pub open spec fn footnote_at(b: Seq<u8>, byte: int) -> Option<footnote_edit::MarkerSpan> {
    let at = if byte <= b.len() {
        byte
    } else {
        b.len() as int
    };
    let start = text::line_start(b, at);
    covering(
        footnote_edit::markers_from(b.subrange(start, text::line_end(b, at)), 0),
        at - start,
        0,
    )
}

/// The footnote at offset `byte` of `source`: a reference to follow, or a
/// definition to go back from. `None` off footnote markers.
pub fn footnote_at_offset(source: &str, byte: usize) -> (r: Option<LinkTarget>)
    ensures
        match footnote_at(source.spec_bytes(), byte as int) {
            Some(m) => if m.is_definition {
                r matches Some(LinkTarget::FootnoteBack(l)) && encode_utf8(l@) == m.label
            } else {
                r matches Some(LinkTarget::Footnote(l)) && encode_utf8(l@) == m.label
            },
            None => r is None,
        },
{
    let bytes = source.as_bytes();
    let ghost b = source.spec_bytes();
    let at: usize = if byte <= bytes.len() {
        byte
    } else {
        bytes.len()
    };
    let line_start: usize = text::line_start_byte(bytes, at);
    let line_end: usize = text::line_end_byte(bytes, at);
    let col: usize = at - line_start;
    let spans: Vec<FootnoteSpan> = footnote_edit::scan(
        text::line_slice(source, line_start, line_end),
    );
    let ghost markers = footnote_edit::span_views(spans@);
    let mut k: usize = 0;
    while k < spans.len()
        invariant
            k <= spans@.len(),
            markers == footnote_edit::span_views(spans@),
            covering(markers, col as int, k as int) == covering(markers, col as int, 0),
            covering(markers, col as int, 0) == footnote_at(source.spec_bytes(), byte as int),
        decreases spans@.len() - k,
    {
        let s = &spans[k];
        assert(markers[k as int] == s@);
        let hit: bool = col >= s.start && (if s.is_definition {
            col <= s.end
        } else {
            col < s.end
        });
        if hit {
            let label: String = s.label.clone();
            return if s.is_definition {
                Some(LinkTarget::FootnoteBack(label))
            } else {
                Some(LinkTarget::Footnote(label))
            };
        }
        k += 1;
    }
    None
}

} // verus!
