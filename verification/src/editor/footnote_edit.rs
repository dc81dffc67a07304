//! Footnote markers in the source.

use crate::text;
use vstd::prelude::*;
use vstd::string::*;
use vstd::utf8::*;

verus! {

broadcast use {vstd::utf8::encode_utf8_valid_utf8, vstd::utf8::encode_utf8_decode_utf8};

/// A marker `[^label]`.
#[derive(Debug, Clone, PartialEq, Eq)]
pub struct FootnoteSpan {
    /// Offset of the `[`.
    pub start: usize,
    /// Offset just past the `]`.
    pub end: usize,
    pub label: String,
    /// A `:` follows the marker.
    pub is_definition: bool,
}

/// A marker over bytes.
pub struct MarkerSpan {
    pub start: int,
    pub end: int,
    pub label: Seq<u8>,
    pub is_definition: bool,
}

impl View for FootnoteSpan {
    type V = MarkerSpan;

    open spec fn view(&self) -> MarkerSpan {
        MarkerSpan {
            start: self.start as int,
            end: self.end as int,
            label: encode_utf8(self.label@),
            is_definition: self.is_definition,
        }
    }
}

/// How many backslashes stand directly before `i`.
pub open spec fn backslashes_before(b: Seq<u8>, i: int) -> nat
    decreases i,
{
    if 0 < i <= b.len() && b[i - 1] == 92 {
        backslashes_before(b, i - 1) + 1
    } else {
        0
    }
}

/// The byte at `i` is escaped: an odd number of backslashes stands before it.
pub open spec fn escaped(b: Seq<u8>, i: int) -> bool {
    backslashes_before(b, i) % 2 == 1
}

/// True iff the byte at `i` is escaped with a backslash.
pub fn is_escaped(bytes: &[u8], i: usize) -> (r: bool)
    requires
        i <= bytes@.len(),
    ensures
        r == escaped(bytes@, i as int),
{
    let mut odd: bool = false;
    let mut k: usize = i;
    while k > 0 && bytes[k - 1] == 92
        invariant
            k <= i <= bytes@.len(),
            (odd == (backslashes_before(bytes@, k as int) % 2 == 0)) == escaped(bytes@, i as int),
        decreases k,
    {
        odd = !odd;
        k -= 1;
    }
    odd
}

/// The first index at or after `i` that holds a bracket or a line feed, or the
/// end.
pub open spec fn label_end(b: Seq<u8>, i: int) -> int
    decreases b.len() - i,
{
    if 0 <= i < b.len() && b[i] != 91 && b[i] != 93 && b[i] != text::NEWLINE {
        label_end(b, i + 1)
    } else {
        i
    }
}

/// The marker that begins at `i`: `[^`, a label that is not empty and holds
/// neither bracket nor line feed, and `]`.
pub open spec fn marker_at(b: Seq<u8>, i: int) -> Option<MarkerSpan> {
    if 0 <= i && i + 1 < b.len() && b[i] == 91 && b[i + 1] == 94 && !escaped(b, i) {
        let e = label_end(b, i + 2);
        if e > i + 2 && e < b.len() && b[e] == 93 {
            Some(
                MarkerSpan {
                    start: i,
                    end: e + 1,
                    label: b.subrange(i + 2, e),
                    is_definition: e + 1 < b.len() && b[e + 1] == 58,
                },
            )
        } else {
            None
        }
    } else {
        None
    }
}

/// The markers from offset `i` on, one behind the other.
pub open spec fn markers_from(b: Seq<u8>, i: int) -> Seq<MarkerSpan>
    decreases b.len() - i,
{
    if 0 <= i < b.len() {
        match marker_at(b, i) {
            Some(m) => if i < m.end <= b.len() {
                seq![m] + markers_from(b, m.end)
            } else {
                Seq::empty()
            },
            None => markers_from(b, i + 1),
        }
    } else {
        Seq::empty()
    }
}

proof fn lemma_label_end(b: Seq<u8>, i: int)
    requires
        0 <= i <= b.len(),
    ensures
        i <= label_end(b, i) <= b.len(),
    decreases b.len() - i,
{
    if i < b.len() && b[i] != 91 && b[i] != 93 && b[i] != text::NEWLINE {
        lemma_label_end(b, i + 1);
    }
}

/// The marker that begins at offset `i`.
fn span_at(source: &str, i: usize) -> (r: Option<FootnoteSpan>)
    requires
        i < source.spec_bytes().len(),
    ensures
        match r {
            Some(s) => marker_at(source.spec_bytes(), i as int) == Some(s@) && i < s.end
                <= source.spec_bytes().len(),
            None => marker_at(source.spec_bytes(), i as int) is None,
        },
{
    let bytes = source.as_bytes();
    let ghost b = source.spec_bytes();
    let len: usize = bytes.len();
    if bytes[i] != 91 || i + 1 >= len || bytes[i + 1] != 94 || is_escaped(bytes, i) {
        return None;
    }
    let mut e: usize = i + 2;
    proof {
        lemma_label_end(b, i + 2);
    }
    while e < len && bytes[e] != 91 && bytes[e] != 93 && bytes[e] != text::NEWLINE
        invariant
            b == bytes@,
            len == b.len(),
            i + 2 <= e <= len,
            label_end(b, e as int) == label_end(b, i + 2),
        decreases len - e,
    {
        e += 1;
    }
    if e == i + 2 || e >= len || bytes[e] != 93 {
        return None;
    }
    proof {
        text::lemma_boundary(b, i + 2);
        text::lemma_boundary(b, e as int);
    }
    let label = text::slice(source, i + 2, e).to_owned();
    let is_definition: bool = e + 1 < len && bytes[e + 1] == 58;
    Some(FootnoteSpan { start: i, end: e + 1, label, is_definition })
}

/// The markers as values.
pub open spec fn span_views(spans: Seq<FootnoteSpan>) -> Seq<MarkerSpan> {
    spans.map_values(|s: FootnoteSpan| s@)
}

/// All footnote markers of `source`, in order.
pub fn scan(source: &str) -> (r: Vec<FootnoteSpan>)
    ensures
        span_views(r@) == markers_from(source.spec_bytes(), 0),
{
    let ghost b = source.spec_bytes();
    let len: usize = text::byte_len(source);
    let mut out: Vec<FootnoteSpan> = Vec::new();
    let mut i: usize = 0;
    assert(span_views(out@) + markers_from(b, 0) =~= markers_from(b, 0));
    while i < len
        invariant
            b == source.spec_bytes(),
            len == b.len(),
            i <= len,
            span_views(out@) + markers_from(b, i as int) == markers_from(b, 0),
        decreases len - i,
    {
        let ghost before = span_views(out@);
        match span_at(source, i) {
            Some(s) => {
                let ghost m = s@;
                let end: usize = s.end;
                out.push(s);
                proof {
                    assert(span_views(out@) =~= before.push(m));
                    assert(before + (seq![m] + markers_from(b, end as int)) =~= before.push(m)
                        + markers_from(b, end as int));
                }
                i = end;
            },
            None => {
                i += 1;
            },
        }
    }
    assert(span_views(out@) + Seq::<MarkerSpan>::empty() =~= span_views(out@));
    out
}

} // verus!
