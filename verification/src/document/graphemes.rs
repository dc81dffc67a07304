//! Grapheme clusters: what the user takes for one character.
//!
//! An offset counts characters, and moving and deleting go by clusters, so that
//! flag emoji, skin tones, joined emoji and combining marks take one keystroke.

use crate::document::buffer::Buffer;
use unicode_segmentation::UnicodeSegmentation;
use vstd::prelude::*;
use vstd::string::*;

verus! {

/// The most characters that are read around an offset.
pub const GRAPHEME_WINDOW: usize = 32;

/// The first extended grapheme cluster of a text, as `unicode_segmentation`
/// finds it.
pub uninterp spec fn first_grapheme(s: Seq<char>) -> Seq<char>;

/// The last extended grapheme cluster of a text, as `unicode_segmentation` finds
/// it.
pub uninterp spec fn last_grapheme(s: Seq<char>) -> Seq<char>;

/// The first item of `UnicodeSegmentation::graphemes(s, true)`, under the name
/// `first_grapheme`: `None` for an empty text, else a part of the text from its
/// start on, not empty.
#[verifier::external_body]
fn outside_first_grapheme(s: &str) -> (r: Option<&str>)
    ensures
        match r {
            Some(g) => g@ == first_grapheme(s@) && 0 < g@.len() <= s@.len() && g@ == s@.take(
                g@.len() as int,
            ),
            None => s@.len() == 0,
        },
{
    s.graphemes(true).next()
}

/// The last item of `UnicodeSegmentation::graphemes(s, true)`, under the name
/// `last_grapheme`: `None` for an empty text, else a part of the text up to its
/// end, not empty.
#[verifier::external_body]
fn outside_last_grapheme(s: &str) -> (r: Option<&str>)
    ensures
        match r {
            Some(g) => g@ == last_grapheme(s@) && 0 < g@.len() <= s@.len() && g@ == s@.skip(
                s@.len() - g@.len(),
            ),
            None => s@.len() == 0,
        },
{
    s.graphemes(true).next_back()
}

/// The end of the window that begins at `i`.
pub open spec fn window_end(s: Seq<char>, i: int) -> int {
    if i + GRAPHEME_WINDOW <= s.len() {
        i + GRAPHEME_WINDOW
    } else {
        s.len() as int
    }
}

/// The start of the window that ends at `i`.
pub open spec fn window_start(i: int) -> int {
    if i <= GRAPHEME_WINDOW {
        0
    } else {
        i - GRAPHEME_WINDOW
    }
}

/// The end of the cluster that begins at `i`.
pub open spec fn next_boundary(s: Seq<char>, i: int) -> int {
    let n = first_grapheme(s.subrange(i, window_end(s, i))).len();
    if i >= s.len() {
        s.len() as int
    } else if 0 < n <= window_end(s, i) - i {
        i + n
    } else {
        i + 1
    }
}

/// The start of the cluster that ends at `i`.
pub open spec fn prev_boundary(s: Seq<char>, i: int) -> int {
    let n = last_grapheme(s.subrange(window_start(i), i)).len();
    if i <= 0 {
        0
    } else if 0 < n <= i - window_start(i) {
        i - n
    } else {
        i - 1
    }
}

/// The boundary that follows `char_offset`; the end of the buffer at its end.
pub fn next_grapheme_offset(buf: &Buffer, char_offset: usize) -> (r: usize)
    ensures
        r == next_boundary(buf@, char_offset as int),
        r <= buf@.len(),
        char_offset < buf@.len() ==> char_offset < r,
        char_offset < buf@.len() ==> buf@.subrange(char_offset as int, r as int) == first_grapheme(
            buf@.subrange(
                char_offset as int,
                if char_offset + 32 <= buf@.len() {
                    char_offset + 32
                } else {
                    buf@.len() as int
                },
            ),
        ),
{
    let len: usize = buf.len_chars();
    if char_offset >= len {
        return len;
    }
    let end: usize = if len - char_offset >= GRAPHEME_WINDOW {
        char_offset + GRAPHEME_WINDOW
    } else {
        len
    };
    let s = buf.slice_to_string(char_offset, end);
    match outside_first_grapheme(s.as_str()) {
        Some(g) => {
            assert(s@.take(g@.len() as int) =~= buf@.subrange(
                char_offset as int,
                char_offset + g@.len(),
            ));
            char_offset + g.unicode_len()
        },
        None => char_offset,
    }
}

/// The boundary that precedes `char_offset`; 0 at the start of the buffer.
pub fn prev_grapheme_offset(buf: &Buffer, char_offset: usize) -> (r: usize)
    requires
        char_offset <= buf@.len(),
    ensures
        r == prev_boundary(buf@, char_offset as int),
        r <= char_offset,
        0 < char_offset ==> r < char_offset,
        0 < char_offset ==> buf@.subrange(r as int, char_offset as int) == last_grapheme(
            buf@.subrange(
                if char_offset <= 32 {
                    0
                } else {
                    char_offset - 32
                },
                char_offset as int,
            ),
        ),
{
    if char_offset == 0 {
        return 0;
    }
    let start: usize = if char_offset <= GRAPHEME_WINDOW {
        0
    } else {
        char_offset - GRAPHEME_WINDOW
    };
    let s = buf.slice_to_string(start, char_offset);
    match outside_last_grapheme(s.as_str()) {
        Some(g) => {
            assert(s@.skip(s@.len() - g@.len()) =~= buf@.subrange(
                char_offset - g@.len(),
                char_offset as int,
            ));
            char_offset - g.unicode_len()
        },
        None => char_offset - 1,
    }
}

/// The boundaries around an offset are those of the cluster that begins there and of the
/// one that ends there, as the segmentation finds them among the nearest characters.
pub proof fn law_boundaries_are_clusters(s: Seq<char>, i: int)
    requires
        0 <= i <= s.len(),
    ensures
        i < s.len() ==> ({
            let ahead = s.subrange(
                i,
                if i + 32 <= s.len() {
                    i + 32
                } else {
                    s.len() as int
                },
            );
            let n = first_grapheme(ahead).len();
            0 < n <= ahead.len() ==> next_boundary(s, i) == i + n
        }),
        i > 0 ==> ({
            let behind = s.subrange(
                if i <= 32 {
                    0
                } else {
                    i - 32
                },
                i,
            );
            let n = last_grapheme(behind).len();
            0 < n <= behind.len() ==> prev_boundary(s, i) == i - n
        }),
        i == s.len() ==> next_boundary(s, i) == i,
        i == 0 ==> prev_boundary(s, i) == 0,
{
}

} // verus!
