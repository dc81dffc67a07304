//! Selecting words, emphasis and rendered text.

use crate::document::buffer::Buffer;
use crate::document::parsed_doc::RenderedLine;
use crate::document::selection::{CellBand, Selection, VisualSelection};
use crate::text;
use vstd::prelude::*;
use vstd::string::*;

verus! {

/// What `char::is_alphanumeric` answers.
pub uninterp spec fn char_alphanumeric(c: char) -> bool;

/// `char::is_alphanumeric`, by name.
#[verifier::external_body]
fn outside_alphanumeric(c: char) -> (r: bool)
    ensures
        r == char_alphanumeric(c),
{
    c.is_alphanumeric()
}

/// A character of a word: alphanumeric, or an underscore.
pub open spec fn word_char(c: char) -> bool {
    char_alphanumeric(c) || c == '_'
}

/// A character of a run of punctuation.
pub open spec fn mark_char(c: char) -> bool {
    !text::is_whitespace_char(c) && !word_char(c)
}

/// Which characters a run is made of.
pub open spec fn in_run(c: char, words: bool) -> bool {
    if words {
        word_char(c)
    } else {
        mark_char(c)
    }
}

/// Where the run that ends at `i` begins.
pub open spec fn run_start(s: Seq<char>, i: int, words: bool) -> int
    decreases i,
{
    if 0 < i <= s.len() && in_run(s[i - 1], words) {
        run_start(s, i - 1, words)
    } else {
        i
    }
}

/// Where the run that begins at `i` ends.
pub open spec fn run_end(s: Seq<char>, i: int, words: bool) -> int
    decreases s.len() - i,
{
    if 0 <= i < s.len() && in_run(s[i], words) {
        run_end(s, i + 1, words)
    } else {
        i
    }
}

/// The word around `at`, else the run of punctuation around it, else none.
pub open spec fn word_around(s: Seq<char>, at: int) -> Option<(int, int)> {
    let i = if at <= s.len() {
        at
    } else {
        s.len() as int
    };
    if run_start(s, i, true) != run_end(s, i, true) {
        Some((run_start(s, i, true), run_end(s, i, true)))
    } else if run_start(s, i, false) != run_end(s, i, false) {
        Some((run_start(s, i, false), run_end(s, i, false)))
    } else {
        None
    }
}

fn is_in_run(c: char, words: bool) -> (r: bool)
    ensures
        r == in_run(c, words),
{
    let word: bool = outside_alphanumeric(c) || c == '_';
    if words {
        word
    } else {
        !text::is_whitespace(c) && !word
    }
}

fn find_run(chars: &[char], at: usize, words: bool) -> (r: (usize, usize))
    requires
        at <= chars@.len(),
    ensures
        r.0 == run_start(chars@, at as int, words),
        r.1 == run_end(chars@, at as int, words),
        r.0 <= at <= r.1 <= chars@.len(),
{
    let mut start: usize = at;
    while start > 0 && is_in_run(chars[start - 1], words)
        invariant
            start <= at <= chars@.len(),
            run_start(chars@, start as int, words) == run_start(chars@, at as int, words),
        decreases start,
    {
        start -= 1;
    }
    let mut end: usize = at;
    while end < chars.len() && is_in_run(chars[end], words)
        invariant
            at <= end <= chars@.len(),
            run_end(chars@, end as int, words) == run_end(chars@, at as int, words),
        decreases chars@.len() - end,
    {
        end += 1;
    }
    (start, end)
}

/// The word around index `at`: alphanumeric characters and underscores first,
/// then a run of punctuation. `None` on whitespace with neither beside it.
pub fn word_range_around(chars: &[char], at: usize) -> (r: Option<(usize, usize)>)
    ensures
        match r {
            Some(w) => word_around(chars@, at as int) == Some((w.0 as int, w.1 as int)) && w.0 < w.1
                <= chars@.len(),
            None => word_around(chars@, at as int) is None,
        },
{
    let i: usize = if at <= chars.len() {
        at
    } else {
        chars.len()
    };
    let (start, end) = find_run(chars, i, true);
    if start != end {
        return Some((start, end));
    }
    let (start, end) = find_run(chars, i, false);
    if start != end {
        Some((start, end))
    } else {
        None
    }
}

/// `s` holds `mark` repeated `n` times directly before `start` and directly from
/// `end` on.
pub open spec fn marked(s: Seq<char>, start: int, end: int, mark: char, n: int) -> bool {
    &&& start >= n
    &&& end + n <= s.len()
    &&& forall|i: int| start - n <= i < start ==> #[trigger] s[i] == mark
    &&& forall|i: int| end <= i < end + n ==> #[trigger] s[i] == mark
}

/// How many characters the markers around `start..end` take on each side: two for
/// `**`, `__` and `~~`, one for `*`, `_` and a backtick, none otherwise.
pub open spec fn marker_len(s: Seq<char>, start: int, end: int) -> int {
    if marked(s, start, end, '*', 2) || marked(s, start, end, '_', 2) || marked(
        s,
        start,
        end,
        '~',
        2,
    ) {
        2
    } else if marked(s, start, end, '*', 1) || marked(s, start, end, '_', 1) || marked(
        s,
        start,
        end,
        '`',
        1,
    ) {
        1
    } else {
        0
    }
}

/// `sel` with the markers of the emphasis that it fills, if it lies on one line
/// and is not empty.
pub open spec fn expanded(s: Seq<char>, sel: Selection) -> Selection {
    let start = sel.low() as int;
    let end = sel.high() as int;
    let n = marker_len(s, start, end);
    if start >= end || s.subrange(start, end).contains('\n') {
        sel
    } else if sel.anchor <= sel.active {
        Selection { anchor: (start - n) as usize, active: (end + n) as usize }
    } else {
        Selection { anchor: (end + n) as usize, active: (start - n) as usize }
    }
}

fn is_marked(buffer: &Buffer, start: usize, end: usize, mark: char, n: usize) -> (r: bool)
    requires
        start <= end <= buffer@.len(),
        1 <= n <= 2,
    ensures
        r == marked(buffer@, start as int, end as int, mark, n as int),
{
    let ghost s = buffer@;
    let len: usize = buffer.len_chars();
    if start < n || n > len - end {
        return false;
    }
    if buffer.char_at(start - 1) != mark || buffer.char_at(end) != mark {
        assert(s[start - 1] != mark || s[end as int] != mark);
        return false;
    }
    if n == 2 {
        if buffer.char_at(start - 2) != mark || buffer.char_at(end + 1) != mark {
            assert(s[start - 2] != mark || s[end + 1] != mark);
            return false;
        }
    }
    true
}

/// Expands `sel` over a matching pair of inline markers around it, so that the
/// highlight covers what the element shows once its source is revealed. A
/// selection of more than one line stays as it is.
pub fn expand_selection_to_inline_markers(buffer: &Buffer, sel: Selection) -> (r: Selection)
    requires
        sel.anchor <= buffer@.len(),
        sel.active <= buffer@.len(),
    ensures
        r == expanded(buffer@, sel),
        r.anchor <= buffer@.len(),
        r.active <= buffer@.len(),
{
    let ghost s = buffer@;
    let (start, end) = sel.range();
    let len: usize = buffer.len_chars();
    if end <= start {
        return sel;
    }
    let mut i: usize = start;
    while i < end
        invariant
            s == buffer@,
            start <= i <= end <= s.len(),
            start == sel.low(),
            end == sel.high(),
            start < end,
            forall|k: int| start <= k < i ==> #[trigger] s[k] != '\n',
        decreases end - i,
    {
        if buffer.char_at(i) == '\n' {
            assert(s.subrange(start as int, end as int)[i - start] == '\n');
            return sel;
        }
        i += 1;
    }
    proof {
        if s.subrange(start as int, end as int).contains('\n') {
            let k = choose|k: int|
                0 <= k < end - start && s.subrange(start as int, end as int)[k] == '\n';
            assert(s[start + k] == '\n');
        }
    }
    let n: usize = if is_marked(buffer, start, end, '*', 2) || is_marked(buffer, start, end, '_', 2)
        || is_marked(buffer, start, end, '~', 2) {
        2
    } else if is_marked(buffer, start, end, '*', 1) || is_marked(buffer, start, end, '_', 1)
        || is_marked(buffer, start, end, '`', 1) {
        1
    } else {
        0
    };
    assert(end + n <= len);
    if sel.anchor <= sel.active {
        Selection { anchor: start - n, active: end + n }
    } else {
        Selection { anchor: end + n, active: start - n }
    }
}

/// The columns of rendered line `idx` that a selection takes whose first end is
/// `from`, and whose second end is on line `last` at column `end_col`.
pub open spec fn taken(
    line: Seq<char>,
    idx: int,
    from: (usize, usize),
    last: int,
    end_col: int,
    band: Option<CellBand>,
) -> (int, int) {
    let lo = if idx == from.0 {
        from.1 as int
    } else {
        0
    };
    let hi = if idx == last {
        end_col
    } else {
        line.len() as int
    };
    let (lo, hi) = match band {
        Some(b) => {
            let (blo, bhi) = b.columns(line);
            (
                if lo >= blo {
                    lo
                } else {
                    blo
                },
                if hi <= bhi {
                    hi
                } else {
                    bhi
                },
            )
        },
        None => (lo, hi),
    };
    (
        if lo <= line.len() {
            lo
        } else {
            line.len() as int
        },
        if hi <= line.len() {
            hi
        } else {
            line.len() as int
        },
    )
}

/// What a selection takes of one rendered line. In a band the padding at the end
/// is dropped.
pub open spec fn taken_text(
    line: Seq<char>,
    idx: int,
    from: (usize, usize),
    last: int,
    end_col: int,
    band: Option<CellBand>,
) -> Seq<char> {
    let (lo, hi) = taken(line, idx, from, last, end_col, band);
    if lo < hi {
        if band is Some {
            text::trimmed_end(line.subrange(lo, hi))
        } else {
            line.subrange(lo, hi)
        }
    } else {
        Seq::empty()
    }
}

/// What a selection takes of the rendered lines from the first one up to, and
/// without, line `upto`, each followed by its separator but the last.
pub open spec fn taken_lines(
    lines: Seq<RenderedLine>,
    from: (usize, usize),
    last: int,
    end_col: int,
    band: Option<CellBand>,
    upto: int,
) -> Seq<char>
    decreases upto - from.0,
{
    if upto <= from.0 {
        Seq::empty()
    } else {
        let idx = upto - 1;
        let rest = taken_lines(lines, from, last, end_col, band, idx) + taken_text(
            lines[idx]@,
            idx,
            from,
            last,
            end_col,
            band,
        );
        if idx < last {
            rest.push(
                if band is Some {
                    ' '
                } else {
                    '\n'
                },
            )
        } else {
            rest
        }
    }
}

/// The rendered text that a selection covers: the first and the last line are cut
/// at the selection's columns, and the lines are joined with line feeds.
///
/// With a band every line is cut to the cell, and the lines, which are the pieces
/// that one cell wraps into, are joined with a space.
pub open spec fn rendered_text(
    sel: VisualSelection,
    band: Option<CellBand>,
    lines: Seq<RenderedLine>,
) -> Seq<char> {
    let (from, to) = sel.span();
    if from.0 >= lines.len() {
        Seq::empty()
    } else {
        let last = if to.0 < lines.len() {
            to.0 as int
        } else {
            lines.len() - 1
        };
        taken_lines(lines, from, last, to.1 as int, band, last + 1)
    }
}

/// Appends what a selection takes of one line.
fn push_taken(out: &mut String, chars: &[char], lo: usize, hi: usize, banded: bool)
    requires
        lo <= chars@.len(),
        hi <= chars@.len(),
    ensures
        final(out)@ == old(out)@ + (if lo < hi {
            if banded {
                text::trimmed_end(chars@.subrange(lo as int, hi as int))
            } else {
                chars@.subrange(lo as int, hi as int)
            }
        } else {
            Seq::empty()
        }),
{
    if lo >= hi {
        assert(out@ + Seq::<char>::empty() =~= out@);
        return ;
    }
    let ghost s = chars@.subrange(lo as int, hi as int);
    let mut end: usize = hi;
    if banded {
        while end > lo && text::is_whitespace(chars[end - 1])
            invariant
                lo <= end <= hi <= chars@.len(),
                s == chars@.subrange(lo as int, hi as int),
                text::skip_whitespace_back(s, 0, end - lo) == text::skip_whitespace_back(
                    s,
                    0,
                    s.len() as int,
                ),
            decreases end,
        {
            assert(s[end - lo - 1] == chars@[end - 1]);
            end -= 1;
        }
        proof {
            if end > lo {
                assert(s[end - lo - 1] == chars@[end - 1]);
            }
            assert(s.take(end - lo) =~= chars@.subrange(lo as int, end as int));
        }
    }
    let mut i: usize = lo;
    let ghost before = out@;
    while i < end
        invariant
            lo <= i <= end <= chars@.len(),
            out@ == before + chars@.subrange(lo as int, i as int),
        decreases end - i,
    {
        out.push(chars[i]);
        i += 1;
        assert(out@ =~= before + chars@.subrange(lo as int, i as int));
    }
}

/// The rendered text that `sel` covers; see [`rendered_text`] for how lines are
/// cut and joined.
pub fn visual_selection_to_rendered_text(
    sel: VisualSelection,
    band: Option<CellBand>,
    lines: &[RenderedLine],
) -> (r: String)
    ensures
        r@ == rendered_text(sel, band, lines@),
{
    let (from, to) = sel.range();
    if from.0 >= lines.len() {
        return String::new();
    }
    let last: usize = if to.0 < lines.len() {
        to.0
    } else {
        lines.len() - 1
    };
    let mut out: String = String::new();
    let mut idx: usize = from.0;
    assert(lines.len() == lines@.len());
    while idx <= last
        invariant
            from.0 <= idx <= last + 1,
            from.0 <= last < lines@.len(),
            lines@.len() <= usize::MAX,
            out@ == taken_lines(lines@, from, last as int, to.1 as int, band, idx as int),
        decreases last + 1 - idx,
    {
        let line_text: String = lines[idx].text();
        let chars: Vec<char> = text::chars_of(line_text.as_str());
        let len: usize = chars.len();
        let mut lo: usize = if idx == from.0 {
            from.1
        } else {
            0
        };
        let mut hi: usize = if idx == last {
            to.1
        } else {
            len
        };
        match band {
            Some(b) => {
                let (blo, bhi) = b.char_cols(chars.as_slice());
                if lo < blo {
                    lo = blo;
                }
                if hi > bhi {
                    hi = bhi;
                }
            },
            None => {},
        }
        if lo > len {
            lo = len;
        }
        if hi > len {
            hi = len;
        }
        let ghost before = out@;
        push_taken(&mut out, chars.as_slice(), lo, hi, band.is_some());
        assert(out@ == before + taken_text(lines@[idx as int]@, idx as int, from, last as int, to.1 as int, band));
        if idx < last {
            out.push(
                if band.is_some() {
                    ' '
                } else {
                    '\n'
                },
            );
        }
        idx += 1;
    }
    out
}

} // verus!
