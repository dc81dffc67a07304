//! Inline markers around a selection.

use crate::document::buffer::Buffer;
use vstd::prelude::*;
use vstd::string::*;

verus! {

/// `m` stands in `s` at index `i`.
pub open spec fn stands_at(s: Seq<char>, i: int, m: Seq<char>) -> bool {
    &&& 0 <= i
    &&& i + m.len() <= s.len()
    &&& s.subrange(i, i + m.len()) == m
}

/// `m` stands somewhere in `s`.
pub open spec fn occurs(s: Seq<char>, m: Seq<char>) -> bool {
    exists|i: int| stands_at(s, i, m)
}

/// The marker of bold text.
pub open spec fn bold() -> Seq<char> {
    seq!['*', '*']
}

/// `s` is `m`, some text, and `m`, with no further `m` in the text. A single `*`
/// does not count where `**` stands: that is bold text.
pub open spec fn wrapped(s: Seq<char>, m: Seq<char>) -> bool {
    &&& s.len() >= 2 * m.len()
    &&& stands_at(s, 0, m)
    &&& stands_at(s, s.len() - m.len(), m)
    &&& !(m == seq!['*'] && (stands_at(s, 0, bold()) || stands_at(s, s.len() - 2, bold())))
    &&& !occurs(s.subrange(m.len() as int, s.len() - m.len()), m)
}

/// `m` stands directly before `start` and directly from `end` on. A single `*`
/// does not count where another one stands beyond it.
pub open spec fn wrapped_outside(s: Seq<char>, start: int, end: int, m: Seq<char>) -> bool {
    &&& stands_at(s, start - m.len(), m)
    &&& stands_at(s, end, m)
    &&& !(m == seq!['*'] && ((start >= 2 && s[start - 2] == '*') || (end + 2 <= s.len() && s[end + 1]
        == '*')))
}

fn is_at(s: &[char], i: usize, m: &[char]) -> (r: bool)
    ensures
        r == stands_at(s@, i as int, m@),
{
    if i > s.len() || m.len() > s.len() - i {
        return false;
    }
    assert(s.len() == s@.len());
    let mut k: usize = 0;
    while k < m.len()
        invariant
            k <= m@.len(),
            i + m@.len() <= s@.len() <= usize::MAX,
            forall|j: int| 0 <= j < k ==> s@[i + j] == #[trigger] m@[j],
        decreases m@.len() - k,
    {
        if s[i + k] != m[k] {
            assert(s@.subrange(i as int, i + m@.len())[k as int] != m@[k as int]);
            return false;
        }
        k += 1;
    }
    assert(s@.subrange(i as int, i + m@.len()) =~= m@);
    true
}

/// True iff `m` stands in the part `from..to` of `s`.
fn is_in(s: &[char], from: usize, to: usize, m: &[char]) -> (r: bool)
    requires
        from <= to <= s@.len(),
        m@.len() > 0,
    ensures
        r == occurs(s@.subrange(from as int, to as int), m@),
{
    let ghost part = s@.subrange(from as int, to as int);
    let mut i: usize = from;
    while i < to && m.len() <= to - i
        invariant
            from <= i <= to <= s@.len(),
            m@.len() > 0,
            part == s@.subrange(from as int, to as int),
            forall|k: int| 0 <= k < i - from ==> !#[trigger] stands_at(part, k, m@),
        decreases to - i,
    {
        proof {
            assert(part.subrange(i - from, i - from + m@.len()) =~= s@.subrange(
                i as int,
                i + m@.len(),
            ));
        }
        if is_at(s, i, m) {
            assert(stands_at(part, i - from, m@));
            return true;
        }
        i += 1;
    }
    assert forall|k: int| !#[trigger] stands_at(part, k, m@) by {}
    false
}

fn is_star(m: &[char]) -> (r: bool)
    ensures
        r == (m@ == seq!['*']),
{
    let r: bool = m.len() == 1 && m[0] == '*';
    proof {
        if r {
            assert(m@ =~= seq!['*']);
        }
    }
    r
}

/// True iff `text` is exactly `marker`, some text and `marker`, so that unwrapping
/// it leaves no stray marker behind.
pub fn is_marker_wrapped(text: &[char], marker: &[char]) -> (r: bool)
    requires
        0 < marker@.len() <= 2,
    ensures
        r == wrapped(text@, marker@),
{
    let n: usize = text.len();
    let m: usize = marker.len();
    if n < 2 * m || !is_at(text, 0, marker) || !is_at(text, n - m, marker) {
        return false;
    }
    if is_star(marker) {
        let two: Vec<char> = vec!['*', '*'];
        assert(two@ =~= bold());
        if is_at(text, 0, two.as_slice()) || is_at(text, n - 2, two.as_slice()) {
            return false;
        }
    }
    !is_in(text, m, n - m, marker)
}

fn buffer_at(buf: &Buffer, i: usize, m: &[char]) -> (r: bool)
    ensures
        r == stands_at(buf@, i as int, m@),
{
    let len: usize = buf.len_chars();
    if i > len || m.len() > len - i {
        return false;
    }
    let mut k: usize = 0;
    while k < m.len()
        invariant
            k <= m@.len(),
            len == buf@.len(),
            i + m@.len() <= len,
            forall|j: int| 0 <= j < k ==> buf@[i + j] == #[trigger] m@[j],
        decreases m@.len() - k,
    {
        if buf.char_at(i + k) != m[k] {
            assert(buf@.subrange(i as int, i + m@.len())[k as int] != m@[k as int]);
            return false;
        }
        k += 1;
    }
    assert(buf@.subrange(i as int, i + m@.len()) =~= m@);
    true
}

/// True iff `marker` stands directly outside `start..end` on both sides.
pub fn outside_wrapped(buf: &Buffer, start: usize, end: usize, marker: &[char]) -> (r: bool)
    requires
        start <= end <= buf@.len(),
        0 < marker@.len() <= 2,
    ensures
        r == wrapped_outside(buf@, start as int, end as int, marker@),
{
    let m: usize = marker.len();
    let len: usize = buf.len_chars();
    if start < m || !buffer_at(buf, start - m, marker) || !buffer_at(buf, end, marker) {
        return false;
    }
    if is_star(marker) {
        let before: bool = start >= 2 && buf.char_at(start - 2) == '*';
        let after: bool = len - end >= 2 && buf.char_at(end + 1) == '*';
        if before || after {
            return false;
        }
    }
    true
}

/// The text that sets `reference` off as a paragraph of its own when it is
/// inserted at `offset`: a blank line before it, unless one is there, and a line
/// feed behind it, unless the line ends there.
pub open spec fn own_paragraph(s: Seq<char>, offset: int, reference: Seq<char>) -> Seq<char> {
    let at = if offset <= s.len() {
        offset
    } else {
        s.len() as int
    };
    let at_line_start = at == 0 || s[at - 1] == '\n';
    let above_blank = at < 2 || s[at - 2] == '\n';
    let lead: Seq<char> = if at_line_start && above_blank {
        Seq::empty()
    } else if at_line_start {
        seq!['\n']
    } else {
        seq!['\n', '\n']
    };
    let tail: Seq<char> = if at >= s.len() || s[at] != '\n' {
        seq!['\n']
    } else {
        Seq::empty()
    };
    lead + reference + tail
}

/// Sets `reference` off as a paragraph of its own.
///
/// An image is shown as a block only where it is all that its paragraph holds, so
/// a reference put against other text would stay a part of that text.
pub fn frame_own_paragraph(buffer: &Buffer, offset: usize, reference: &str) -> (r: String)
    ensures
        r@ == own_paragraph(buffer@, offset as int, reference@),
{
    let len: usize = buffer.len_chars();
    let at: usize = if offset <= len {
        offset
    } else {
        len
    };
    let at_line_start: bool = at == 0 || buffer.char_at(at - 1) == '\n';
    let above_blank: bool = at < 2 || buffer.char_at(at - 2) == '\n';
    let mut out: String = String::new();
    if !(at_line_start && above_blank) {
        out.push('\n');
        if !at_line_start {
            out.push('\n');
        }
    }
    out.append(reference);
    if at >= len || buffer.char_at(at) != '\n' {
        out.push('\n');
    }
    assert(out@ =~= own_paragraph(buffer@, offset as int, reference@));
    out
}

} // verus!
