//! Terminal cells: how wide characters are drawn, and which character stands at
//! a cell.

use vstd::prelude::*;

verus! {

/// The width that `unicode_width` gives a character; `None` for a control
/// character.
pub uninterp spec fn char_width(c: char) -> Option<usize>;

/// `unicode_width::UnicodeWidthChar::width`, the number of columns that a
/// character takes, under the name `char_width`.
#[verifier::external_body]
fn outside_width(c: char) -> (r: Option<usize>)
    ensures
        r == char_width(c),
{
    unicode_width::UnicodeWidthChar::width(c)
}

/// The cells that a character takes: none for a control character.
pub open spec fn cells(c: char) -> nat {
    match char_width(c) {
        Some(w) => w as nat,
        None => 0,
    }
}

/// The cells that a text takes.
pub open spec fn cells_of(s: Seq<char>) -> nat
    decreases s.len(),
{
    if s.len() == 0 {
        0
    } else {
        cells(s[0]) + cells_of(s.drop_first())
    }
}

/// `n`, or the largest offset where that is less.
pub open spec fn capped(n: nat) -> usize {
    if n <= usize::MAX {
        n as usize
    } else {
        usize::MAX
    }
}

/// The cells that `c` takes: 2 for wide characters, 0 for combining marks and
/// control characters.
pub fn char_cells(c: char) -> (n: usize)
    ensures
        n == cells(c),
{
    match outside_width(c) {
        Some(w) => w,
        None => 0,
    }
}

/// The cells that `s` takes.
pub fn text_cells(s: &str) -> (n: usize)
    ensures
        n == capped(cells_of(s@)),
{
    let mut it = s.chars();
    let mut acc: usize = 0;
    let ghost mut k: int = 0;
    let ghost mut sum: nat = 0;
    assert(s@.skip(0) =~= s@);
    loop
        invariant
            0 <= k <= s@.len(),
            vstd::std_specs::iter::IteratorSpec::remaining(&it) == s@.skip(k),
            acc == capped(sum),
            sum + cells_of(s@.skip(k)) == cells_of(s@),
        decreases s@.len() - k,
    {
        match it.next() {
            None => {
                return acc;
            },
            Some(c) => {
                let w: usize = char_cells(c);
                acc = if w <= usize::MAX - acc {
                    acc + w
                } else {
                    usize::MAX
                };
                proof {
                    assert(s@[k] == c);
                    assert(s@.skip(k).drop_first() =~= s@.skip(k + 1));
                    sum = sum + cells(c);
                    k = k + 1;
                }
            },
        }
    }
}

/// The index at or after `i`, and not past `end`, of the character on which the
/// cell `target` lands, when the cells before `i` are `acc`. Inside a wide
/// character it lands behind it.
pub open spec fn landing(s: Seq<char>, i: int, end: int, acc: nat, target: nat) -> int
    decreases end - i,
{
    if i >= end {
        end
    } else if acc + cells(s[i]) > target {
        if acc == target {
            i
        } else {
            i + 1
        }
    } else {
        landing(s, i + 1, end, acc + cells(s[i]), target)
    }
}

/// Where a cell lands lies in the range.
pub proof fn lemma_landing(s: Seq<char>, i: int, end: int, acc: nat, target: nat)
    requires
        i <= end,
    ensures
        i <= landing(s, i, end, acc, target) <= end,
    decreases end - i,
{
    if i < end && acc + cells(s[i]) <= target {
        lemma_landing(s, i + 1, end, acc + cells(s[i]), target);
    }
}

/// The index on which the cell `target` lands among the characters `from..end`
/// of `chars`.
pub fn landing_index(chars: &[char], from: usize, end: usize, target: usize) -> (r: usize)
    requires
        from <= end <= chars@.len(),
    ensures
        r == landing(chars@, from as int, end as int, 0, target as nat),
        from <= r <= end,
{
    let mut i: usize = from;
    let mut acc: usize = 0;
    while i < end
        invariant
            from <= i <= end <= chars@.len(),
            acc <= target,
            landing(chars@, i as int, end as int, acc as nat, target as nat) == landing(
                chars@,
                from as int,
                end as int,
                0,
                target as nat,
            ),
        decreases end - i,
    {
        let w: usize = char_cells(chars[i]);
        if w > target - acc {
            return if acc == target {
                i
            } else {
                i + 1
            };
        }
        acc += w;
        i += 1;
    }
    end
}

} // verus!
