//! The parsed and rendered state of a document.

use crate::document::source_map;
use crate::document::source_map::SourceMap;
use crate::document::text_map::TextMap;
use crate::document::visual_cache;
use crate::document::visual_cache::VisualRowCache;
use crate::text;
use std::ops::Range;
use vstd::prelude::*;
use vstd::string::*;
use vstd::utf8::*;

verus! {

broadcast use {vstd::utf8::encode_utf8_valid_utf8, vstd::utf8::encode_utf8_decode_utf8};

/// Setext heading style, by the underline.
#[derive(Debug, Clone, Copy, PartialEq, Eq, Structural)]
pub enum SetextKind {
    /// Underlined with `=`.
    H1,
    /// Underlined with `-`.
    H2,
}

/// The first character that is no whitespace, at or after index `i`.
pub open spec fn first_visible(s: Seq<char>, i: int) -> Option<char>
    decreases s.len() - i,
{
    if 0 <= i < s.len() {
        if text::is_whitespace_char(s[i]) {
            first_visible(s, i + 1)
        } else {
            Some(s[i])
        }
    } else {
        None
    }
}

/// The first index at or after `i` that does not hold the byte `c`.
pub open spec fn run_end(line: Seq<u8>, c: u8, i: int) -> int
    decreases line.len() - i,
{
    if 0 <= i < line.len() && line[i] == c {
        run_end(line, c, i + 1)
    } else {
        i
    }
}

/// `line` is a run of `c` and nothing but whitespace behind it.
pub open spec fn underline_of(line: Seq<u8>, c: u8) -> bool {
    let e = run_end(line, c, 0);
    e > 0 && text::blank(line.subrange(e, line.len() as int))
}

/// The setext style of a block with these bytes: a line that is not blank and
/// does not begin with `#`, and below it an underline.
pub open spec fn setext_of(b: Seq<u8>) -> Option<SetextKind> {
    let e = text::line_end(b, 0);
    if e + 1 >= b.len() {
        None
    } else {
        let first = decode_utf8(b.subrange(0, e));
        let second = b.subrange(e + 1, text::line_end(b, e + 1));
        match first_visible(first, 0) {
            None => None,
            Some(c) => if c == '#' {
                None
            } else if underline_of(second, 61) {
                Some(SetextKind::H1)
            } else if underline_of(second, 45) {
                Some(SetextKind::H2)
            } else {
                None
            },
        }
    }
}

/// The first character of `s` that is no whitespace.
pub(crate) fn first_visible_char(s: &str) -> (r: Option<char>)
    ensures
        r == first_visible(s@, 0),
{
    let mut it = s.chars();
    let ghost mut n: int = 0;
    loop
        invariant
            0 <= n <= s@.len(),
            vstd::std_specs::iter::IteratorSpec::remaining(&it) == s@.skip(n),
            first_visible(s@, n) == first_visible(s@, 0),
        decreases s@.len() - n,
    {
        match it.next() {
            None => {
                return None;
            },
            Some(c) => {
                assert(s@[n] == c);
                if !text::is_whitespace(c) {
                    return Some(c);
                }
                proof {
                    assert(s@.skip(n).drop_first() =~= s@.skip(n + 1));
                    n = n + 1;
                }
            },
        }
    }
}

/// True iff `line` is a run of the ASCII byte `c` with only whitespace behind.
fn is_underline(line: &str, c: u8) -> (r: bool)
    requires
        c < 0x80,
    ensures
        r == underline_of(line.spec_bytes(), c),
{
    let bytes = line.as_bytes();
    let ghost b = line.spec_bytes();
    let mut e: usize = 0;
    while e < bytes.len() && bytes[e] == c
        invariant
            b == bytes@,
            e <= b.len(),
            e > 0 ==> b[e - 1] == c,
            run_end(b, c, e as int) == run_end(b, c, 0),
        decreases b.len() - e,
    {
        e += 1;
    }
    if e == 0 {
        return false;
    }
    proof {
        text::lemma_boundary(b, e as int);
        text::lemma_boundary(b, b.len() as int);
    }
    text::is_blank(text::slice(line, e, bytes.len()))
}

/// The setext style of a block: a line that is not blank and does not begin with
/// `#`, and below it a line of `=` or of `-`.
pub fn detect_setext(source: &str) -> (r: Option<SetextKind>)
    ensures
        r == setext_of(source.spec_bytes()),
{
    let bytes = source.as_bytes();
    let ghost b = source.spec_bytes();
    let len: usize = bytes.len();
    let e: usize = text::line_end_byte(bytes, 0);
    if e >= len || e + 1 >= len {
        return None;
    }
    let first = text::line_slice(source, 0, e);
    let e2: usize = text::line_end_byte(bytes, e + 1);
    let second = text::line_slice(source, e + 1, e2);
    match first_visible_char(first) {
        None => None,
        Some(c) => {
            if c == '#' {
                None
            } else if is_underline(second, 61) {
                Some(SetextKind::H1)
            } else if is_underline(second, 45) {
                Some(SetextKind::H2)
            } else {
                None
            }
        },
    }
}

// ── Heading anchors ──────────────────────────────────────────────────────
/// The lower case of a character, as Unicode has it.
pub uninterp spec fn char_lowercase(c: char) -> Seq<char>;

/// The lower case of an ASCII character.
pub open spec fn ascii_lowercase(c: char) -> char {
    if 'A' <= c <= 'Z' {
        ((c as u32) + 32) as char
    } else {
        c
    }
}

/// `char::to_lowercase`, under the name `char_lowercase`. An ASCII character has
/// one ASCII character as its lower case.
#[verifier::external_body]
fn outside_lowercase(c: char) -> (r: Vec<char>)
    ensures
        r@ == char_lowercase(c),
        c <= '\u{7f}' ==> r@ == seq![ascii_lowercase(c)],
{
    c.to_lowercase().collect()
}

/// The lower case of a text.
pub open spec fn lowercase_of(s: Seq<char>) -> Seq<char>
    decreases s.len(),
{
    if s.len() == 0 {
        Seq::empty()
    } else {
        lowercase_of(s.drop_last()) + char_lowercase(s.last())
    }
}

/// The text holds ASCII characters alone.
pub open spec fn is_ascii_text(s: Seq<char>) -> bool {
    forall|i: int| 0 <= i < s.len() ==> #[trigger] s[i] <= '\u{7f}'
}

/// The lower case of an ASCII text.
pub open spec fn ascii_lowercase_of(s: Seq<char>) -> Seq<char> {
    s.map_values(|c: char| ascii_lowercase(c))
}

/// ASCII letters, digits and the hyphen.
pub open spec fn slug_keeps(c: char) -> bool {
    ||| 'a' <= c <= 'z'
    ||| 'A' <= c <= 'Z'
    ||| '0' <= c <= '9'
    ||| c == '-'
}

/// The slug of a text in lower case: runs of whitespace become one hyphen, and
/// of the rest ASCII letters, digits and hyphens are kept.
pub open spec fn slug_of(s: Seq<char>) -> Seq<char>
    decreases s.len(),
{
    if s.len() == 0 {
        Seq::empty()
    } else {
        let c = s.last();
        let rest = slug_of(s.drop_last());
        if text::is_whitespace_char(c) {
            if s.len() > 1 && text::is_whitespace_char(s[s.len() - 2]) {
                rest
            } else {
                rest.push('-')
            }
        } else if slug_keeps(c) {
            rest.push(c)
        } else {
            rest
        }
    }
}

/// The slug of characters that are in lower case already.
pub fn slug_of_lowercase(lower: &Vec<char>) -> (r: String)
    ensures
        r@ == slug_of(lower@),
{
    let mut out: String = String::new();
    let mut prev_ws: bool = false;
    let mut i: usize = 0;
    assert(lower@.take(0) =~= Seq::empty());
    while i < lower.len()
        invariant
            i <= lower@.len(),
            out@ == slug_of(lower@.take(i as int)),
            prev_ws == (i > 0 && text::is_whitespace_char(lower@[i - 1])),
        decreases lower@.len() - i,
    {
        let c: char = lower[i];
        proof {
            assert(lower@.take(i + 1).drop_last() =~= lower@.take(i as int));
        }
        if text::is_whitespace(c) {
            if !prev_ws {
                out.push('-');
            }
            prev_ws = true;
        } else {
            prev_ws = false;
            if ('a' <= c && c <= 'z') || ('A' <= c && c <= 'Z') || ('0' <= c && c <= '9') || c == '-' {
                out.push(c);
            }
        }
        i += 1;
    }
    assert(lower@.take(lower@.len() as int) =~= lower@);
    out
}

/// The GitHub Flavored Markdown slug of `text`: in lower case, runs of
/// whitespace as one hyphen, and of the rest only ASCII letters, digits and
/// hyphens.
pub fn gfm_slug(text: &str) -> (r: String)
    ensures
        r@ == slug_of(lowercase_of(text@)),
        is_ascii_text(text@) ==> r@ == slug_of(ascii_lowercase_of(text@)),
{
    let mut lower: Vec<char> = Vec::new();
    let mut it = text.chars();
    let ghost mut n: int = 0;
    assert(text@.take(0) =~= Seq::empty());
    loop
        invariant
            0 <= n <= text@.len(),
            vstd::std_specs::iter::IteratorSpec::remaining(&it) == text@.skip(n),
            lower@ == lowercase_of(text@.take(n)),
            is_ascii_text(text@) ==> lower@ == ascii_lowercase_of(text@.take(n)),
        decreases text@.len() - n,
    {
        match it.next() {
            None => {
                assert(text@.take(n) =~= text@);
                return slug_of_lowercase(&lower);
            },
            Some(c) => {
                let mut low: Vec<char> = outside_lowercase(c);
                lower.append(&mut low);
                proof {
                    assert(text@[n] == c);
                    assert(text@.skip(n).drop_first() =~= text@.skip(n + 1));
                    assert(text@.take(n + 1).drop_last() =~= text@.take(n));
                    assert(lower@ =~= lowercase_of(text@.take(n + 1)));
                    if is_ascii_text(text@) {
                        assert(lower@ =~= ascii_lowercase_of(text@.take(n + 1)));
                    }
                    n = n + 1;
                }
            },
        }
    }
}

/// The number to try first for a base slug.
pub open spec fn times_used(counts: Map<Seq<char>, usize>, base: Seq<char>) -> int {
    if counts.dom().contains(base) {
        counts[base] as int
    } else {
        0
    }
}

/// The slug with number `n` for a heading whose text gives `base`: `base`, then
/// `base-1`, `base-2` and so on.
pub open spec fn nth_slug(base: Seq<char>, n: int) -> Seq<char> {
    if n == 0 {
        base
    } else {
        decode_utf8(encode_utf8(base) + seq![45u8] + text::decimal(n as nat))
    }
}

/// `n` is the first number from `times_used` on whose slug was not given out yet.
pub open spec fn is_next_number(counts: Map<Seq<char>, usize>, base: Seq<char>, n: int) -> bool {
    &&& times_used(counts, base) <= n
    &&& !counts.dom().contains(nth_slug(base, n))
    &&& forall|j: int|
        times_used(counts, base) <= j < n ==> counts.dom().contains(#[trigger] nth_slug(base, j))
}

/// The number that the next slug for `base` gets.
pub open spec fn next_number(counts: Map<Seq<char>, usize>, base: Seq<char>) -> int {
    choose|n: int| is_next_number(counts, base, n)
}

/// The slug that the next heading with this base slug gets.
pub open spec fn next_slug(counts: Map<Seq<char>, usize>, base: Seq<char>) -> Seq<char> {
    nth_slug(base, next_number(counts, base))
}

/// The slugs that were given out, when the next one for `base` is: each is mapped to
/// the number to try first when it is the base of another heading.
pub open spec fn with_next_slug(counts: Map<Seq<char>, usize>, base: Seq<char>) -> Map<
    Seq<char>,
    usize,
> {
    counts.insert(next_slug(counts, base), 1).insert(base, (next_number(counts, base) + 1) as usize)
}

/// The slugs for `base` with the numbers `from..to`.
spec fn slug_run(base: Seq<char>, from: int, to: int) -> Set<Seq<char>>
    decreases to - from,
{
    if from < to {
        slug_run(base, from, to - 1).insert(nth_slug(base, to - 1))
    } else {
        Set::empty()
    }
}

proof fn lemma_slug_run(base: Seq<char>, from: int, to: int)
    requires
        0 <= from <= to,
    ensures
        slug_run(base, from, to).finite(),
        slug_run(base, from, to).len() == to - from,
        forall|s: Seq<char>| #[trigger]
            slug_run(base, from, to).contains(s) ==> exists|j: int|
                from <= j < to && s == #[trigger] nth_slug(base, j),
    decreases to - from,
{
    if from < to {
        lemma_slug_run(base, from, to - 1);
        if slug_run(base, from, to - 1).contains(nth_slug(base, to - 1)) {
            let j = choose|j: int|
                from <= j < to - 1 && nth_slug(base, to - 1) == #[trigger] nth_slug(base, j);
            lemma_numbers_differ(base, j, to - 1);
        }
    }
}

/// A finite set holds no longer run of numbered slugs than it has members.
proof fn lemma_run_fits(dom: Set<Seq<char>>, base: Seq<char>, from: int, to: int)
    requires
        dom.finite(),
        0 <= from <= to,
        forall|j: int| from <= j < to ==> dom.contains(#[trigger] nth_slug(base, j)),
    ensures
        to - from <= dom.len(),
{
    lemma_slug_run(base, from, to);
    assert(slug_run(base, from, to).subset_of(dom));
    vstd::set_lib::lemma_len_subset(slug_run(base, from, to), dom);
}

proof fn lemma_some_next(counts: Map<Seq<char>, usize>, base: Seq<char>, n: int)
    requires
        counts.dom().finite(),
        times_used(counts, base) <= n,
        forall|j: int|
            times_used(counts, base) <= j < n ==> counts.dom().contains(
                #[trigger] nth_slug(base, j),
            ),
    ensures
        exists|k: int| is_next_number(counts, base, k),
    decreases times_used(counts, base) + counts.dom().len() + 1 - n,
{
    lemma_run_fits(counts.dom(), base, times_used(counts, base), n);
    if counts.dom().contains(nth_slug(base, n)) {
        lemma_some_next(counts, base, n + 1);
    } else {
        assert(is_next_number(counts, base, n));
    }
}

/// There is always a next slug, and it was not given out before. Its number is at
/// most as many above the first that is tried as slugs were given out.
pub proof fn lemma_next_number(counts: Map<Seq<char>, usize>, base: Seq<char>)
    requires
        counts.dom().finite(),
    ensures
        is_next_number(counts, base, next_number(counts, base)),
        next_number(counts, base) <= times_used(counts, base) + counts.dom().len(),
{
    lemma_some_next(counts, base, times_used(counts, base));
    lemma_run_fits(counts.dom(), base, times_used(counts, base), next_number(counts, base));
}

/// The slug with number `n` for `base`.
fn numbered_slug(base: &str, n: usize) -> (r: String)
    ensures
        r@ == nth_slug(base@, n as int),
{
    let mut slug: String = base.to_owned();
    if n > 0 {
        text::append_ascii(&mut slug, '-');
        text::append_number(&mut slug, n as u64);
        proof {
            assert(encode_utf8(slug@) =~= encode_utf8(base@) + seq![45u8] + text::decimal(n as nat));
            encode_utf8_decode_utf8(slug@);
        }
    }
    slug
}

/// The slug for a heading whose text gives `base`: with a number behind it if `base`
/// was given out before, and with a higher one if that slug was given out as well.
/// `counts` keeps the slugs that were given out, each with the number to try first
/// when it comes again.
pub fn uniquify_slug(base: &str, counts: &mut TextMap) -> (r: String)
    requires
        next_number(old(counts)@, base@) < usize::MAX,
    ensures
        r@ == next_slug(old(counts)@, base@),
        !old(counts)@.dom().contains(r@),
        final(counts)@ == with_next_slug(old(counts)@, base@),
{
    let ghost m = counts@;
    let ghost first = times_used(m, base@);
    let ghost last = next_number(m, base@);
    proof {
        counts.lemma_finite();
        lemma_next_number(m, base@);
    }
    let mut n: usize = match counts.get(base) {
        Some(n) => n,
        None => 0,
    };
    let mut slug: String = numbered_slug(base, n);
    while counts.get(slug.as_str()).is_some()
        invariant
            m == counts@,
            is_next_number(m, base@, last),
            first == times_used(m, base@),
            first <= n <= last < usize::MAX,
            slug@ == nth_slug(base@, n as int),
        decreases last - n,
    {
        n += 1;
        slug = numbered_slug(base, n);
    }
    assert(n == last);
    counts.insert(slug.clone(), 1);
    counts.insert(base.to_owned(), n + 1);
    slug
}

/// The slugs with different numbers for the same base are different.
pub proof fn lemma_numbers_differ(base: Seq<char>, m: int, n: int)
    requires
        0 <= m < n,
    ensures
        nth_slug(base, m) != nth_slug(base, n),
{
    let tail_n = seq![45u8] + text::decimal(n as nat);
    let full_n = encode_utf8(base) + seq![45u8] + text::decimal(n as nat);
    lemma_slug_valid(base, n);
    text::lemma_decimal(n as nat);
    decode_utf8_encode_utf8(full_n);
    if m == 0 {
        assert(encode_utf8(nth_slug(base, n)).len() > encode_utf8(base).len());
    } else {
        let full_m = encode_utf8(base) + seq![45u8] + text::decimal(m as nat);
        lemma_slug_valid(base, m);
        text::lemma_decimal(m as nat);
        decode_utf8_encode_utf8(full_m);
        if full_m == full_n {
            let k = encode_utf8(base).len() as int + 1;
            assert(full_m.skip(k) =~= text::decimal(m as nat));
            assert(full_n.skip(k) =~= text::decimal(n as nat));
            assert(text::digits_value(text::decimal(m as nat)) == m);
        }
    }
}

proof fn lemma_slug_valid(base: Seq<char>, n: int)
    requires
        0 < n,
    ensures
        valid_utf8(encode_utf8(base) + seq![45u8] + text::decimal(n as nat)),
{
    let tail = seq![45u8] + text::decimal(n as nat);
    text::lemma_decimal(n as nat);
    lemma_ascii_valid(tail);
    valid_utf8_concat(encode_utf8(base), tail);
    assert(encode_utf8(base) + tail =~= encode_utf8(base) + seq![45u8] + text::decimal(n as nat));
}

proof fn lemma_ascii_valid(b: Seq<u8>)
    requires
        forall|i: int| 0 <= i < b.len() ==> #[trigger] b[i] < 0x80,
    ensures
        valid_utf8(b),
    decreases b.len(),
{
    if b.len() > 0 {
        let rest = pop_first_scalar(b);
        assert forall|i: int| 0 <= i < rest.len() implies #[trigger] rest[i] < 0x80 by {
            assert(rest[i] == b[i + 1]);
        }
        lemma_ascii_valid(rest);
    }
}

// ── Ranges ───────────────────────────────────────────────────────────────
/// `end` without the line feeds before it, but not before `start`.
pub open spec fn without_newlines(b: Seq<u8>, start: int, end: int) -> int
    decreases end,
{
    if start < end && 0 < end <= b.len() && b[end - 1] == text::NEWLINE {
        without_newlines(b, start, end - 1)
    } else {
        end
    }
}

/// Where the block's content ends, before the line feeds that its range may
/// hold at its end.
pub open spec fn content_end(b: Seq<u8>, r: Range<usize>) -> int {
    without_newlines(
        b,
        r.start as int,
        if r.end <= b.len() {
            r.end as int
        } else {
            b.len() as int
        },
    )
}

/// Where the block's content ends, before the line feeds at its end.
pub fn content_end_of_block(source: &str, block: &Range<usize>) -> (r: usize)
    ensures
        r == content_end(source.spec_bytes(), *block),
        r <= source.spec_bytes().len(),
{
    let bytes = source.as_bytes();
    let ghost b = source.spec_bytes();
    let mut end: usize = if block.end <= bytes.len() {
        block.end
    } else {
        bytes.len()
    };
    while end > block.start && bytes[end - 1] == text::NEWLINE
        invariant
            b == bytes@,
            end <= b.len(),
            without_newlines(b, block.start as int, end as int) == content_end(b, *block),
        decreases end,
    {
        end -= 1;
    }
    end
}

/// The bytes that block `i` owns: from its start, or the start of the text for
/// the first, to the next block's start, or the end of the text for the last.
pub open spec fn extended_range(original: Seq<Range<usize>>, total: int, i: int) -> (int, int) {
    let end = if i + 1 < original.len() {
        original[i + 1].start as int
    } else if total >= original[i].end {
        total
    } else {
        original[i].end as int
    };
    let start = if i == 0 {
        0
    } else {
        original[i].start as int
    };
    (
        if start <= end {
            start
        } else {
            end
        },
        end,
    )
}

/// The bytes that each block owns. Without blocks the whole text is one.
pub fn build_extended_ranges(original: &Vec<Range<usize>>, total_bytes: usize) -> (r: Vec<
    Range<usize>,
>)
    ensures
        original@.len() == 0 ==> r@ == if total_bytes > 0 {
            seq![Range::<usize> { start: 0, end: total_bytes }]
        } else {
            Seq::empty()
        },
        original@.len() > 0 ==> {
            &&& r@.len() == original@.len()
            &&& forall|i: int|
                0 <= i < r@.len() ==> (
                (#[trigger] r@[i]).start as int,
                r@[i].end as int,
                ) == extended_range(original@, total_bytes as int, i)
        },
{
    let mut out: Vec<Range<usize>> = Vec::new();
    let n: usize = original.len();
    if n == 0 {
        if total_bytes > 0 {
            out.push(0..total_bytes);
        }
        assert(out@ =~= if total_bytes > 0 {
            seq![Range::<usize> { start: 0, end: total_bytes }]
        } else {
            Seq::empty()
        });
        return out;
    }
    let mut i: usize = 0;
    while i < n
        invariant
            n == original@.len(),
            i <= n,
            out@.len() == i,
            forall|k: int|
                0 <= k < i ==> ((#[trigger] out@[k]).start as int, out@[k].end as int)
                    == extended_range(original@, total_bytes as int, k),
        decreases n - i,
    {
        let end: usize = if i + 1 < n {
            original[i + 1].start
        } else if total_bytes >= original[i].end {
            total_bytes
        } else {
            original[i].end
        };
        let start: usize = if i == 0 {
            0
        } else {
            original[i].start
        };
        out.push(
            if start <= end {
                start
            } else {
                end
            }..end,
        );
        i += 1;
    }
    out
}

/// Where each block begins no sooner than the one before and no block reaches
/// past the text, the owned ranges follow one another and cover the text.
pub proof fn law_extended_ranges_cover(original: Seq<Range<usize>>, total: int)
    requires
        original.len() > 0,
        forall|i: int, j: int|
            0 <= i <= j < original.len() ==> (#[trigger] original[i]).start <= (
            #[trigger] original[j]).start,
        forall|i: int| 0 <= i < original.len() ==> (#[trigger] original[i]).start <= total,
        forall|i: int| 0 <= i < original.len() ==> (#[trigger] original[i]).end <= total,
    ensures
        extended_range(original, total, 0).0 == 0,
        extended_range(original, total, original.len() - 1).1 == total,
        forall|i: int|
            0 <= i < original.len() - 1 ==> (#[trigger] extended_range(original, total, i)).1
                == extended_range(original, total, i + 1).0,
        forall|i: int|
            0 <= i < original.len() ==> (#[trigger] extended_range(original, total, i)).0
                <= extended_range(original, total, i).1,
{
    assert forall|i: int| 0 <= i < original.len() - 1 implies (
    #[trigger] extended_range(original, total, i)).1 == extended_range(original, total, i + 1).0 by {
        assert(original[i + 1].start <= total);
        if i + 2 < original.len() {
            assert(original[i + 1].start <= original[i + 2].start);
        }
    }
}


// ── Blocks and rendered lines ────────────────────────────────────────────
/// How a span of a rendered line is drawn, as far as the editor reads it.
#[derive(Debug, Clone, Copy, PartialEq, Eq, Structural)]
pub enum SpanStyle {
    /// No style of its own.
    Plain,
    /// The style that the renderer gives links.
    Link,
    /// The style that the renderer gives rules.
    Rule,
    /// Any other style, by the renderer's own number.
    Other(u32),
}

/// A run of characters of a rendered line with one style.
#[derive(Debug, Clone, PartialEq, Eq)]
pub struct Span {
    pub content: String,
    pub style: SpanStyle,
}

/// A rendered line.
#[derive(Debug, Clone, PartialEq, Eq)]
pub struct RenderedLine {
    pub spans: Vec<Span>,
}

/// The characters of the first `n` spans.
pub open spec fn span_chars(spans: Seq<Span>, n: int) -> Seq<char>
    decreases n,
{
    if n <= 0 {
        Seq::empty()
    } else {
        span_chars(spans, n - 1) + spans[n - 1].content@
    }
}

impl View for RenderedLine {
    type V = Seq<char>;

    /// The characters of the line.
    open spec fn view(&self) -> Seq<char> {
        span_chars(self.spans@, self.spans@.len() as int)
    }
}

impl RenderedLine {
    /// The empty line.
    pub fn blank() -> (r: Self)
        ensures
            r.spans@.len() == 0,
            r@ == Seq::<char>::empty(),
    {
        RenderedLine { spans: Vec::new() }
    }

    /// A rule of `width` cells.
    pub fn rule(width: usize) -> (r: Self)
        ensures
            is_rule(r, width as nat),
    {
        let mut content: String = String::new();
        let mut i: usize = 0;
        assert(content@ =~= Seq::new(0, |k: int| '\u{2500}'));
        while i < width
            invariant
                i <= width,
                content@ == Seq::new(i as nat, |k: int| '\u{2500}'),
            decreases width - i,
        {
            content.push('\u{2500}');
            i += 1;
            assert(content@ =~= Seq::new(i as nat, |k: int| '\u{2500}'));
        }
        let mut spans: Vec<Span> = Vec::new();
        spans.push(Span { content, style: SpanStyle::Rule });
        RenderedLine { spans }
    }

    /// The characters of the line.
    pub fn text(&self) -> (r: String)
        ensures
            r@ == self@,
    {
        let mut out: String = String::new();
        let mut i: usize = 0;
        while i < self.spans.len()
            invariant
                i <= self.spans@.len(),
                out@ == span_chars(self.spans@, i as int),
            decreases self.spans@.len() - i,
        {
            out.append(self.spans[i].content.as_str());
            i += 1;
        }
        out
    }
}

/// `line` is a rule of `width` cells.
pub open spec fn is_rule(line: RenderedLine, width: nat) -> bool {
    &&& line.spans@.len() == 1
    &&& line.spans@[0].content@ == Seq::new(width, |k: int| '\u{2500}')
    &&& line.spans@[0].style == SpanStyle::Rule
}

/// The source of a diagram that is shown as an image.
#[derive(Debug, Clone, PartialEq, Eq)]
pub enum DiagramSource {
    /// The text of a mermaid block.
    Mermaid(String),
    /// The text of a display formula.
    Latex(String),
}

/// The source of a diagram as a value.
pub enum DiagramView {
    Mermaid(Seq<char>),
    Latex(Seq<char>),
}

impl View for DiagramSource {
    type V = DiagramView;

    open spec fn view(&self) -> DiagramView {
        match self {
            DiagramSource::Mermaid(t) => DiagramView::Mermaid(t@),
            DiagramSource::Latex(t) => DiagramView::Latex(t@),
        }
    }
}

impl DiagramSource {
    /// A copy of the source.
    fn copy(&self) -> (r: Self)
        ensures
            r@ == self@,
    {
        match self {
            DiagramSource::Mermaid(t) => DiagramSource::Mermaid(t.clone()),
            DiagramSource::Latex(t) => DiagramSource::Latex(t.clone()),
        }
    }
}

/// A block of the document, with what the editor reads of it.
#[derive(Debug, Clone, PartialEq, Eq)]
pub enum Block {
    /// A heading of level 1 to 6, with its text as plain text.
    Heading { level: u8, text: String },
    Paragraph,
    /// A paragraph that holds one display formula and nothing else.
    DisplayMath,
    CodeBlock { fenced: bool },
    List,
    /// A table, with the column widths that the user gave it.
    Table { user_widths: Option<Vec<Option<usize>>> },
    Html,
    /// An HTML comment, with the column widths that its text names, if it names
    /// some.
    HtmlComment { column_widths: Option<Vec<Option<usize>>> },
    HorizontalRule,
    /// An image on its own, or a diagram shown as one, with the diagram's source.
    ImageBlock { alt: String, url: String, diagram: Option<DiagramSource> },
    FootnoteDefinition { label: String },
    MetadataBlock,
    Other,
}

/// Metadata of an image block.
#[derive(Debug, Clone)]
pub struct ImageBlockInfo {
    /// The block's index in the source map.
    pub block_idx: usize,
    pub alt: String,
    pub url: String,
    /// The source of the diagram that is shown as this image.
    pub source: Option<DiagramSource>,
}

/// The image is a mermaid diagram.
pub open spec fn is_mermaid(info: ImageBlockInfo) -> bool {
    info.source matches Some(d) && d is Mermaid
}

/// The image is a display formula.
pub open spec fn is_latex(info: ImageBlockInfo) -> bool {
    info.source matches Some(d) && d is Latex
}

/// A table without widths of its own, and a comment that names some.
pub open spec fn is_widths_pair(table: Block, comment: Block) -> bool {
    &&& table matches Block::Table { user_widths } && user_widths is None
    &&& comment matches Block::HtmlComment { column_widths } && column_widths is Some
}

/// A block and the range that it was parsed from.
pub struct Placed {
    pub block: Block,
    pub start: int,
    pub end: int,
}

/// A table with these widths.
pub open spec fn table_with(block: Block, widths: Seq<Option<usize>>) -> bool {
    match block {
        Block::Table { user_widths: Some(w) } => w@ == widths,
        _ => false,
    }
}

/// The widths that a comment names.
pub open spec fn comment_widths(block: Block) -> Seq<Option<usize>> {
    match block {
        Block::HtmlComment { column_widths: Some(w) } => w@,
        _ => Seq::empty(),
    }
}

/// `out` is `inp` with each comment that names column widths joined to the table
/// above it, if that has none yet: the comment is gone, its widths are the
/// table's, and the table's range ends where the comment's did.
pub open spec fn comments_joined(inp: Seq<Placed>, i: int, out: Seq<Placed>, o: int) -> bool
    decreases inp.len() - i,
{
    if i >= inp.len() {
        o == out.len()
    } else if o >= out.len() {
        false
    } else if i + 1 < inp.len() && is_widths_pair(inp[i].block, inp[i + 1].block) {
        &&& table_with(out[o].block, comment_widths(inp[i + 1].block))
        &&& out[o].start == inp[i].start
        &&& out[o].end == inp[i + 1].end
        &&& comments_joined(inp, i + 2, out, o + 1)
    } else {
        &&& out[o] == inp[i]
        &&& comments_joined(inp, i + 1, out, o + 1)
    }
}

/// The blocks with their ranges.
pub open spec fn placed(blocks: Seq<Block>, ranges: Seq<Range<usize>>) -> Seq<Placed> {
    Seq::new(
        blocks.len(),
        |i: int|
            Placed { block: blocks[i], start: ranges[i].start as int, end: ranges[i].end as int },
    )
}

/// Joins comments that name column widths to the tables above them, and keeps
/// blocks and ranges side by side.
pub fn merge_trailing_tui_columns_comments(blocks: Vec<Block>, real_ranges: Vec<Range<usize>>) -> (r:
    (Vec<Block>, Vec<Range<usize>>))
    requires
        blocks@.len() == real_ranges@.len(),
    ensures
        r.0@.len() == r.1@.len(),
        comments_joined(placed(blocks@, real_ranges@), 0, placed(r.0@, r.1@), 0),
{
    let ghost inp = placed(blocks@, real_ranges@);
    let mut blocks = blocks;
    let n: usize = blocks.len();
    let ghost blocks0 = blocks@;
    let mut out: Vec<Block> = Vec::new();
    let mut ranges: Vec<Range<usize>> = Vec::new();
    let mut i: usize = 0;
    let ghost mut starts: Seq<int> = Seq::empty();
    while i < n
        invariant
            n == blocks@.len(),
            n == blocks0.len(),
            n == real_ranges@.len(),
            inp == placed(blocks0, real_ranges@),
            i <= n,
            forall|k: int| i <= k < n ==> blocks@[k] == blocks0[k],
            out@.len() == ranges@.len(),
            joined_prefix(inp, i as int, placed(out@, ranges@), 0, 0),
        decreases n - i,
    {
        let ghost before = placed(out@, ranges@);
        let mut first: Block = Block::Other;
        blocks.set_and_swap(i, &mut first);
        let mut second: Block = Block::Other;
        let mut joined: bool = false;
        if i + 1 < n {
            let is_table: bool = match &first {
                Block::Table { user_widths } => user_widths.is_none(),
                _ => false,
            };
            let is_comment: bool = match &blocks[i + 1] {
                Block::HtmlComment { column_widths } => column_widths.is_some(),
                _ => false,
            };
            if is_table && is_comment {
                joined = true;
            }
        }
        if joined {
            blocks.set_and_swap(i + 1, &mut second);
            assert(is_widths_pair(inp[i as int].block, inp[i + 1].block));
            let ghost comment = second;
            let widths: Option<Vec<Option<usize>>> = match second {
                Block::HtmlComment { column_widths } => column_widths,
                _ => None,
            };
            out.push(Block::Table { user_widths: widths });
            ranges.push(real_ranges[i].start..real_ranges[i + 1].end);
            proof {
                let after = placed(out@, ranges@);
                assert(after.drop_last() =~= before);
                assert(after.take(before.len() as int) =~= before);
                lemma_joined_prefix_pair(inp, i as int, before, after, 0, 0);
            }
            i += 2;
        } else {
            out.push(first);
            ranges.push(real_ranges[i].start..real_ranges[i].end);
            proof {
                let after = placed(out@, ranges@);
                assert(after.take(before.len() as int) =~= before);
                assert(after.last() == inp[i as int]);
                lemma_joined_prefix_one(inp, i as int, before, after, 0, 0);
            }
            i += 1;
        }
    }
    proof {
        lemma_joined_prefix_done(inp, n as int, placed(out@, ranges@), 0, 0);
    }
    (out, ranges)
}

/// `out` from index `o` on is what the blocks `i..stop` become.
spec fn joined_prefix(inp: Seq<Placed>, stop: int, out: Seq<Placed>, i: int, o: int) -> bool
    decreases stop + inp.len() - i,
{
    if i >= stop {
        i == stop && o == out.len()
    } else if o >= out.len() {
        false
    } else if 0 <= i && i + 1 < inp.len() && is_widths_pair(inp[i].block, inp[i + 1].block) {
        &&& table_with(out[o].block, comment_widths(inp[i + 1].block))
        &&& out[o].start == inp[i].start
        &&& out[o].end == inp[i + 1].end
        &&& joined_prefix(inp, stop, out, i + 2, o + 1)
    } else {
        &&& out[o] == inp[i]
        &&& joined_prefix(inp, stop, out, i + 1, o + 1)
    }
}

proof fn lemma_joined_prefix_one(
    inp: Seq<Placed>,
    stop: int,
    before: Seq<Placed>,
    after: Seq<Placed>,
    i: int,
    o: int,
)
    requires
        0 <= i <= stop < inp.len(),
        0 <= o <= before.len(),
        joined_prefix(inp, stop, before, i, o),
        after.len() == before.len() + 1,
        after.take(before.len() as int) == before,
        after.last() == inp[stop],
        !(stop + 1 < inp.len() && is_widths_pair(inp[stop].block, inp[stop + 1].block)),
    ensures
        joined_prefix(inp, stop + 1, after, i, o),
    decreases stop - i,
{
    if i < stop {
        assert(before[o] == after.take(before.len() as int)[o]);
        if i + 1 < inp.len() && is_widths_pair(inp[i].block, inp[i + 1].block) {
            lemma_joined_prefix_bound(inp, stop, before, i + 2, o + 1);
            lemma_joined_prefix_one(inp, stop, before, after, i + 2, o + 1);
        } else {
            lemma_joined_prefix_one(inp, stop, before, after, i + 1, o + 1);
        }
    } else {
        assert(joined_prefix(inp, stop + 1, after, i + 1, o + 1));
    }
}

proof fn lemma_joined_prefix_bound(inp: Seq<Placed>, stop: int, out: Seq<Placed>, i: int, o: int)
    requires
        joined_prefix(inp, stop, out, i, o),
    ensures
        i <= stop,
{
}

proof fn lemma_joined_prefix_pair(
    inp: Seq<Placed>,
    stop: int,
    before: Seq<Placed>,
    after: Seq<Placed>,
    i: int,
    o: int,
)
    requires
        0 <= i <= stop,
        stop + 1 < inp.len(),
        0 <= o <= before.len(),
        joined_prefix(inp, stop, before, i, o),
        after.len() == before.len() + 1,
        after.take(before.len() as int) == before,
        is_widths_pair(inp[stop].block, inp[stop + 1].block),
        table_with(after.last().block, comment_widths(inp[stop + 1].block)),
        after.last().start == inp[stop].start,
        after.last().end == inp[stop + 1].end,
    ensures
        joined_prefix(inp, stop + 2, after, i, o),
    decreases stop - i,
{
    if i < stop {
        assert(before[o] == after.take(before.len() as int)[o]);
        if i + 1 < inp.len() && is_widths_pair(inp[i].block, inp[i + 1].block) {
            lemma_joined_prefix_bound(inp, stop, before, i + 2, o + 1);
            lemma_joined_prefix_pair(inp, stop, before, after, i + 2, o + 1);
        } else {
            lemma_joined_prefix_pair(inp, stop, before, after, i + 1, o + 1);
        }
    } else {
        assert(joined_prefix(inp, stop + 2, after, i + 2, o + 1));
    }
}

proof fn lemma_joined_prefix_done(inp: Seq<Placed>, stop: int, out: Seq<Placed>, i: int, o: int)
    requires
        0 <= i,
        stop == inp.len(),
        joined_prefix(inp, stop, out, i, o),
    ensures
        comments_joined(inp, i, out, o),
    decreases stop - i,
{
    if i < stop {
        if i + 1 < inp.len() && is_widths_pair(inp[i].block, inp[i + 1].block) {
            lemma_joined_prefix_done(inp, stop, out, i + 2, o + 1);
        } else {
            lemma_joined_prefix_done(inp, stop, out, i + 1, o + 1);
        }
    }
}

/// A copy of column widths.
pub(crate) fn copy_widths(widths: &Vec<Option<usize>>) -> (r: Vec<Option<usize>>)
    ensures
        r@ == widths@,
{
    let mut out: Vec<Option<usize>> = Vec::new();
    let mut i: usize = 0;
    while i < widths.len()
        invariant
            i <= widths@.len(),
            out@ == widths@.take(i as int),
        decreases widths@.len() - i,
    {
        out.push(widths[i]);
        i += 1;
        assert(out@ =~= widths@.take(i as int));
    }
    assert(out@ =~= widths@);
    out
}

/// Gives the table whose range begins at `override_start` the widths of a column
/// drag that is still going on.
pub fn apply_live_table_widths(
    blocks: &mut Vec<Block>,
    real_ranges: &Vec<Range<usize>>,
    override_start: usize,
    widths: &Vec<Option<usize>>,
)
    ensures
        final(blocks)@.len() == old(blocks)@.len(),
        forall|i: int|
            0 <= i < old(blocks)@.len() ==> if i < real_ranges@.len() && real_ranges@[i].start
                == override_start && old(blocks)@[i] is Table {
                table_with(#[trigger] final(blocks)@[i], widths@)
            } else {
                final(blocks)@[i] == old(blocks)@[i]
            },
{
    let ghost b0 = blocks@;
    let mut i: usize = 0;
    while i < blocks.len() && i < real_ranges.len()
        invariant
            b0 == old(blocks)@,
            blocks@.len() == b0.len(),
            i <= blocks@.len(),
            i <= real_ranges@.len(),
            forall|k: int|
                0 <= k < b0.len() ==> if k < i && real_ranges@[k].start == override_start
                    && b0[k] is Table {
                    table_with(#[trigger] blocks@[k], widths@)
                } else {
                    blocks@[k] == b0[k]
                },
        decreases blocks@.len() - i,
    {
        if real_ranges[i].start == override_start {
            let is_table: bool = matches!(&blocks[i], Block::Table { .. });
            if is_table {
                blocks.set(i, Block::Table { user_widths: Some(copy_widths(widths)) });
            }
        }
        i += 1;
    }
}


/// The column widths of a drag that is still going on, and where their table begins.
pub struct LiveWidths {
    pub start: int,
    pub widths: Seq<Option<usize>>,
}

/// A table that begins at `start` is under the drag.
pub open spec fn is_live(live: Option<LiveWidths>, start: int) -> bool {
    live matches Some(l) && l.start == start
}

/// `out` from index `o` on is what the blocks of `inp` from `i` on are shown as. A comment
/// that names column widths is joined to the table above it, if that has none of its
/// own, and the table's range ends where the comment's did. Then the table under the drag
/// has the widths of the drag, whether a comment was joined to it or not.
pub open spec fn settled(
    inp: Seq<Placed>,
    i: int,
    live: Option<LiveWidths>,
    out: Seq<Placed>,
    o: int,
) -> bool
    decreases inp.len() - i,
{
    if i >= inp.len() {
        o == out.len()
    } else if o >= out.len() {
        false
    } else if i + 1 < inp.len() && is_widths_pair(inp[i].block, inp[i + 1].block) {
        &&& table_with(
            out[o].block,
            if is_live(live, inp[i].start) {
                (live->0).widths
            } else {
                comment_widths(inp[i + 1].block)
            },
        )
        &&& out[o].start == inp[i].start
        &&& out[o].end == inp[i + 1].end
        &&& settled(inp, i + 2, live, out, o + 1)
    } else {
        &&& if is_live(live, inp[i].start) && inp[i].block is Table {
            table_with(out[o].block, (live->0).widths)
        } else {
            out[o].block == inp[i].block
        }
        &&& out[o].start == inp[i].start
        &&& out[o].end == inp[i].end
        &&& settled(inp, i + 1, live, out, o + 1)
    }
}

/// `out` is `joined` with the widths of a drag on the table that they are of.
spec fn widths_put(joined: Seq<Placed>, live: Option<LiveWidths>, out: Seq<Placed>) -> bool {
    &&& out.len() == joined.len()
    &&& forall|k: int|
        0 <= k < out.len() ==> {
            &&& (#[trigger] out[k]).start == joined[k].start
            &&& out[k].end == joined[k].end
            &&& if is_live(live, joined[k].start) && joined[k].block is Table {
                table_with(out[k].block, (live->0).widths)
            } else {
                out[k].block == joined[k].block
            }
        }
}

proof fn lemma_settled(
    inp: Seq<Placed>,
    i: int,
    live: Option<LiveWidths>,
    joined: Seq<Placed>,
    out: Seq<Placed>,
    o: int,
)
    requires
        0 <= i,
        0 <= o,
        comments_joined(inp, i, joined, o),
        widths_put(joined, live, out),
    ensures
        settled(inp, i, live, out, o),
    decreases inp.len() - i,
{
    if i < inp.len() {
        assert(out[o].start == joined[o].start);
        if i + 1 < inp.len() && is_widths_pair(inp[i].block, inp[i + 1].block) {
            lemma_settled(inp, i + 2, live, joined, out, o + 1);
        } else {
            lemma_settled(inp, i + 1, live, joined, out, o + 1);
        }
    }
}

/// Brings parsed blocks into the form in which they are rendered: joins comments that
/// name column widths to the tables above them, and then gives the table whose range
/// begins at `live.0` the widths `live.1` of a drag that is still going on. The comment
/// of that table is joined to it first, so that it does not show during the drag.
pub fn settle_blocks(
    blocks: Vec<Block>,
    real_ranges: Vec<Range<usize>>,
    live: Option<&(usize, Vec<Option<usize>>)>,
) -> (r: (Vec<Block>, Vec<Range<usize>>))
    requires
        blocks@.len() == real_ranges@.len(),
    ensures
        r.0@.len() == r.1@.len(),
        settled(
            placed(blocks@, real_ranges@),
            0,
            match live {
                Some(l) => Some(LiveWidths { start: l.0 as int, widths: l.1@ }),
                None => None,
            },
            placed(r.0@, r.1@),
            0,
        ),
{
    let ghost inp = placed(blocks@, real_ranges@);
    let (mut out, ranges) = merge_trailing_tui_columns_comments(blocks, real_ranges);
    let ghost joined = placed(out@, ranges@);
    match live {
        Some(l) => {
            apply_live_table_widths(&mut out, &ranges, l.0, &l.1);
            proof {
                let lw = Some(LiveWidths { start: l.0 as int, widths: l.1@ });
                assert(widths_put(joined, lw, placed(out@, ranges@)));
                lemma_settled(inp, 0, lw, joined, placed(out@, ranges@), 0);
            }
        },
        None => {
            proof {
                assert(widths_put(joined, None, placed(out@, ranges@)));
                lemma_settled(inp, 0, None, joined, placed(out@, ranges@), 0);
            }
        },
    }
    (out, ranges)
}

proof fn lemma_settled_alike(
    inp: Seq<Placed>,
    i: int,
    a: Option<LiveWidths>,
    b: Option<LiveWidths>,
    x: Seq<Placed>,
    y: Seq<Placed>,
    o: int,
)
    requires
        0 <= i,
        0 <= o,
        settled(inp, i, a, x, o),
        settled(inp, i, b, y, o),
    ensures
        x.len() == y.len(),
        forall|k: int|
            o <= k < x.len() ==> {
                &&& (#[trigger] x[k]).start == y[k].start
                &&& x[k].end == y[k].end
                &&& (x[k].block is Table) == (y[k].block is Table)
                &&& x[k].block == y[k].block || x[k].block is Table
            },
    decreases inp.len() - i,
{
    if i < inp.len() {
        if i + 1 < inp.len() && is_widths_pair(inp[i].block, inp[i + 1].block) {
            lemma_settled_alike(inp, i + 2, a, b, x, y, o + 1);
        } else {
            lemma_settled_alike(inp, i + 1, a, b, x, y, o + 1);
        }
    }
}

/// A drag of column widths changes nothing but widths: the blocks that are shown, and
/// their ranges, are those that are shown without it.
pub proof fn law_live_widths_change_widths_alone(
    inp: Seq<Placed>,
    live: Option<LiveWidths>,
    during: Seq<Placed>,
    after: Seq<Placed>,
)
    requires
        settled(inp, 0, live, during, 0),
        settled(inp, 0, None, after, 0),
    ensures
        during.len() == after.len(),
        forall|k: int|
            0 <= k < during.len() ==> {
                &&& (#[trigger] during[k]).start == after[k].start
                &&& during[k].end == after[k].end
                &&& (during[k].block is Table) == (after[k].block is Table)
                &&& during[k].block == after[k].block || during[k].block is Table
            },
{
    lemma_settled_alike(inp, 0, live, None, during, after, 0);
}

/// The block at `k` of `inp` is a comment that belongs to the table above it.
pub open spec fn is_trailing_comment(inp: Seq<Placed>, k: int) -> bool {
    0 < k < inp.len() && is_widths_pair(inp[k - 1].block, inp[k].block)
}

proof fn lemma_comments_left(
    inp: Seq<Placed>,
    i: int,
    live: Option<LiveWidths>,
    out: Seq<Placed>,
    o: int,
    p: int,
)
    requires
        0 <= i,
        0 <= o <= p < out.len(),
        settled(inp, i, live, out, o),
        !is_trailing_comment(inp, i),
        out[p].block is HtmlComment,
    ensures
        exists|k: int|
            i <= k < inp.len() && #[trigger] inp[k] == out[p] && !is_trailing_comment(inp, k),
    decreases inp.len() - i,
{
    if i + 1 < inp.len() && is_widths_pair(inp[i].block, inp[i + 1].block) {
        lemma_comments_left(inp, i + 2, live, out, o + 1, p);
    } else if p > o {
        lemma_comments_left(inp, i + 1, live, out, o + 1, p);
    } else {
        assert(inp[i] == out[p]);
    }
}

/// No comment that names the widths of the table above it is shown, also not while that
/// table has the widths of a drag: each comment that is shown is another one.
pub proof fn law_widths_comments_are_hidden(
    inp: Seq<Placed>,
    live: Option<LiveWidths>,
    out: Seq<Placed>,
    p: int,
)
    requires
        settled(inp, 0, live, out, 0),
        0 <= p < out.len(),
        out[p].block is HtmlComment,
    ensures
        exists|k: int|
            0 <= k < inp.len() && #[trigger] inp[k] == out[p] && !is_trailing_comment(inp, k),
{
    lemma_comments_left(inp, 0, live, out, 0, p);
}


// ── Assembly ─────────────────────────────────────────────────────────────
/// Where a line of the document comes from.
pub enum LineSource {
    /// The rendered line with this index.
    Rendered(int),
    /// A blank line of the source.
    Blank,
    /// The rule under a setext heading.
    Rule,
}

/// A block of the source map: its range, how many lines it counts as its own,
/// and the lines that it is shown as.
pub struct MapBlock {
    pub start: int,
    pub end: int,
    pub own: int,
    pub shown: Seq<LineSource>,
}

/// What a document is built from.
pub struct Parts {
    /// The bytes of the source.
    pub b: Seq<u8>,
    /// The range of each parsed block.
    pub ranges: Seq<Range<usize>>,
    /// How many lines each parsed block was rendered as.
    pub counts: Seq<usize>,
    /// How many rendered lines there are.
    pub rendered: int,
    /// Whether every blank line is shown.
    pub preserve: bool,
}

/// The parts of a document.
pub open spec fn parts_of(
    b: Seq<u8>,
    ranges: Seq<Range<usize>>,
    counts: Seq<usize>,
    rendered: int,
    preserve: bool,
) -> Parts {
    Parts { b, ranges, counts, rendered, preserve }
}

/// The block of the blank line at byte `p`.
pub open spec fn blank_block(p: int, emit: bool) -> MapBlock {
    MapBlock {
        start: p,
        end: p + 1,
        own: if emit {
            1
        } else {
            0
        },
        shown: if emit {
            seq![LineSource::Blank]
        } else {
            Seq::empty()
        },
    }
}

/// The blank lines before the first block: one block for each line feed.
pub open spec fn leading_blocks(b: Seq<u8>, end: int, emit: bool) -> Seq<MapBlock>
    decreases end,
{
    if end <= 0 {
        Seq::empty()
    } else if b[end - 1] == text::NEWLINE {
        leading_blocks(b, end - 1, emit).push(blank_block(end - 1, emit))
    } else {
        leading_blocks(b, end - 1, emit)
    }
}

/// How many line feeds stand in `from..to`.
pub open spec fn newlines_in(b: Seq<u8>, from: int, to: int) -> nat
    decreases to - from,
{
    if to <= from {
        0
    } else {
        newlines_in(b, from, to - 1) + if b[to - 1] == text::NEWLINE {
            1nat
        } else {
            0
        }
    }
}

/// The blank lines behind a block whose content ends at `from`, up to `to`: one
/// block for each line feed but the first, which ends the block's last line. The
/// first of them is always shown, the others only if all are preserved.
pub open spec fn gap_blocks(b: Seq<u8>, from: int, to: int, preserve: bool) -> Seq<MapBlock>
    decreases to - from,
{
    if to <= from {
        Seq::empty()
    } else {
        let rest = gap_blocks(b, from, to - 1, preserve);
        let seen = newlines_in(b, from, to - 1);
        if b[to - 1] == text::NEWLINE && seen >= 1 {
            rest.push(blank_block(to - 1, preserve || seen == 1))
        } else {
            rest
        }
    }
}

impl Parts {
    /// How many rendered lines block `i` takes, of those that are left from index
    /// `next` on.
    pub open spec fn taken(self, i: int, next: int) -> int {
        if self.counts[i] <= self.rendered - next {
            self.counts[i] as int
        } else {
            self.rendered - next
        }
    }

    /// How many rendered lines the first `i` blocks take.
    pub open spec fn next_line(self, i: int) -> int
        decreases i,
    {
        if i <= 0 {
            0
        } else {
            self.next_line(i - 1) + self.taken(i - 1, self.next_line(i - 1))
        }
    }

    /// Block `i` is a setext heading with a `-` underline that was rendered as
    /// one line, and gets a rule below it.
    pub open spec fn has_rule(self, i: int) -> bool {
        let r = self.ranges[i];
        let end = if r.end <= self.b.len() {
            r.end as int
        } else {
            self.b.len() as int
        };
        self.counts[i] == 1 && setext_of(self.b.subrange(r.start as int, end)) == Some(
            SetextKind::H2,
        )
    }

    /// The map block of parsed block `i`.
    pub open spec fn map_block(self, i: int) -> MapBlock {
        let next = self.next_line(i);
        let lines = Seq::new(
            self.taken(i, next) as nat,
            |k: int| LineSource::Rendered(next + k),
        );
        MapBlock {
            start: self.ranges[i].start as int,
            end: self.ranges[i].end as int,
            own: if self.has_rule(i) {
                2
            } else {
                self.counts[i] as int
            },
            shown: if self.has_rule(i) {
                lines.push(LineSource::Rule)
            } else {
                lines
            },
        }
    }

    /// Where the gap behind block `i` ends.
    pub open spec fn gap_end(self, i: int) -> int {
        if i + 1 < self.ranges.len() && self.ranges[i + 1].start <= self.b.len() {
            self.ranges[i + 1].start as int
        } else {
            self.b.len() as int
        }
    }

    /// Where the blank lines before the first block end.
    pub open spec fn leading_end(self) -> int {
        if self.ranges.len() > 0 && self.ranges[0].start <= self.b.len() {
            self.ranges[0].start as int
        } else {
            self.b.len() as int
        }
    }

    /// The map blocks up to parsed block `i`, each with the blank lines behind
    /// it.
    pub open spec fn blocks_before(self, i: int) -> Seq<MapBlock>
        decreases i,
    {
        if i <= 0 {
            leading_blocks(self.b, self.leading_end(), self.preserve)
        } else {
            self.blocks_before(i - 1).push(self.map_block(i - 1)) + gap_blocks(
                self.b,
                content_end(self.b, self.ranges[i - 1]),
                self.gap_end(i - 1),
                self.preserve,
            )
        }
    }

    /// All map blocks.
    pub open spec fn blocks(self) -> Seq<MapBlock> {
        self.blocks_before(self.counts.len() as int)
    }

    /// The lines of the document: those of the blocks, and the rendered lines that
    /// no block took.
    pub open spec fn lines(self) -> Seq<LineSource> {
        let used = self.next_line(self.counts.len() as int);
        shown_lines(self.blocks()) + Seq::new(
            (self.rendered - used) as nat,
            |k: int| LineSource::Rendered(used + k),
        )
    }

    /// The block of each line; a line that no block took goes to the last one.
    pub open spec fn owners(self) -> Seq<usize> {
        let used = self.next_line(self.counts.len() as int);
        let n = self.blocks().len();
        line_owners(self.blocks()) + Seq::new(
            (self.rendered - used) as nat,
            |k: int|
                if n == 0 {
                    0usize
                } else {
                    (n - 1) as usize
                },
        )
    }

    /// The ranges and counts belong together, and each range is a range of the
    /// text.
    pub open spec fn wf(self) -> bool {
        &&& self.counts.len() <= self.ranges.len()
        &&& forall|i: int|
            0 <= i < self.counts.len() ==> text::sliceable(
                self.b,
                (#[trigger] self.ranges[i]).start as int,
                if self.ranges[i].end <= self.b.len() {
                    self.ranges[i].end as int
                } else {
                    self.b.len() as int
                },
            )
    }
}

/// The lines of a row of blocks.
pub open spec fn shown_lines(v: Seq<MapBlock>) -> Seq<LineSource>
    decreases v.len(),
{
    if v.len() == 0 {
        Seq::empty()
    } else {
        shown_lines(v.drop_last()) + v.last().shown
    }
}

/// The index of the block of each line.
pub open spec fn line_owners(v: Seq<MapBlock>) -> Seq<usize>
    decreases v.len(),
{
    if v.len() == 0 {
        Seq::empty()
    } else {
        line_owners(v.drop_last()) + Seq::new(
            v.last().shown.len(),
            |k: int| (v.len() - 1) as usize,
        )
    }
}

/// `line` is the line that `source` says.
pub open spec fn line_is(
    line: RenderedLine,
    source: LineSource,
    rendered: Seq<RenderedLine>,
    width: nat,
) -> bool {
    match source {
        LineSource::Rendered(k) => line == rendered[k],
        LineSource::Blank => line.spans@.len() == 0,
        LineSource::Rule => is_rule(line, width),
    }
}

/// `lines` are the lines that `sources` say.
pub open spec fn lines_are(
    lines: Seq<RenderedLine>,
    sources: Seq<LineSource>,
    rendered: Seq<RenderedLine>,
    width: nat,
) -> bool {
    &&& lines.len() == sources.len()
    &&& forall|i: int|
        0 <= i < lines.len() ==> line_is(#[trigger] lines[i], sources[i], rendered, width)
}

/// `ranges` and `owns` are those of the blocks.
pub open spec fn tables_are(
    ranges: Seq<Range<usize>>,
    owns: Seq<usize>,
    v: Seq<MapBlock>,
) -> bool {
    &&& ranges.len() == v.len()
    &&& owns.len() == v.len()
    &&& forall|i: int|
        0 <= i < v.len() ==> (#[trigger] ranges[i]).start == v[i].start && ranges[i].end == v[i].end
    &&& forall|i: int| 0 <= i < v.len() ==> #[trigger] owns[i] == v[i].own
}

/// The lines and the tables of a document while it is put together.
struct Assembly {
    lines: Vec<RenderedLine>,
    owners: Vec<usize>,
    originals: Vec<Range<usize>>,
    owns: Vec<usize>,
}

impl Assembly {
    spec fn agrees(self, v: Seq<MapBlock>, rendered: Seq<RenderedLine>, width: nat) -> bool {
        &&& lines_are(self.lines@, shown_lines(v), rendered, width)
        &&& self.owners@ == line_owners(v)
        &&& tables_are(self.originals@, self.owns@, v)
    }

    /// Begins a block that is not shown yet.
    fn open_block(
        &mut self,
        start: usize,
        end: usize,
        own: usize,
        Ghost(v): Ghost<Seq<MapBlock>>,
        Ghost(rendered): Ghost<Seq<RenderedLine>>,
        Ghost(width): Ghost<nat>,
    )
        requires
            old(self).agrees(v, rendered, width),
        ensures
            final(self).agrees(
                v.push(
                    MapBlock {
                        start: start as int,
                        end: end as int,
                        own: own as int,
                        shown: Seq::empty(),
                    },
                ),
                rendered,
                width,
            ),
            final(self).lines@ == old(self).lines@,
            final(self).originals@.len() == v.len() + 1,
    {
        let ghost w = v.push(
            MapBlock { start: start as int, end: end as int, own: own as int, shown: Seq::empty() },
        );
        self.originals.push(start..end);
        self.owns.push(own);
        proof {
            assert(w.drop_last() =~= v);
            assert(shown_lines(w) =~= shown_lines(v));
            assert(line_owners(w) =~= line_owners(v));
        }
    }

    /// Shows one more line of the last block.
    fn add_line(
        &mut self,
        line: RenderedLine,
        Ghost(source): Ghost<LineSource>,
        Ghost(v): Ghost<Seq<MapBlock>>,
        Ghost(rendered): Ghost<Seq<RenderedLine>>,
        Ghost(width): Ghost<nat>,
    )
        requires
            v.len() > 0,
            old(self).agrees(v, rendered, width),
            line_is(line, source, rendered, width),
        ensures
            final(self).agrees(
                v.drop_last().push(
                    MapBlock { shown: v.last().shown.push(source), ..v.last() },
                ),
                rendered,
                width,
            ),
            final(self).originals@ == old(self).originals@,
            final(self).lines@.len() == old(self).lines@.len() + 1,
    {
        let ghost last = MapBlock { shown: v.last().shown.push(source), ..v.last() };
        let ghost w = v.drop_last().push(last);
        proof {
            assert(self.originals@.len() == v.len());
            assert(self.originals.len() == self.originals@.len());
        }
        self.lines.push(line);
        self.owners.push(self.originals.len() - 1);
        proof {
            assert(w.drop_last() =~= v.drop_last());
            assert(shown_lines(w) =~= shown_lines(v).push(source));
            assert(line_owners(w) =~= line_owners(v).push((v.len() - 1) as usize));
            assert forall|i: int| 0 <= i < self.lines@.len() implies line_is(
                #[trigger] self.lines@[i],
                shown_lines(w)[i],
                rendered,
                width,
            ) by {
                if i < self.lines@.len() - 1 {
                    assert(self.lines@[i] == old(self).lines@[i]);
                }
            }
        }
    }

    /// Adds the block of the blank line at byte `p`.
    fn push_blank(
        &mut self,
        p: usize,
        emit: bool,
        Ghost(v): Ghost<Seq<MapBlock>>,
        Ghost(rendered): Ghost<Seq<RenderedLine>>,
        Ghost(width): Ghost<nat>,
    )
        requires
            old(self).agrees(v, rendered, width),
            p < usize::MAX,
        ensures
            final(self).agrees(v.push(blank_block(p as int, emit)), rendered, width),
    {
        let own: usize = if emit {
            1
        } else {
            0
        };
        self.open_block(p, p + 1, own, Ghost(v), Ghost(rendered), Ghost(width));
        let ghost w = v.push(
            MapBlock { start: p as int, end: p + 1, own: own as int, shown: Seq::empty() },
        );
        if emit {
            self.add_line(
                RenderedLine::blank(),
                Ghost(LineSource::Blank),
                Ghost(w),
                Ghost(rendered),
                Ghost(width),
            );
            proof {
                assert(Seq::<LineSource>::empty().push(LineSource::Blank) =~= seq![
                    LineSource::Blank,
                ]);
                assert(w.drop_last() =~= v);
            }
        }
    }
}

/// Adds the blank lines before the first block.
fn assemble_leading(
    page: &mut Assembly,
    bytes: &[u8],
    end: usize,
    emit: bool,
    Ghost(rendered): Ghost<Seq<RenderedLine>>,
    Ghost(width): Ghost<nat>,
)
    requires
        old(page).agrees(Seq::empty(), rendered, width),
        end <= bytes@.len(),
    ensures
        final(page).agrees(leading_blocks(bytes@, end as int, emit), rendered, width),
{
    let mut p: usize = 0;
    while p < end
        invariant
            p <= end <= bytes@.len(),
            page.agrees(leading_blocks(bytes@, p as int, emit), rendered, width),
        decreases end - p,
    {
        if bytes[p] == text::NEWLINE {
            page.push_blank(
                p,
                emit,
                Ghost(leading_blocks(bytes@, p as int, emit)),
                Ghost(rendered),
                Ghost(width),
            );
        }
        p += 1;
    }
}

/// Adds the blank lines of the gap `from..to` behind a block.
fn assemble_gap(
    page: &mut Assembly,
    bytes: &[u8],
    from: usize,
    to: usize,
    preserve: bool,
    Ghost(v): Ghost<Seq<MapBlock>>,
    Ghost(rendered): Ghost<Seq<RenderedLine>>,
    Ghost(width): Ghost<nat>,
)
    requires
        old(page).agrees(v, rendered, width),
        to <= bytes@.len(),
    ensures
        final(page).agrees(
            v + gap_blocks(bytes@, from as int, to as int, preserve),
            rendered,
            width,
        ),
{
    let mut newlines: usize = 0;
    let mut p: usize = from;
    assert(v + Seq::<MapBlock>::empty() =~= v);
    while p < to
        invariant
            from <= p,
            p <= to || p == from,
            to <= bytes@.len(),
            newlines == newlines_in(bytes@, from as int, p as int),
            newlines <= p - from,
            page.agrees(v + gap_blocks(bytes@, from as int, p as int, preserve), rendered, width),
        decreases to - p,
    {
        if bytes[p] == text::NEWLINE {
            let ghost sofar = v + gap_blocks(bytes@, from as int, p as int, preserve);
            if newlines >= 1 {
                page.push_blank(
                    p,
                    preserve || newlines == 1,
                    Ghost(sofar),
                    Ghost(rendered),
                    Ghost(width),
                );
                assert(sofar.push(blank_block(p as int, preserve || newlines == 1)) =~= v
                    + gap_blocks(bytes@, from as int, p + 1, preserve));
            }
            newlines += 1;
        }
        p += 1;
    }
}


/// An image block as a value.
pub struct ImageView {
    pub block_idx: int,
    pub alt: Seq<char>,
    pub url: Seq<char>,
    pub source: Option<DiagramView>,
}

impl View for ImageBlockInfo {
    type V = ImageView;

    open spec fn view(&self) -> ImageView {
        ImageView {
            block_idx: self.block_idx as int,
            alt: self.alt@,
            url: self.url@,
            source: match self.source {
                Some(t) => Some(t@),
                None => None,
            },
        }
    }
}

/// The base slug of a heading.
pub open spec fn base_slug(heading: Seq<char>) -> Seq<char> {
    if is_ascii_text(heading) {
        slug_of(ascii_lowercase_of(heading))
    } else {
        slug_of(lowercase_of(heading))
    }
}

/// The slugs of the headings among the first `i` blocks, each with the number to try
/// first when it comes again.
pub open spec fn slug_counts(blocks: Seq<Block>, i: int) -> Map<Seq<char>, usize>
    decreases i,
{
    if i <= 0 {
        Map::empty()
    } else {
        match blocks[i - 1] {
            Block::Heading { text, .. } => with_next_slug(
                slug_counts(blocks, i - 1),
                base_slug(text@),
            ),
            _ => slug_counts(blocks, i - 1),
        }
    }
}

/// The slug of heading `i`: that of its text, with a number behind it if a heading
/// above has the same.
pub open spec fn heading_slug(blocks: Seq<Block>, i: int) -> Seq<char> {
    match blocks[i] {
        Block::Heading { text, .. } => next_slug(slug_counts(blocks, i), base_slug(text@)),
        _ => Seq::empty(),
    }
}

/// How many of the first `i` blocks are headings.
pub open spec fn heading_count(blocks: Seq<Block>, i: int) -> int
    decreases i,
{
    if i <= 0 {
        0
    } else if blocks[i - 1] is Heading {
        heading_count(blocks, i - 1) + 1
    } else {
        heading_count(blocks, i - 1)
    }
}

impl Parts {
    /// The line at which parsed block `i` is first shown.
    pub open spec fn first_line(self, i: int) -> int {
        shown_lines(self.blocks_before(i)).len() as int
    }

    /// The image blocks among the first `i` parsed blocks.
    pub open spec fn images(self, blocks: Seq<Block>, i: int) -> Seq<ImageView>
        decreases i,
    {
        if i <= 0 {
            Seq::empty()
        } else {
            match blocks[i - 1] {
                Block::ImageBlock { alt, url, diagram } => self.images(blocks, i - 1).push(
                    ImageView {
                        block_idx: self.blocks_before(i - 1).len() as int,
                        alt: alt@,
                        url: url@,
                        source: match diagram {
                            Some(t) => Some(t@),
                            None => None,
                        },
                    },
                ),
                _ => self.images(blocks, i - 1),
            }
        }
    }

    /// The first line of each heading among the first `i` parsed blocks, by its
    /// slug.
    pub open spec fn headings(self, blocks: Seq<Block>, i: int) -> Map<Seq<char>, usize>
        decreases i,
    {
        if i <= 0 {
            Map::empty()
        } else {
            match blocks[i - 1] {
                Block::Heading { .. } => self.headings(blocks, i - 1).insert(
                    heading_slug(blocks, i - 1),
                    self.first_line(i - 1) as usize,
                ),
                _ => self.headings(blocks, i - 1),
            }
        }
    }

    /// The first line of each footnote definition among the first `i` parsed
    /// blocks, by its label.
    pub open spec fn footnotes(self, blocks: Seq<Block>, i: int) -> Map<Seq<char>, usize>
        decreases i,
    {
        if i <= 0 {
            Map::empty()
        } else {
            match blocks[i - 1] {
                Block::FootnoteDefinition { label } => self.footnotes(blocks, i - 1).insert(
                    label@,
                    self.first_line(i - 1) as usize,
                ),
                _ => self.footnotes(blocks, i - 1),
            }
        }
    }
}

/// Every slug with a lower number than the one to try first was given out.
spec fn numbers_used(counts: Map<Seq<char>, usize>) -> bool {
    forall|base: Seq<char>, j: int|
        0 <= j < times_used(counts, base) ==> counts.dom().contains(#[trigger] nth_slug(base, j))
}

proof fn lemma_with_next_slug(counts: Map<Seq<char>, usize>, base: Seq<char>)
    requires
        counts.dom().finite(),
        counts.dom().len() < usize::MAX,
        numbers_used(counts),
    ensures
        ({
            let after = with_next_slug(counts, base);
            let slug = next_slug(counts, base);
            &&& 0 <= next_number(counts, base) <= counts.dom().len()
            &&& !counts.dom().contains(slug)
            &&& after.dom() == counts.dom().insert(slug)
            &&& after.dom().len() == counts.dom().len() + 1
            &&& numbers_used(after)
        }),
{
    let after = with_next_slug(counts, base);
    let n = next_number(counts, base);
    let slug = next_slug(counts, base);
    lemma_next_number(counts, base);
    assert forall|j: int| 0 <= j < n implies counts.dom().contains(#[trigger] nth_slug(base, j)) by {
        if j < times_used(counts, base) {
        }
    }
    lemma_run_fits(counts.dom(), base, 0, n);
    if n > 0 {
        assert(counts.dom().contains(nth_slug(base, 0)));
    }
    assert(after.dom() =~= counts.dom().insert(slug));
    assert forall|other: Seq<char>, j: int| 0 <= j < times_used(after, other) implies
        after.dom().contains(#[trigger] nth_slug(other, j)) by {
        if other == base {
            if j < n {
                assert(counts.dom().contains(nth_slug(base, j)));
            }
        } else if other == slug {
            assert(nth_slug(other, 0) == slug);
        } else {
            assert(times_used(after, other) == times_used(counts, other));
        }
    }
}

/// As many slugs are given out as there are headings.
proof fn lemma_slug_counts(blocks: Seq<Block>, i: int)
    requires
        0 <= i < usize::MAX,
    ensures
        slug_counts(blocks, i).dom().finite(),
        slug_counts(blocks, i).dom().len() == heading_count(blocks, i),
        0 <= heading_count(blocks, i) <= i,
        numbers_used(slug_counts(blocks, i)),
    decreases i,
{
    if i > 0 {
        lemma_slug_counts(blocks, i - 1);
        match blocks[i - 1] {
            Block::Heading { text, .. } => {
                lemma_with_next_slug(slug_counts(blocks, i - 1), base_slug(text@));
            },
            _ => {},
        }
    }
}

proof fn lemma_slugs_stay(blocks: Seq<Block>, i: int, j: int, slug: Seq<char>)
    requires
        0 <= i <= j < usize::MAX,
        slug_counts(blocks, i).dom().contains(slug),
    ensures
        slug_counts(blocks, j).dom().contains(slug),
    decreases j,
{
    if i < j {
        lemma_slugs_stay(blocks, i, j - 1, slug);
    }
}

/// No two headings of a document have the same slug.
pub proof fn law_slugs_differ(blocks: Seq<Block>, i: int, j: int)
    requires
        0 <= i < j < blocks.len(),
        blocks.len() <= usize::MAX,
        blocks[i] is Heading,
        blocks[j] is Heading,
    ensures
        heading_slug(blocks, i) != heading_slug(blocks, j),
{
    lemma_slugs_stay(blocks, i + 1, j, heading_slug(blocks, i));
    lemma_slug_counts(blocks, j);
    match blocks[j] {
        Block::Heading { text, .. } => {
            lemma_with_next_slug(slug_counts(blocks, j), base_slug(text@));
        },
        _ => {},
    }
}

/// Every heading keeps an anchor of its own: there are as many anchors as headings.
pub proof fn law_anchor_per_heading(parts: Parts, blocks: Seq<Block>, i: int)
    requires
        0 <= i <= blocks.len() <= usize::MAX,
    ensures
        parts.headings(blocks, i).dom().finite(),
        parts.headings(blocks, i).dom().len() == heading_count(blocks, i),
        parts.headings(blocks, i).dom() == slug_counts(blocks, i).dom(),
    decreases i,
{
    if i > 0 {
        law_anchor_per_heading(parts, blocks, i - 1);
        lemma_slug_counts(blocks, i - 1);
        match blocks[i - 1] {
            Block::Heading { text, .. } => {
                lemma_with_next_slug(slug_counts(blocks, i - 1), base_slug(text@));
            },
            _ => {},
        }
    } else {
        assert(parts.headings(blocks, i).dom() =~= slug_counts(blocks, i).dom());
    }
}

/// The image blocks as values.
pub open spec fn image_views(infos: Seq<ImageBlockInfo>) -> Seq<ImageView> {
    infos.map_values(|i: ImageBlockInfo| i@)
}

/// The parsed and rendered state of a document: its lines, the map between them
/// and the source, and what the editor looks up in it.
#[derive(Debug, Clone)]
pub struct ParsedDoc {
    /// The rendered lines, with blank lines of the source in between.
    pub lines: Vec<RenderedLine>,
    /// The map between rendered lines and source.
    pub source_map: SourceMap,
    /// The parsed blocks.
    pub blocks: Vec<Block>,
    /// The range of each parsed block.
    pub real_ranges: Vec<Range<usize>>,
    /// How many lines each map block counts as its own.
    pub per_block_own: Vec<usize>,
    /// The image blocks, in order.
    pub image_blocks: Vec<ImageBlockInfo>,
    /// The first line of each heading, by its slug.
    pub heading_anchors: TextMap,
    /// The first line of each footnote definition, by its label.
    pub footnote_anchors: TextMap,
    /// Visual rows at the widths that were asked for last, the latest first.
    pub visual_rows: Vec<VisualRowCache>,
}

/// A doc is what `parts` and `blocks` make, with rules of `width` cells.
pub open spec fn doc_is(
    doc: ParsedDoc,
    parts: Parts,
    blocks: Seq<Block>,
    rendered: Seq<RenderedLine>,
    width: nat,
) -> bool {
    let n = parts.counts.len() as int;
    let v = parts.blocks();
    &&& lines_are(doc.lines@, parts.lines(), rendered, width)
    &&& doc.source_map.wf()
    &&& doc.source_map.lines() == parts.owners()
    &&& tables_are(doc.source_map.original(), doc.per_block_own@, v)
    &&& doc.source_map.source_len() == parts.b.len()
    &&& v.len() > 0 ==> {
        &&& doc.source_map.extended().len() == v.len()
        &&& forall|i: int|
            0 <= i < v.len() ==> (
            (#[trigger] doc.source_map.extended()[i]).start as int,
            doc.source_map.extended()[i].end as int,
            ) == extended_range(doc.source_map.original(), parts.b.len() as int, i)
    }
    &&& v.len() == 0 ==> doc.source_map.extended() == if parts.b.len() > 0 {
        seq![Range::<usize> { start: 0, end: parts.b.len() as usize }]
    } else {
        Seq::empty()
    }
    &&& doc.blocks@ == blocks
    &&& doc.real_ranges@ == parts.ranges
    &&& image_views(doc.image_blocks@) == parts.images(blocks, n)
    &&& doc.heading_anchors@ == parts.headings(blocks, n)
    &&& doc.footnote_anchors@ == parts.footnotes(blocks, n)
    &&& doc.visual_rows@.len() == 0
}

proof fn lemma_next_line(parts: Parts, i: int)
    requires
        0 <= i <= parts.counts.len(),
        0 <= parts.rendered,
    ensures
        0 <= parts.next_line(i) <= parts.rendered,
    decreases i,
{
    if i > 0 {
        lemma_next_line(parts, i - 1);
    }
}

/// Adds parsed block `i` with its rendered lines and the blank lines behind it.
fn assemble_block(
    page: &mut Assembly,
    source: &str,
    real_ranges: &Vec<Range<usize>>,
    counts: &Vec<usize>,
    rendered_lines: &mut Vec<RenderedLine>,
    i: usize,
    next: usize,
    preserve: bool,
    rule_width: usize,
    Ghost(parts): Ghost<Parts>,
    Ghost(rendered): Ghost<Seq<RenderedLine>>,
) -> (stop: usize)
    requires
        parts.wf(),
        parts.b == source.spec_bytes(),
        parts.ranges == real_ranges@,
        parts.counts == counts@,
        parts.preserve == preserve,
        parts.rendered == rendered.len(),
        i < counts@.len(),
        next == parts.next_line(i as int),
        next <= rendered.len(),
        old(rendered_lines)@.len() == rendered.len(),
        forall|k: int| next <= k < rendered.len() ==> old(rendered_lines)@[k] == rendered[k],
        old(page).agrees(parts.blocks_before(i as int), rendered, rule_width as nat),
    ensures
        stop == parts.next_line(i + 1),
        stop <= rendered.len(),
        final(rendered_lines)@.len() == rendered.len(),
        forall|k: int| stop <= k < rendered.len() ==> final(rendered_lines)@[k] == rendered[k],
        final(page).agrees(parts.blocks_before(i + 1), rendered, rule_width as nat),
{
    let ghost v = parts.blocks_before(i as int);
    let ghost w = rule_width as nat;
    let bytes = source.as_bytes();
    let count: usize = counts[i];
    let range = &real_ranges[i];
    let end: usize = if range.end <= bytes.len() {
        range.end
    } else {
        bytes.len()
    };
    assert(text::sliceable(parts.b, parts.ranges[i as int].start as int, end as int));
    let has_rule: bool = count == 1 && match detect_setext(text::slice(source, range.start, end)) {
        Some(SetextKind::H2) => true,
        _ => false,
    };
    assert(has_rule == parts.has_rule(i as int));
    let own: usize = if has_rule {
        2
    } else {
        count
    };
    page.open_block(range.start, range.end, own, Ghost(v), Ghost(rendered), Ghost(w));
    let total: usize = rendered_lines.len();
    let take: usize = if count <= total - next {
        count
    } else {
        total - next
    };
    let ghost lines = Seq::new(take as nat, |k: int| LineSource::Rendered(next + k));
    let ghost head = MapBlock {
        start: range.start as int,
        end: range.end as int,
        own: own as int,
        shown: Seq::empty(),
    };
    let mut k: usize = 0;
    assert(lines.take(0) =~= Seq::empty());
    while k < take
        invariant
            k <= take,
            next + take <= total,
            total == rendered.len(),
            lines == Seq::new(take as nat, |k: int| LineSource::Rendered(next + k)),
            rendered_lines@.len() == rendered.len(),
            forall|j: int| next + k <= j < rendered.len() ==> rendered_lines@[j] == rendered[j],
            page.agrees(
                v.push(MapBlock { shown: lines.take(k as int), ..head }),
                rendered,
                w,
            ),
        decreases take - k,
    {
        let ghost cur = v.push(MapBlock { shown: lines.take(k as int), ..head });
        let mut line = RenderedLine::blank();
        rendered_lines.set_and_swap(next + k, &mut line);
        page.add_line(
            line,
            Ghost(LineSource::Rendered(next + k)),
            Ghost(cur),
            Ghost(rendered),
            Ghost(w),
        );
        proof {
            assert(cur.drop_last() =~= v);
            assert(lines.take(k + 1) =~= lines.take(k as int).push(
                LineSource::Rendered(next + k),
            ));
        }
        k += 1;
    }
    assert(lines.take(take as int) =~= lines);
    if has_rule {
        let ghost cur = v.push(MapBlock { shown: lines, ..head });
        page.add_line(
            RenderedLine::rule(rule_width),
            Ghost(LineSource::Rule),
            Ghost(cur),
            Ghost(rendered),
            Ghost(w),
        );
        assert(cur.drop_last() =~= v);
    }
    let ghost done = v.push(parts.map_block(i as int));
    assert(page.agrees(done, rendered, w));
    let from: usize = content_end_of_block(source, range);
    assert(counts.len() == counts@.len());
    let gap_end: usize = if i + 1 < real_ranges.len() && real_ranges[i + 1].start <= bytes.len() {
        real_ranges[i + 1].start
    } else {
        bytes.len()
    };
    assemble_gap(page, bytes, from, gap_end, preserve, Ghost(done), Ghost(rendered), Ghost(w));
    next + take
}

/// The width of a view whose width is not known yet, in cells.
pub const DEFAULT_WIDTH: usize = 80;

impl ParsedDoc {
    /// Puts a document together as [`ParsedDoc::build_with_overrides`] does, for a view
    /// of [`DEFAULT_WIDTH`] cells.
    pub fn build(
        source: &str,
        blocks: Vec<Block>,
        real_ranges: Vec<Range<usize>>,
        rendered_lines: Vec<RenderedLine>,
        counts: Vec<usize>,
        preserve_blank_lines: bool,
    ) -> (doc: Self)
        requires
            parts_of(
                source.spec_bytes(),
                real_ranges@,
                counts@,
                rendered_lines@.len() as int,
                preserve_blank_lines,
            ).wf(),
            counts@.len() <= blocks@.len(),
        ensures
            doc_is(
                doc,
                parts_of(
                    source.spec_bytes(),
                    real_ranges@,
                    counts@,
                    rendered_lines@.len() as int,
                    preserve_blank_lines,
                ),
                blocks@,
                rendered_lines@,
                DEFAULT_WIDTH as nat,
            ),
            doc.heading_anchors@.dom().len() == heading_count(blocks@, counts@.len() as int),
    {
        Self::build_with_overrides(
            source,
            blocks,
            real_ranges,
            rendered_lines,
            counts,
            preserve_blank_lines,
            DEFAULT_WIDTH,
        )
    }

    /// Puts a document together from its parsed blocks as [`settle_blocks`] gives them,
    /// their ranges in `source`, and the lines that they were rendered as, `counts` of
    /// them for each block.
    ///
    /// Each blank line of the source becomes a block of its own, so that the
    /// cursor can rest on it. With `preserve_blank_lines` each of them is shown;
    /// else only the first one between two blocks.
    pub fn build_with_overrides(
        source: &str,
        blocks: Vec<Block>,
        real_ranges: Vec<Range<usize>>,
        rendered_lines: Vec<RenderedLine>,
        counts: Vec<usize>,
        preserve_blank_lines: bool,
        viewport_width: usize,
    ) -> (doc: Self)
        requires
            parts_of(
                source.spec_bytes(),
                real_ranges@,
                counts@,
                rendered_lines@.len() as int,
                preserve_blank_lines,
            ).wf(),
            counts@.len() <= blocks@.len(),
        ensures
            doc_is(
                doc,
                parts_of(
                    source.spec_bytes(),
                    real_ranges@,
                    counts@,
                    rendered_lines@.len() as int,
                    preserve_blank_lines,
                ),
                blocks@,
                rendered_lines@,
                if viewport_width == 0 {
                    1
                } else {
                    viewport_width as nat
                },
            ),
            doc.heading_anchors@.dom().len() == heading_count(blocks@, counts@.len() as int),
    {
        let ghost rendered = rendered_lines@;
        let ghost parts = parts_of(
            source.spec_bytes(),
            real_ranges@,
            counts@,
            rendered.len() as int,
            preserve_blank_lines,
        );
        let rule_width: usize = if viewport_width == 0 {
            1
        } else {
            viewport_width
        };
        let ghost w = rule_width as nat;
        let bytes = source.as_bytes();
        let total_bytes: usize = bytes.len();
        let mut rendered_lines = rendered_lines;
        let mut page = Assembly {
            lines: Vec::new(),
            owners: Vec::new(),
            originals: Vec::new(),
            owns: Vec::new(),
        };
        let leading_end: usize = if real_ranges.len() > 0 && real_ranges[0].start <= total_bytes {
            real_ranges[0].start
        } else {
            total_bytes
        };
        assemble_leading(
            &mut page,
            bytes,
            leading_end,
            preserve_blank_lines,
            Ghost(rendered),
            Ghost(w),
        );
        let mut image_blocks: Vec<ImageBlockInfo> = Vec::new();
        let mut heading_anchors = TextMap::new();
        let mut footnote_anchors = TextMap::new();
        let mut anchor_counts = TextMap::new();
        let mut next: usize = 0;
        let mut i: usize = 0;
        assert(image_views(image_blocks@) =~= Seq::empty());
        while i < counts.len()
            invariant
                i <= counts@.len(),
                counts@.len() <= blocks@.len(),
                parts.wf(),
                parts.b == source.spec_bytes(),
                parts.ranges == real_ranges@,
                parts.counts == counts@,
                parts.preserve == preserve_blank_lines,
                parts.rendered == rendered.len(),
                w == rule_width as nat,
                next == parts.next_line(i as int),
                next <= rendered.len(),
                rendered_lines@.len() == rendered.len(),
                forall|k: int| next <= k < rendered.len() ==> rendered_lines@[k] == rendered[k],
                page.agrees(parts.blocks_before(i as int), rendered, w),
                image_views(image_blocks@) == parts.images(blocks@, i as int),
                anchor_counts@ == slug_counts(blocks@, i as int),
                heading_anchors@ == parts.headings(blocks@, i as int),
                footnote_anchors@ == parts.footnotes(blocks@, i as int),
            decreases counts@.len() - i,
        {
            let idx: usize = page.originals.len();
            let line: usize = page.lines.len();
            match &blocks[i] {
                Block::ImageBlock { alt, url, diagram } => {
                    let ghost before = image_views(image_blocks@);
                    let source: Option<DiagramSource> = match diagram {
                        Some(t) => Some(t.copy()),
                        None => None,
                    };
                    let info = ImageBlockInfo {
                        block_idx: idx,
                        alt: alt.clone(),
                        url: url.clone(),
                        source,
                    };
                    let ghost iv = info@;
                    image_blocks.push(info);
                    assert(image_views(image_blocks@) =~= before.push(iv));
                },
                Block::Heading { text, .. } => {
                    let base = gfm_slug(text.as_str());
                    proof {
                        lemma_slug_counts(blocks@, i as int);
                        lemma_with_next_slug(anchor_counts@, base@);
                    }
                    let slug = uniquify_slug(base.as_str(), &mut anchor_counts);
                    heading_anchors.insert(slug, line);
                },
                Block::FootnoteDefinition { label } => {
                    footnote_anchors.insert(label.clone(), line);
                },
                _ => {},
            }
            next =
            assemble_block(
                &mut page,
                source,
                &real_ranges,
                &counts,
                &mut rendered_lines,
                i,
                next,
                preserve_blank_lines,
                rule_width,
                Ghost(parts),
                Ghost(rendered),
            );
            i += 1;
        }
        let ghost v = parts.blocks();
        let Assembly { lines, owners, originals, owns } = page;
        let mut lines = lines;
        let mut owners = owners;
        let ghost used = next as int;
        let last: usize = if originals.len() == 0 {
            0
        } else {
            originals.len() - 1
        };
        let ghost strays = Seq::new(
            (rendered.len() - used) as nat,
            |k: int| LineSource::Rendered(used + k),
        );
        let ghost stray_owners = Seq::new((rendered.len() - used) as nat, |k: int| last);
        assert(shown_lines(v) + strays.take(0) =~= shown_lines(v));
        assert(line_owners(v) + stray_owners.take(0) =~= line_owners(v));
        while next < rendered_lines.len()
            invariant
                used <= next <= rendered.len(),
                rendered_lines@.len() == rendered.len(),
                strays == Seq::new(
                    (rendered.len() - used) as nat,
                    |k: int| LineSource::Rendered(used + k),
                ),
                stray_owners == Seq::new((rendered.len() - used) as nat, |k: int| last),
                forall|k: int| next <= k < rendered.len() ==> rendered_lines@[k] == rendered[k],
                lines_are(lines@, shown_lines(v) + strays.take(next - used), rendered, w),
                owners@ == line_owners(v) + stray_owners.take(next - used),
            decreases rendered.len() - next,
        {
            let ghost lines0 = lines@;
            let mut line = RenderedLine::blank();
            rendered_lines.set_and_swap(next, &mut line);
            lines.push(line);
            owners.push(last);
            proof {
                let j = next - used;
                assert(shown_lines(v) + strays.take(j + 1) =~= (shown_lines(v) + strays.take(j)).push(
                    LineSource::Rendered(next as int),
                ));
                assert(line_owners(v) + stray_owners.take(j + 1) =~= (line_owners(v)
                    + stray_owners.take(j)).push(last));
                assert forall|k: int| 0 <= k < lines@.len() implies line_is(
                    #[trigger] lines@[k],
                    (shown_lines(v) + strays.take(j + 1))[k],
                    rendered,
                    w,
                ) by {
                    if k < lines0.len() {
                        assert(lines@[k] == lines0[k]);
                    }
                }
            }
            next += 1;
        }
        proof {
            assert(strays.take(strays.len() as int) =~= strays);
            assert(stray_owners.take(strays.len() as int) =~= stray_owners);
            assert(parts.lines() =~= shown_lines(v) + strays);
            assert(parts.owners() =~= line_owners(v) + stray_owners);
        }
        proof {
            assert(blocks.len() == blocks@.len());
            law_anchor_per_heading(parts, blocks@, counts@.len() as int);
        }
        let extended_ranges = build_extended_ranges(&originals, total_bytes);
        let source_map = SourceMap::new(owners, extended_ranges, originals, total_bytes);
        ParsedDoc {
            lines,
            source_map,
            blocks,
            real_ranges,
            per_block_own: owns,
            image_blocks,
            heading_anchors,
            footnote_anchors,
            visual_rows: Vec::new(),
        }
    }
}


/// How many widths are kept warm. A frame asks for two: with and without the
/// scrollbar.
pub const WARM_WIDTHS: usize = 2;

/// The first entry at or after `i` for this width.
pub open spec fn warm_at(entries: Seq<VisualRowCache>, width: usize, i: int) -> Option<int>
    decreases entries.len() - i,
{
    if 0 <= i < entries.len() {
        if entries[i].width_view() == width {
            Some(i)
        } else {
            warm_at(entries, width, i + 1)
        }
    } else {
        None
    }
}

proof fn lemma_warm_at(entries: Seq<VisualRowCache>, width: usize, i: int)
    requires
        0 <= i,
    ensures
        warm_at(entries, width, i) matches Some(k) ==> i <= k < entries.len()
            && entries[k].width_view() == width,
        warm_at(entries, width, i) is None ==> forall|k: int|
            i <= k < entries.len() ==> (#[trigger] entries[k]).width_view() != width,
    decreases entries.len() - i,
{
    if i < entries.len() {
        lemma_warm_at(entries, width, i + 1);
    }
}

/// The entries after `width` was asked for: its entry goes to the front; if there
/// was none, the new one does, and only the latest are kept.
pub open spec fn warmed(
    entries: Seq<VisualRowCache>,
    width: usize,
    fresh: VisualRowCache,
) -> Seq<VisualRowCache> {
    match warm_at(entries, width, 0) {
        Some(k) => seq![entries[k]] + entries.remove(k),
        None => {
            let all = seq![fresh] + entries;
            if all.len() <= WARM_WIDTHS {
                all
            } else {
                all.take(WARM_WIDTHS as int)
            }
        },
    }
}

/// Two widths that are asked for in turn both stay warm: asking for the one does
/// not drop the other.
pub proof fn law_two_widths_stay_warm(
    entries: Seq<VisualRowCache>,
    w1: usize,
    w2: usize,
    c1: VisualRowCache,
    c2: VisualRowCache,
)
    requires
        c1.width_view() == w1,
        c2.width_view() == w2,
    ensures
        warm_at(warmed(warmed(entries, w1, c1), w2, c2), w1, 0) is Some,
        warm_at(warmed(warmed(entries, w1, c1), w2, c2), w2, 0) is Some,
{
    let one = warmed(entries, w1, c1);
    let two = warmed(one, w2, c2);
    lemma_warm_at(entries, w1, 0);
    assert(one[0].width_view() == w1);
    lemma_warm_at(one, w2, 0);
    lemma_warm_at(two, w1, 0);
    lemma_warm_at(two, w2, 0);
    assert(two[0].width_view() == w2);
    if w1 != w2 {
        match warm_at(one, w2, 0) {
            Some(k) => {
                assert(two[1] == one.remove(k)[0]);
            },
            None => {
                assert(two[1] == one[0]);
            },
        }
    }
}

/// The first range at or after `i` that holds `byte` in a document's parsed
/// blocks.
pub open spec fn block_holding(ranges: Seq<Range<usize>>, byte: int, i: int) -> Option<int> {
    source_map::range_holding(ranges, byte, i)
}

impl ParsedDoc {
    /// The document's tables agree with one another.
    pub open spec fn wf(&self) -> bool {
        &&& self.source_map.wf()
        &&& self.source_map.lines().len() == self.lines@.len()
        &&& self.blocks@.len() == self.real_ranges@.len()
        &&& forall|i: int|
            0 <= i < self.visual_rows@.len() ==> (#[trigger] self.visual_rows@[i]).wf()
        &&& forall|i: int|
            0 <= i < self.visual_rows@.len() ==> (#[trigger] self.visual_rows@[i]).rows().len()
                == self.lines@.len()
    }

    /// The rows of each line at `width`, if they are warm.
    pub open spec fn rows_at(&self, width: usize) -> Option<Seq<usize>> {
        match warm_at(self.visual_rows@, width, 0) {
            Some(k) => Some(self.visual_rows@[k].rows()),
            None => None,
        }
    }

    /// The rows that are known are of the document's lines.
    pub proof fn lemma_rows_at(&self, width: usize)
        requires
            self.wf(),
            self.rows_at(width) is Some,
        ensures
            (self.rows_at(width)->0).len() == self.lines@.len(),
    {
        lemma_warm_at(self.visual_rows@, width, 0);
        let k = warm_at(self.visual_rows@, width, 0)->0;
        assert(self.visual_rows@[k].rows().len() == self.lines@.len());
    }

    /// The number of rendered lines.
    pub fn line_count(&self) -> (n: usize)
        ensures
            n == self.lines@.len(),
    {
        self.lines.len()
    }

    /// How many lines map block `block_idx` counts as its own; 0 if there is no
    /// such block.
    pub fn block_own_line_count(&self, block_idx: usize) -> (n: usize)
        ensures
            n == if block_idx < self.per_block_own@.len() {
                self.per_block_own@[block_idx as int]
            } else {
                0
            },
    {
        if block_idx < self.per_block_own.len() {
            self.per_block_own[block_idx]
        } else {
            0
        }
    }

    /// Map block `block_idx` is an image or a diagram.
    pub open spec fn image_at(&self, block_idx: usize) -> bool {
        exists|i: int|
            0 <= i < self.image_blocks@.len() && (#[trigger] self.image_blocks@[i]).block_idx
                == block_idx
    }

    /// Map block `block_idx` is a mermaid diagram.
    pub open spec fn mermaid_at(&self, block_idx: usize) -> bool {
        exists|i: int|
            0 <= i < self.image_blocks@.len() && (#[trigger] self.image_blocks@[i]).block_idx
                == block_idx && is_mermaid(self.image_blocks@[i])
    }

    /// Map block `block_idx` is a display formula shown as an image.
    pub open spec fn latex_at(&self, block_idx: usize) -> bool {
        exists|i: int|
            0 <= i < self.image_blocks@.len() && (#[trigger] self.image_blocks@[i]).block_idx
                == block_idx && is_latex(self.image_blocks@[i])
    }

    /// Map block `block_idx` is a diagram or a formula, which is shown by its source as a whole.
    pub open spec fn diagram_at(&self, block_idx: usize) -> bool {
        exists|i: int|
            0 <= i < self.image_blocks@.len() && (#[trigger] self.image_blocks@[i]).block_idx
                == block_idx && self.image_blocks@[i].source is Some
    }

    /// True iff map block `block_idx` is a mermaid diagram.
    pub fn is_mermaid_block(&self, block_idx: usize) -> (r: bool)
        ensures
            r == self.mermaid_at(block_idx),
    {
        let mut i: usize = 0;
        while i < self.image_blocks.len()
            invariant
                i <= self.image_blocks@.len(),
                forall|k: int|
                    0 <= k < i ==> !((#[trigger] self.image_blocks@[k]).block_idx == block_idx
                        && is_mermaid(self.image_blocks@[k])),
            decreases self.image_blocks@.len() - i,
        {
            if self.image_blocks[i].block_idx == block_idx && matches!(self.image_blocks[i].source, Some(DiagramSource::Mermaid(_))) {
                return true;
            }
            i += 1;
        }
        false
    }

    /// True iff map block `block_idx` is a display formula shown as an image.
    pub fn is_latex_block(&self, block_idx: usize) -> (r: bool)
        ensures
            r == self.latex_at(block_idx),
    {
        let mut i: usize = 0;
        while i < self.image_blocks.len()
            invariant
                i <= self.image_blocks@.len(),
                forall|k: int|
                    0 <= k < i ==> !((#[trigger] self.image_blocks@[k]).block_idx == block_idx
                        && is_latex(self.image_blocks@[k])),
            decreases self.image_blocks@.len() - i,
        {
            if self.image_blocks[i].block_idx == block_idx && matches!(self.image_blocks[i].source, Some(DiagramSource::Latex(_))) {
                return true;
            }
            i += 1;
        }
        false
    }

    /// True iff map block `block_idx` is a diagram or a formula, which is shown by its
    /// source as a whole.
    pub fn is_diagram_reveal_block(&self, block_idx: usize) -> (r: bool)
        ensures
            r == self.diagram_at(block_idx),
    {
        let mut i: usize = 0;
        while i < self.image_blocks.len()
            invariant
                i <= self.image_blocks@.len(),
                forall|k: int|
                    0 <= k < i ==> !((#[trigger] self.image_blocks@[k]).block_idx == block_idx
                        && self.image_blocks@[k].source is Some),
            decreases self.image_blocks@.len() - i,
        {
            if self.image_blocks[i].block_idx == block_idx && self.image_blocks[i].source.is_some() {
                return true;
            }
            i += 1;
        }
        false
    }

    /// True iff map block `block_idx` is an image or a diagram. Such a block has
    /// one source line and many rendered rows.
    pub fn is_image_block(&self, block_idx: usize) -> (r: bool)
        ensures
            r == self.image_at(block_idx),
    {
        let mut i: usize = 0;
        while i < self.image_blocks.len()
            invariant
                i <= self.image_blocks@.len(),
                forall|k: int|
                    0 <= k < i ==> (#[trigger] self.image_blocks@[k]).block_idx != block_idx,
            decreases self.image_blocks@.len() - i,
        {
            if self.image_blocks[i].block_idx == block_idx {
                return true;
            }
            i += 1;
        }
        false
    }

    /// The index of the parsed block whose range holds `byte`.
    pub fn real_block_for_byte(&self, byte: usize) -> (r: Option<usize>)
        ensures
            match r {
                Some(i) => block_holding(self.real_ranges@, byte as int, 0) == Some(i as int) && i
                    < self.real_ranges@.len(),
                None => block_holding(self.real_ranges@, byte as int, 0) is None,
            },
    {
        let n: usize = self.real_ranges.len();
        let mut i: usize = 0;
        while i < n
            invariant
                n == self.real_ranges@.len(),
                i <= n,
                block_holding(self.real_ranges@, byte as int, i as int) == block_holding(
                    self.real_ranges@,
                    byte as int,
                    0,
                ),
            decreases n - i,
        {
            if self.real_ranges[i].start <= byte && byte < self.real_ranges[i].end {
                return Some(i);
            }
            i += 1;
        }
        None
    }

    /// The warm entry for `width`.
    fn find_warm(&self, width: usize) -> (r: Option<usize>)
        ensures
            match r {
                Some(k) => warm_at(self.visual_rows@, width, 0) == Some(k as int) && k
                    < self.visual_rows@.len(),
                None => warm_at(self.visual_rows@, width, 0) is None,
            },
    {
        let mut i: usize = 0;
        while i < self.visual_rows.len()
            invariant
                i <= self.visual_rows@.len(),
                warm_at(self.visual_rows@, width, i as int) == warm_at(self.visual_rows@, width, 0),
            decreases self.visual_rows@.len() - i,
        {
            if self.visual_rows[i].width() == width {
                return Some(i);
            }
            i += 1;
        }
        None
    }

    /// Makes the rows at `width` warm. `counts` says how many rows each line
    /// takes at that width, and is used only if they are not warm yet.
    pub fn ensure_visual_rows(&mut self, width: usize, counts: &Vec<usize>)
        requires
            old(self).wf(),
            counts@.len() == old(self).lines@.len(),
        ensures
            final(self).wf(),
            final(self).lines == old(self).lines,
            final(self).source_map == old(self).source_map,
            final(self).blocks == old(self).blocks,
            final(self).real_ranges == old(self).real_ranges,
            final(self).per_block_own == old(self).per_block_own,
            final(self).image_blocks == old(self).image_blocks,
            final(self).heading_anchors == old(self).heading_anchors,
            final(self).footnote_anchors == old(self).footnote_anchors,
            exists|fresh: VisualRowCache|
                fresh.width_view() == width && fresh.rows() == counts@.map_values(
                    |n: usize| visual_cache::at_least_one(n),
                ) && final(self).visual_rows@ == #[trigger] warmed(
                    old(self).visual_rows@,
                    width,
                    fresh,
                ),
            final(self).rows_at(width) == if old(self).rows_at(width) is Some {
                old(self).rows_at(width)
            } else {
                Some(counts@.map_values(|n: usize| visual_cache::at_least_one(n)))
            },
    {
        let ghost entries = self.visual_rows@;
        let fresh = VisualRowCache::build(width, counts);
        let ghost f = fresh;
        proof {
            lemma_warm_at(entries, width, 0);
        }
        match self.find_warm(width) {
            Some(pos) => {
                let entry = self.visual_rows.remove(pos);
                self.visual_rows.insert(0, entry);
                assert(self.visual_rows@ =~= warmed(entries, width, f));
                assert(self.visual_rows@[0] == entries[pos as int]);
            },
            None => {
                self.visual_rows.insert(0, fresh);
                if self.visual_rows.len() > WARM_WIDTHS {
                    self.visual_rows.truncate(WARM_WIDTHS);
                }
                assert(self.visual_rows@ =~= warmed(entries, width, f));
                assert(self.visual_rows@[0] == f);
            },
        }
        proof {
            assert(warm_at(self.visual_rows@, width, 0) == Some(0int));
            assert forall|i: int| 0 <= i < self.visual_rows@.len() implies (
            #[trigger] self.visual_rows@[i]).wf() && self.visual_rows@[i].rows().len()
                == self.lines@.len() by {
                let e = self.visual_rows@[i];
                match warm_at(entries, width, 0) {
                    Some(k) => {
                        if i > 0 {
                            assert(e == entries.remove(k)[i - 1]);
                            if i - 1 < k {
                                assert(e == entries[i - 1]);
                            } else {
                                assert(e == entries[i]);
                            }
                        }
                    },
                    None => {
                        if i > 0 {
                            assert(e == entries[i - 1]);
                        }
                    },
                }
            }
        }
    }

    /// The visual rows of rendered line `idx` at `width`.
    pub fn visual_rows_for_line_at(&self, idx: usize, width: usize) -> (r: usize)
        requires
            self.wf(),
            self.rows_at(width) is Some,
        ensures
            ({
                let rows = self.rows_at(width)->0;
                r == if idx < rows.len() {
                    rows[idx as int]
                } else {
                    1
                }
            }),
    {
        match self.find_warm(width) {
            Some(k) => self.visual_rows[k].for_line(idx),
            None => 1,
        }
    }

    /// The visual rows of the rendered lines before `idx` at `width`.
    pub fn visual_rows_before(&self, idx: usize, width: usize) -> (r: usize)
        requires
            self.wf(),
            self.rows_at(width) is Some,
        ensures
            ({
                let rows = self.rows_at(width)->0;
                r == visual_cache::rows_before(
                    rows,
                    if idx <= rows.len() {
                        idx as int
                    } else {
                        rows.len() as int
                    },
                )
            }),
    {
        match self.find_warm(width) {
            Some(k) => {
                proof {
                    assert(self.visual_rows@[k as int].wf());
                }
                self.visual_rows[k].before(idx)
            },
            None => 0,
        }
    }

    /// The visual rows of the rendered lines `first..=last` at `width`.
    pub fn visual_rows_between(&self, first: usize, last: usize, width: usize) -> (r: usize)
        requires
            self.wf(),
            self.rows_at(width) is Some,
        ensures
            ({
                let rows = self.rows_at(width)->0;
                let n = rows.len() as int;
                let end = if last < n {
                    last + 1
                } else {
                    n
                };
                r == if first > last || first >= n {
                    0
                } else {
                    visual_cache::rows_before(rows, end) - visual_cache::rows_before(
                        rows,
                        first as int,
                    )
                }
            }),
    {
        match self.find_warm(width) {
            Some(k) => {
                proof {
                    assert(self.visual_rows@[k as int].wf());
                }
                self.visual_rows[k].between(first, last)
            },
            None => 0,
        }
    }

    /// The visual rows of the whole document at `width`.
    pub fn total_visual_rows(&self, width: usize) -> (r: usize)
        requires
            self.wf(),
            self.rows_at(width) is Some,
        ensures
            ({
                let rows = self.rows_at(width)->0;
                r == visual_cache::rows_before(rows, rows.len() as int)
            }),
    {
        match self.find_warm(width) {
            Some(k) => {
                proof {
                    assert(self.visual_rows@[k as int].wf());
                }
                self.visual_rows[k].total()
            },
            None => 0,
        }
    }

    /// The rendered line that holds visual row `visual_row` at `width`, and the
    /// row within it; past the end, the number of lines and 0.
    pub fn line_at_visual_row(&self, visual_row: usize, width: usize) -> (r: (usize, usize))
        requires
            self.wf(),
            self.rows_at(width) is Some,
        ensures
            (r.0 as int, r.1 as int) == visual_cache::line_holding_row(
                self.rows_at(width)->0,
                visual_row as int,
                0,
            ),
    {
        match self.find_warm(width) {
            Some(k) => {
                proof {
                    assert(self.visual_rows@[k as int].wf());
                }
                self.visual_rows[k].find_visual_row(visual_row)
            },
            None => (0, 0),
        }
    }
}

proof fn lemma_owners_len(v: Seq<MapBlock>)
    ensures
        line_owners(v).len() == shown_lines(v).len(),
        forall|i: int| 0 <= i < line_owners(v).len() ==> #[trigger] line_owners(v)[i] < v.len()
            || v.len() > usize::MAX,
    decreases v.len(),
{
    if v.len() > 0 {
        lemma_owners_len(v.drop_last());
    }
}

/// Each line of a built document belongs to one of its blocks.
pub proof fn law_built_lines_have_owners(parts: Parts)
    requires
        parts.blocks().len() <= usize::MAX,
        0 <= parts.rendered,
    ensures
        parts.owners().len() == parts.lines().len(),
        parts.blocks().len() > 0 ==> forall|i: int|
            0 <= i < parts.owners().len() ==> #[trigger] parts.owners()[i] < parts.blocks().len(),
{
    lemma_owners_len(parts.blocks());
    lemma_next_line(parts, parts.counts.len() as int);
    let v = parts.blocks();
    assert forall|i: int| v.len() > 0 && 0 <= i < parts.owners().len() implies #[trigger] parts.owners()[i]
        < v.len() by {
        if i < line_owners(v).len() {
            assert(parts.owners()[i] == line_owners(v)[i]);
        }
    }
}

/// A built document is well formed.
pub proof fn law_built_doc_is_well_formed(
    doc: ParsedDoc,
    parts: Parts,
    blocks: Seq<Block>,
    rendered: Seq<RenderedLine>,
    width: nat,
)
    requires
        doc_is(doc, parts, blocks, rendered, width),
        0 <= parts.rendered,
        blocks.len() == parts.ranges.len(),
    ensures
        doc.wf(),
{
    lemma_owners_len(parts.blocks());
    lemma_next_line(parts, parts.counts.len() as int);
}

} // verus!
