//! UTF-8 text: slices by byte offset, lines, whitespace, decimal numbers.
//!
//! Offsets into a text are byte offsets, as in `str`. Contracts speak of the
//! bytes of a text (`spec_bytes`), which fix its characters and are fixed by
//! them.

use vstd::prelude::*;
use vstd::string::*;
use vstd::utf8::*;

verus! {

broadcast use vstd::utf8::group_utf8_lib;

/// The line feed byte.
pub const NEWLINE: u8 = 10;

/// The space byte.
pub const SPACE: u8 = 32;

/// The horizontal tab byte.
pub const TAB: u8 = 9;

/// `String::push` appends one character.
pub assume_specification[ String::push ](s: &mut String, c: char)
    ensures
        final(s)@ == old(s)@.push(c),
;

/// The characters with Unicode's `White_Space` property.
pub open spec fn is_whitespace_char(c: char) -> bool {
    ||| '\u{9}' <= c <= '\u{d}'
    ||| c == '\u{20}'
    ||| c == '\u{85}'
    ||| c == '\u{a0}'
    ||| c == '\u{1680}'
    ||| '\u{2000}' <= c <= '\u{200a}'
    ||| c == '\u{2028}'
    ||| c == '\u{2029}'
    ||| c == '\u{202f}'
    ||| c == '\u{205f}'
    ||| c == '\u{3000}'
}

/// True iff `c` has Unicode's `White_Space` property.
pub fn is_whitespace(c: char) -> (r: bool)
    ensures
        r == is_whitespace_char(c),
{
    ('\u{9}' <= c && c <= '\u{d}') || c == '\u{20}' || c == '\u{85}' || c == '\u{a0}' || c
        == '\u{1680}' || ('\u{2000}' <= c && c <= '\u{200a}') || c == '\u{2028}' || c == '\u{2029}'
        || c == '\u{202f}' || c == '\u{205f}' || c == '\u{3000}'
}

/// Every character is whitespace.
pub open spec fn all_whitespace(s: Seq<char>) -> bool {
    forall|i: int| 0 <= i < s.len() ==> is_whitespace_char(#[trigger] s[i])
}

/// The text of `b` holds nothing but whitespace.
pub open spec fn blank(b: Seq<u8>) -> bool {
    all_whitespace(decode_utf8(b))
}

/// True iff `s` is empty or whitespace only.
pub fn is_blank(s: &str) -> (r: bool)
    ensures
        r == all_whitespace(s@),
        r == blank(s.spec_bytes()),
{
    let mut it = s.chars();
    let ghost mut n: int = 0;
    loop
        invariant
            0 <= n <= s@.len(),
            vstd::std_specs::iter::IteratorSpec::remaining(&it) == s@.skip(n),
            forall|i: int| 0 <= i < n ==> is_whitespace_char(#[trigger] s@[i]),
        decreases s@.len() - n,
    {
        match it.next() {
            None => {
                return true;
            },
            Some(c) => {
                if !is_whitespace(c) {
                    assert(s@[n] == c);
                    return false;
                }
                proof {
                    assert(s@.skip(n).drop_first() =~= s@.skip(n + 1));
                    n = n + 1;
                }
            },
        }
    }
}

/// The bytes of two texts, one after the other.
pub proof fn lemma_encode_concat(a: Seq<char>, b: Seq<char>)
    ensures
        encode_utf8(a + b) == encode_utf8(a) + encode_utf8(b),
    decreases a.len(),
{
    if a.len() == 0 {
        assert(a + b =~= b);
        assert(encode_utf8(a) + encode_utf8(b) =~= encode_utf8(b));
    } else {
        lemma_encode_concat(a.drop_first(), b);
        assert((a + b).drop_first() =~= a.drop_first() + b);
        assert(encode_utf8(a + b) =~= encode_scalar(a[0] as u32) + (encode_utf8(a.drop_first())
            + encode_utf8(b)));
        assert(encode_utf8(a) + encode_utf8(b) =~= encode_scalar(a[0] as u32) + (encode_utf8(
            a.drop_first(),
        ) + encode_utf8(b)));
    }
}

/// An ASCII character is one byte.
pub proof fn lemma_encode_ascii(c: char)
    requires
        c <= '\u{7f}',
    ensures
        encode_utf8(seq![c]) == seq![c as u8],
{
    assert(is_ascii_chars(seq![c]));
    is_ascii_chars_encode_utf8(seq![c]);
    assert(encode_utf8(seq![c]) =~= seq![c as u8]);
}

/// Two texts with the same bytes are the same text.
pub proof fn lemma_encode_injective(a: Seq<char>, b: Seq<char>)
    requires
        encode_utf8(a) == encode_utf8(b),
    ensures
        a == b,
{
    encode_utf8_decode_utf8(a);
    encode_utf8_decode_utf8(b);
}

/// The number of bytes of `s`.
pub fn byte_len(s: &str) -> (n: usize)
    ensures
        n == s.spec_bytes().len(),
{
    s.as_bytes().len()
}

/// The bytes `from..to` of a text are a text of their own: both ends are at
/// the edges of characters.
pub open spec fn sliceable(b: Seq<u8>, from: int, to: int) -> bool {
    &&& 0 <= from <= to <= b.len()
    &&& is_char_boundary(b, from)
    &&& is_char_boundary(b, to)
}

/// Where a byte that begins a character stands, and just past an ASCII byte,
/// a text can be cut.
pub proof fn lemma_boundary(b: Seq<u8>, i: int)
    requires
        valid_utf8(b),
        0 <= i <= b.len(),
        i == 0 || i == b.len() || b[i] < 0x80 || b[i - 1] < 0x80,
    ensures
        is_char_boundary(b, i),
{
    is_char_boundary_start_end_of_seq(b);
    if 0 < i < b.len() {
        if b[i] < 0x80 {
            is_char_boundary_iff_not_is_continuation_byte(b, i);
        } else {
            lemma_after_ascii(b, i - 1);
        }
    }
}

proof fn lemma_after_ascii(b: Seq<u8>, i: int)
    requires
        valid_utf8(b),
        0 <= i < b.len(),
        b[i] < 0x80,
    ensures
        is_char_boundary(b, i + 1),
    decreases b.len(),
{
    let n = length_of_first_scalar(b);
    if i == 0 {
        assert(n == 1);
        is_char_boundary_start_end_of_seq(pop_first_scalar(b));
        reveal_with_fuel(is_char_boundary, 2);
    } else {
        if i < n {
            assert(is_continuation_byte(b[i]));
        }
        assert(pop_first_scalar(b)[i - n] == b[i]);
        lemma_after_ascii(pop_first_scalar(b), i - n);
        reveal_with_fuel(is_char_boundary, 2);
    }
}

/// A cut of a cut: where the whole text can be cut, so can the part.
pub proof fn lemma_boundary_of_part(b: Seq<u8>, from: int, to: int, i: int)
    requires
        valid_utf8(b),
        sliceable(b, from, to),
        from <= i <= to,
    ensures
        valid_utf8(b.subrange(from, to)),
        is_char_boundary(b, i) <==> is_char_boundary(b.subrange(from, to), i - from),
{
    let head = b.subrange(0, to);
    valid_utf8_split(b, to);
    lemma_boundary_prefix(b, to, from);
    valid_utf8_split(head, from);
    assert(head.subrange(from, to) =~= b.subrange(from, to));
    let part = b.subrange(from, to);
    is_char_boundary_start_end_of_seq(part);
    if i < to {
        is_char_boundary_iff_not_is_continuation_byte(b, i);
        is_char_boundary_iff_not_is_continuation_byte(part, i - from);
        assert(part[i - from] == b[i]);
    }
}

proof fn lemma_boundary_prefix(b: Seq<u8>, to: int, i: int)
    requires
        valid_utf8(b),
        0 <= i <= to <= b.len(),
        is_char_boundary(b, to),
        is_char_boundary(b, i),
    ensures
        valid_utf8(b.subrange(0, to)),
        is_char_boundary(b.subrange(0, to), i),
{
    valid_utf8_split(b, to);
    let head = b.subrange(0, to);
    is_char_boundary_start_end_of_seq(head);
    if i < to {
        is_char_boundary_iff_not_is_continuation_byte(b, i);
        is_char_boundary_iff_not_is_continuation_byte(head, i);
        assert(head[i] == b[i]);
    }
}

/// The text between two byte offsets.
pub fn slice(s: &str, from: usize, to: usize) -> (r: &str)
    requires
        sliceable(s.spec_bytes(), from as int, to as int),
    ensures
        r.spec_bytes() == s.spec_bytes().subrange(from as int, to as int),
{
    let ghost b = s.spec_bytes();
    proof {
        encode_utf8_valid_utf8(s@);
        lemma_boundary_prefix(b, to as int, from as int);
    }
    let head = s.split_at(to).0;
    let r = head.split_at(from).1;
    assert(r.spec_bytes() =~= b.subrange(from as int, to as int));
    r
}

/// Appends `t` to `out`.
pub fn append_text(out: &mut String, t: &str)
    ensures
        final(out)@ == old(out)@ + t@,
        encode_utf8(final(out)@) == encode_utf8(old(out)@) + t.spec_bytes(),
{
    proof {
        lemma_encode_concat(out@, t@);
    }
    out.append(t);
}

/// Appends the bytes `from..to` of `s` to `out`.
pub fn append_slice(out: &mut String, s: &str, from: usize, to: usize)
    requires
        sliceable(s.spec_bytes(), from as int, to as int),
    ensures
        encode_utf8(final(out)@) == encode_utf8(old(out)@) + s.spec_bytes().subrange(
            from as int,
            to as int,
        ),
{
    append_text(out, slice(s, from, to));
}

/// Appends an ASCII character to `out`.
pub fn append_ascii(out: &mut String, c: char)
    requires
        c <= '\u{7f}',
    ensures
        encode_utf8(final(out)@) == encode_utf8(old(out)@).push(c as u8),
{
    proof {
        lemma_encode_concat(out@, seq![c]);
        lemma_encode_ascii(c);
        assert(out@ + seq![c] =~= out@.push(c));
    }
    out.push(c);
    assert(encode_utf8(out@) =~= encode_utf8(old(out)@).push(c as u8));
}

/// The end of the line that holds offset `p`: the first line feed at or after
/// `p`, or the end of the text.
pub open spec fn line_end(b: Seq<u8>, p: int) -> int
    decreases b.len() - p,
{
    if 0 <= p < b.len() && b[p] != NEWLINE {
        line_end(b, p + 1)
    } else {
        p
    }
}

/// The start of the line that holds offset `p`: just past the last line feed
/// before `p`, or the start of the text.
pub open spec fn line_start(b: Seq<u8>, p: int) -> int
    decreases p,
{
    if 0 < p <= b.len() && b[p - 1] != NEWLINE {
        line_start(b, p - 1)
    } else {
        p
    }
}

/// A line begins at offset `p`.
pub open spec fn at_line_start(b: Seq<u8>, p: int) -> bool {
    0 <= p <= b.len() && (p == 0 || b[p - 1] == NEWLINE)
}

/// A line ends at offset `p`.
pub open spec fn at_line_end(b: Seq<u8>, p: int) -> bool {
    0 <= p <= b.len() && (p == b.len() || b[p] == NEWLINE)
}

/// The line that begins at offset `p`, without its line feed.
pub open spec fn line_at(b: Seq<u8>, p: int) -> Seq<u8> {
    b.subrange(p, line_end(b, p))
}

pub proof fn lemma_line_end(b: Seq<u8>, p: int)
    requires
        0 <= p <= b.len(),
    ensures
        p <= line_end(b, p) <= b.len(),
        at_line_end(b, line_end(b, p)),
        forall|i: int| p <= i < line_end(b, p) ==> b[i] != NEWLINE,
    decreases b.len() - p,
{
    if p < b.len() && b[p] != NEWLINE {
        lemma_line_end(b, p + 1);
    }
}

pub proof fn lemma_line_start(b: Seq<u8>, p: int)
    requires
        0 <= p <= b.len(),
    ensures
        0 <= line_start(b, p) <= p,
        at_line_start(b, line_start(b, p)),
        forall|i: int| line_start(b, p) <= i < p ==> b[i] != NEWLINE,
    decreases p,
{
    if 0 < p && b[p - 1] != NEWLINE {
        lemma_line_start(b, p - 1);
    }
}

/// The end of a line is the same from every offset of the line.
pub proof fn lemma_line_end_unique(b: Seq<u8>, p: int, e: int)
    requires
        0 <= p <= e <= b.len(),
        at_line_end(b, e),
        forall|i: int| p <= i < e ==> b[i] != NEWLINE,
    ensures
        line_end(b, p) == e,
    decreases e - p,
{
    if p < e {
        lemma_line_end_unique(b, p + 1, e);
    }
}

/// The start of a line is the same from every offset of the line.
pub proof fn lemma_line_start_unique(b: Seq<u8>, s: int, p: int)
    requires
        0 <= s <= p <= b.len(),
        at_line_start(b, s),
        forall|i: int| s <= i < p ==> b[i] != NEWLINE,
    ensures
        line_start(b, p) == s,
    decreases p - s,
{
    if s < p {
        lemma_line_start_unique(b, s, p - 1);
    }
}

/// A text can be cut at the edges of its lines.
pub proof fn lemma_line_edges(b: Seq<u8>, p: int)
    requires
        valid_utf8(b),
        at_line_start(b, p) || at_line_end(b, p),
    ensures
        is_char_boundary(b, p),
{
    lemma_boundary(b, p);
}

/// The start of the line that holds `pos`, which is cut to the text's length.
pub fn line_start_byte(bytes: &[u8], pos: usize) -> (r: usize)
    ensures
        r == line_start(bytes@, if pos <= bytes@.len() { pos as int } else { bytes@.len() as int }),
        r <= pos,
        at_line_start(bytes@, r as int),
{
    let mut p: usize = if pos <= bytes.len() { pos } else { bytes.len() };
    let ghost p0: int = p as int;
    while p > 0 && bytes[p - 1] != NEWLINE
        invariant
            p <= p0 <= bytes@.len(),
            line_start(bytes@, p as int) == line_start(bytes@, p0),
        decreases p,
    {
        p -= 1;
    }
    p
}

/// The end of the line that holds `start`; `start` itself past the text.
pub fn line_end_byte(bytes: &[u8], start: usize) -> (r: usize)
    ensures
        r == line_end(bytes@, start as int),
        start <= bytes@.len() ==> start <= r <= bytes@.len() && at_line_end(bytes@, r as int),
{
    let mut p: usize = start;
    while p < bytes.len() && bytes[p] != NEWLINE
        invariant
            start <= p,
            start <= bytes@.len() ==> p <= bytes@.len(),
            line_end(bytes@, p as int) == line_end(bytes@, start as int),
        decreases bytes@.len() - p,
    {
        p += 1;
    }
    p
}

/// True iff two texts are the same.
pub fn text_eq(a: &str, b: &str) -> (r: bool)
    ensures
        r == (a@ == b@),
        r == (a.spec_bytes() == b.spec_bytes()),
{
    let x = a.as_bytes();
    let y = b.as_bytes();
    proof {
        if a.spec_bytes() == b.spec_bytes() {
            lemma_encode_injective(a@, b@);
        }
    }
    if x.len() != y.len() {
        return false;
    }
    let mut i: usize = 0;
    while i < x.len()
        invariant
            i <= x@.len(),
            x@ == a.spec_bytes(),
            y@ == b.spec_bytes(),
            x@.len() == y@.len(),
            forall|j: int| 0 <= j < i ==> x@[j] == y@[j],
        decreases x@.len() - i,
    {
        if x[i] != y[i] {
            assert(x@ != y@);
            return false;
        }
        i += 1;
    }
    assert(x@ =~= y@);
    proof {
        lemma_encode_injective(a@, b@);
    }
    true
}

/// The text from the start of a line to the end of a line.
pub fn line_slice(s: &str, from: usize, to: usize) -> (r: &str)
    requires
        at_line_start(s.spec_bytes(), from as int),
        at_line_end(s.spec_bytes(), to as int),
        from <= to,
    ensures
        r.spec_bytes() == s.spec_bytes().subrange(from as int, to as int),
{
    proof {
        lemma_line_edges(s.spec_bytes(), from as int);
        lemma_line_edges(s.spec_bytes(), to as int);
    }
    slice(s, from, to)
}

/// The decimal digits of `n`.
pub open spec fn decimal(n: nat) -> Seq<u8>
    decreases n,
{
    if n < 10 {
        seq![(48 + n) as u8]
    } else {
        decimal(n / 10).push((48 + n % 10) as u8)
    }
}

/// An ASCII decimal digit.
pub open spec fn is_digit(b: u8) -> bool {
    48 <= b <= 57
}

/// The number that a row of decimal digits writes.
pub open spec fn digits_value(d: Seq<u8>) -> nat
    decreases d.len(),
{
    if d.len() == 0 {
        0
    } else {
        digits_value(d.drop_last()) * 10 + (d.last() - 48) as nat
    }
}

/// Appends `n` in decimal to `out`.
pub fn append_number(out: &mut String, n: u64)
    ensures
        encode_utf8(final(out)@) == encode_utf8(old(out)@) + decimal(n as nat),
    decreases n,
{
    if n < 10 {
        append_ascii(out, digit_char(n as u8));
        assert(encode_utf8(out@) =~= encode_utf8(old(out)@) + decimal(n as nat));
    } else {
        append_number(out, n / 10);
        append_ascii(out, digit_char((n % 10) as u8));
        assert(encode_utf8(out@) =~= encode_utf8(old(out)@) + decimal(n as nat));
    }
}

fn digit_char(d: u8) -> (c: char)
    requires
        d < 10,
    ensures
        c as u8 == 48 + d,
        c <= '\u{7f}',
{
    (48 + d) as char
}

/// More digits never write a smaller number.
proof fn lemma_digits_value_prefix(d: Seq<u8>, k: int)
    requires
        0 <= k <= d.len(),
    ensures
        digits_value(d.subrange(0, k)) <= digits_value(d),
    decreases d.len() - k,
{
    if k == d.len() {
        assert(d.subrange(0, k) =~= d);
    } else {
        let p = d.drop_last();
        lemma_digits_value_prefix(p, k);
        assert(p.subrange(0, k) =~= d.subrange(0, k));
    }
}

/// The number that the digits `from..to` write, unless it is over `u64::MAX`.
pub fn parse_number(bytes: &[u8], from: usize, to: usize) -> (r: Option<u64>)
    requires
        from <= to <= bytes@.len(),
        forall|i: int| from <= i < to ==> is_digit(#[trigger] bytes@[i]),
    ensures
        ({
            let v = digits_value(bytes@.subrange(from as int, to as int));
            r == if v <= u64::MAX {
                Some(v as u64)
            } else {
                None
            }
        }),
{
    let ghost d = bytes@.subrange(from as int, to as int);
    let mut n: u64 = 0;
    let mut i: usize = from;
    assert(bytes@.subrange(from as int, from as int) =~= Seq::<u8>::empty());
    assert(digits_value(Seq::<u8>::empty()) == 0);
    while i < to
        invariant
            from <= i <= to <= bytes@.len(),
            d == bytes@.subrange(from as int, to as int),
            forall|j: int| from <= j < to ==> is_digit(#[trigger] bytes@[j]),
            n == digits_value(bytes@.subrange(from as int, i as int)),
        decreases to - i,
    {
        let digit: u64 = (bytes[i] - 48) as u64;
        let ghost longer = bytes@.subrange(from as int, i + 1);
        proof {
            assert(longer.drop_last() =~= bytes@.subrange(from as int, i as int));
            lemma_digits_value_prefix(d, i + 1 - from);
            assert(d.subrange(0, i + 1 - from) =~= longer);
        }
        if n > u64::MAX / 10 || n * 10 > u64::MAX - digit {
            return None;
        }
        n = n * 10 + digit;
        i += 1;
    }
    Some(n)
}

/// The digits of `n` are decimal digits, at least one, and write `n`.
pub proof fn lemma_decimal(n: nat)
    ensures
        decimal(n).len() >= 1,
        forall|i: int| 0 <= i < decimal(n).len() ==> is_digit(#[trigger] decimal(n)[i]),
        digits_value(decimal(n)) == n,
    decreases n,
{
    if n >= 10 {
        lemma_decimal(n / 10);
        assert(decimal(n).drop_last() =~= decimal(n / 10));
    } else {
        assert(decimal(n).drop_last() =~= Seq::<u8>::empty());
        assert(digits_value(Seq::<u8>::empty()) == 0);
    }
}

/// The digits of a number that fits in a `u64` are twenty at most.
pub proof fn lemma_decimal_len(n: nat, k: nat)
    requires
        n < vstd::arithmetic::power::pow(10, k),
        k >= 1,
    ensures
        decimal(n).len() <= k,
    decreases k,
{
    if n >= 10 {
        reveal(vstd::arithmetic::power::pow);
        if k == 1 {
            assert(vstd::arithmetic::power::pow(10, 0) == 1);
        } else {
            lemma_decimal_len(n / 10, (k - 1) as nat);
        }
    }
}


/// The first index at or after `i` that holds no whitespace.
pub open spec fn skip_whitespace(s: Seq<char>, i: int) -> int
    decreases s.len() - i,
{
    if 0 <= i < s.len() && is_whitespace_char(s[i]) {
        skip_whitespace(s, i + 1)
    } else {
        i
    }
}

/// The last index at or before `i`, and not before `low`, with no whitespace
/// directly in front of it.
pub open spec fn skip_whitespace_back(s: Seq<char>, low: int, i: int) -> int
    decreases i - low,
{
    if low < i <= s.len() && is_whitespace_char(s[i - 1]) {
        skip_whitespace_back(s, low, i - 1)
    } else {
        i
    }
}

/// `s` without the whitespace at its ends.
pub open spec fn trimmed(s: Seq<char>) -> Seq<char> {
    let from = skip_whitespace(s, 0);
    s.subrange(from, skip_whitespace_back(s, from, s.len() as int))
}

/// `s` without the whitespace at its end.
pub open spec fn trimmed_end(s: Seq<char>) -> Seq<char> {
    s.take(skip_whitespace_back(s, 0, s.len() as int))
}

/// Skipping back stays in its range.
pub proof fn lemma_skip_whitespace_back(s: Seq<char>, low: int, i: int)
    requires
        0 <= low <= i <= s.len(),
    ensures
        low <= skip_whitespace_back(s, low, i) <= i,
    decreases i - low,
{
    if low < i && is_whitespace_char(s[i - 1]) {
        lemma_skip_whitespace_back(s, low, i - 1);
    }
}

/// The characters of `s`.
pub fn chars_of(s: &str) -> (r: Vec<char>)
    ensures
        r@ == s@,
{
    let mut out: Vec<char> = Vec::new();
    let mut it = s.chars();
    let ghost mut n: int = 0;
    loop
        invariant
            0 <= n <= s@.len(),
            vstd::std_specs::iter::IteratorSpec::remaining(&it) == s@.skip(n),
            out@ == s@.take(n),
        decreases s@.len() - n,
    {
        match it.next() {
            None => {
                assert(s@.take(n) =~= s@);
                return out;
            },
            Some(c) => {
                out.push(c);
                proof {
                    assert(s@[n] == c);
                    assert(s@.skip(n).drop_first() =~= s@.skip(n + 1));
                    assert(out@ =~= s@.take(n + 1));
                    n = n + 1;
                }
            },
        }
    }
}

/// The text of the characters `from..to`.
pub fn text_of_chars(chars: &[char], from: usize, to: usize) -> (r: String)
    requires
        from <= to <= chars@.len(),
    ensures
        r@ == chars@.subrange(from as int, to as int),
{
    let mut out: String = String::new();
    let mut i: usize = from;
    while i < to
        invariant
            from <= i <= to <= chars@.len(),
            out@ == chars@.subrange(from as int, i as int),
        decreases to - i,
    {
        out.push(chars[i]);
        i += 1;
        assert(out@ =~= chars@.subrange(from as int, i as int));
    }
    out
}

/// `s` without the whitespace at its ends.
pub fn trim(s: &str) -> (r: String)
    ensures
        r@ == trimmed(s@),
{
    let chars = chars_of(s);
    let mut from: usize = 0;
    while from < chars.len() && is_whitespace(chars[from])
        invariant
            chars@ == s@,
            from <= chars@.len(),
            skip_whitespace(s@, from as int) == skip_whitespace(s@, 0),
        decreases chars@.len() - from,
    {
        from += 1;
    }
    let mut to: usize = chars.len();
    while to > from && is_whitespace(chars[to - 1])
        invariant
            chars@ == s@,
            from <= to <= chars@.len(),
            skip_whitespace_back(s@, from as int, to as int) == skip_whitespace_back(
                s@,
                from as int,
                s@.len() as int,
            ),
        decreases to,
    {
        to -= 1;
    }
    text_of_chars(chars.as_slice(), from, to)
}

} // verus!
