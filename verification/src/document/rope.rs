//! The rope that holds a document's text, and what the library takes for
//! granted of it.
//!
//! `ropey::Rope` is declared, `rope_text` names the characters that it holds,
//! and each method that the library calls has a wrapper that says what the
//! method does to them.

use crate::text;
use ropey::Rope;
use vstd::prelude::*;
use vstd::utf8::*;

verus! {

/// `ropey::Rope`, a text kept as a tree of chunks.
#[verifier::external_type_specification]
#[verifier::external_body]
pub struct ExRope(ropey::Rope);

/// The characters that a rope holds.
pub uninterp spec fn rope_text(r: ropey::Rope) -> Seq<char>;

/// The characters that end a line: line feed, vertical tab, form feed, carriage
/// return, next line, line separator and paragraph separator.
pub open spec fn is_line_break(c: char) -> bool {
    ||| '\u{a}' <= c <= '\u{d}'
    ||| c == '\u{85}'
    ||| c == '\u{2028}'
    ||| c == '\u{2029}'
}

/// A line ends with the character at index `i`. A carriage return directly
/// before a line feed does not end a line by itself.
pub open spec fn ends_line(s: Seq<char>, i: int) -> bool {
    &&& 0 <= i < s.len()
    &&& is_line_break(s[i])
    &&& !(s[i] == '\r' && i + 1 < s.len() && s[i + 1] == '\n')
}

/// How many lines end before index `i`.
pub open spec fn lines_before(s: Seq<char>, i: int) -> nat
    decreases i,
{
    if i <= 0 {
        0
    } else {
        lines_before(s, i - 1) + if ends_line(s, i - 1) {
            1nat
        } else {
            0
        }
    }
}

/// How many lines a text has: one more than line ends.
pub open spec fn line_total(s: Seq<char>) -> nat {
    lines_before(s, s.len() as int) + 1
}

/// The first index at or after `i` before which `k` lines end, or the end of
/// the text.
pub open spec fn line_begin_from(s: Seq<char>, k: int, i: int) -> int
    decreases s.len() - i,
{
    if i < s.len() && lines_before(s, i) < k {
        line_begin_from(s, k, i + 1)
    } else {
        i
    }
}

/// Where line `k` begins, counted from 0; the end of the text past the last
/// line.
pub open spec fn line_begin(s: Seq<char>, k: int) -> int {
    if k >= line_total(s) {
        s.len() as int
    } else {
        line_begin_from(s, k, 0)
    }
}

/// The number of bytes of the first `i` characters.
pub open spec fn byte_offset(s: Seq<char>, i: int) -> int {
    encode_utf8(s.take(i)).len() as int
}

/// The character at index `i` holds the byte at `byte`, or both are the ends.
pub open spec fn char_holds_byte(s: Seq<char>, i: int, byte: int) -> bool {
    &&& 0 <= i <= s.len()
    &&& byte_offset(s, i) <= byte
    &&& i < s.len() ==> byte < byte_offset(s, i + 1)
}

/// `Rope::new` is empty.
#[verifier::external_body]
pub(crate) fn rope_new() -> (r: Rope)
    ensures
        rope_text(r) == Seq::<char>::empty(),
{
    Rope::new()
}

/// `Rope::from_str` holds the given text.
#[verifier::external_body]
pub(crate) fn rope_from_str(text: &str) -> (r: Rope)
    ensures
        rope_text(r) == text@,
{
    Rope::from_str(text)
}

/// `Rope::clone` holds the same text.
#[verifier::external_body]
pub(crate) fn rope_clone(rope: &Rope) -> (r: Rope)
    ensures
        rope_text(r) == rope_text(*rope),
{
    rope.clone()
}

/// `Rope::len_chars` counts the characters.
#[verifier::external_body]
pub(crate) fn rope_len_chars(rope: &Rope) -> (n: usize)
    ensures
        n == rope_text(*rope).len(),
{
    rope.len_chars()
}

/// `Rope::len_bytes` counts the bytes.
#[verifier::external_body]
pub(crate) fn rope_len_bytes(rope: &Rope) -> (n: usize)
    ensures
        n == encode_utf8(rope_text(*rope)).len(),
{
    rope.len_bytes()
}

/// `Rope::len_lines` counts the lines: a text that ends with a line break has an
/// empty last line.
#[verifier::external_body]
pub(crate) fn rope_len_lines(rope: &Rope) -> (n: usize)
    ensures
        n == line_total(rope_text(*rope)),
{
    rope.len_lines()
}

/// `Rope::insert` puts `text` in at a character index; it panics past the end.
#[verifier::external_body]
pub(crate) fn rope_insert(rope: &mut Rope, char_idx: usize, text: &str)
    requires
        char_idx <= rope_text(*old(rope)).len(),
    ensures
        rope_text(*final(rope)) == rope_text(*old(rope)).take(char_idx as int) + text@ + rope_text(
            *old(rope),
        ).skip(char_idx as int),
{
    rope.insert(char_idx, text)
}

/// `Rope::insert_char` puts one character in at a character index; it panics
/// past the end.
#[verifier::external_body]
pub(crate) fn rope_insert_char(rope: &mut Rope, char_idx: usize, ch: char)
    requires
        char_idx <= rope_text(*old(rope)).len(),
    ensures
        rope_text(*final(rope)) == rope_text(*old(rope)).insert(char_idx as int, ch),
{
    rope.insert_char(char_idx, ch)
}

/// `Rope::remove` takes the characters `start..end` out; it panics where that is
/// no range of the text.
#[verifier::external_body]
pub(crate) fn rope_remove(rope: &mut Rope, start: usize, end: usize)
    requires
        start <= end <= rope_text(*old(rope)).len(),
    ensures
        rope_text(*final(rope)) == rope_text(*old(rope)).take(start as int) + rope_text(
            *old(rope),
        ).skip(end as int),
{
    rope.remove(start..end)
}

/// `Rope::char` is the character at an index; it panics past the last one.
#[verifier::external_body]
pub(crate) fn rope_char(rope: &Rope, char_idx: usize) -> (c: char)
    requires
        char_idx < rope_text(*rope).len(),
    ensures
        c == rope_text(*rope)[char_idx as int],
{
    rope.char(char_idx)
}

/// `Rope::slice` holds the characters `start..end`; it panics where that is no
/// range of the text.
#[verifier::external_body]
pub(crate) fn rope_slice(rope: &Rope, start: usize, end: usize) -> (s: String)
    requires
        start <= end <= rope_text(*rope).len(),
    ensures
        s@ == rope_text(*rope).subrange(start as int, end as int),
{
    rope.slice(start..end).to_string()
}

/// `Rope::get_byte_slice` holds the bytes `start..end`; `None` where that is no
/// range of the text or cuts a character.
#[verifier::external_body]
pub(crate) fn rope_byte_slice(rope: &Rope, start: usize, end: usize) -> (r: Option<String>)
    ensures
        ({
            let b = encode_utf8(rope_text(*rope));
            match r {
                Some(s) => start <= end <= b.len() && is_char_boundary(b, start as int)
                    && is_char_boundary(b, end as int) && encode_utf8(s@) == b.subrange(
                    start as int,
                    end as int,
                ),
                None => !(start <= end <= b.len() && is_char_boundary(b, start as int)
                    && is_char_boundary(b, end as int)),
            }
        }),
{
    rope.get_byte_slice(start..end).map(|s| s.to_string())
}

/// `Rope::line` holds a line with its line break; it panics past the last line.
#[verifier::external_body]
pub(crate) fn rope_line(rope: &Rope, line_idx: usize) -> (s: String)
    requires
        line_idx < line_total(rope_text(*rope)),
    ensures
        s@ == rope_text(*rope).subrange(
            line_begin(rope_text(*rope), line_idx as int),
            line_begin(rope_text(*rope), line_idx + 1),
        ),
{
    rope.line(line_idx).to_string()
}

/// `Rope::line_to_char` is where a line begins; one past the last line gives the
/// end of the text, and it panics beyond.
#[verifier::external_body]
pub(crate) fn rope_line_to_char(rope: &Rope, line_idx: usize) -> (i: usize)
    requires
        line_idx <= line_total(rope_text(*rope)),
    ensures
        i == line_begin(rope_text(*rope), line_idx as int),
{
    rope.line_to_char(line_idx)
}

/// `Rope::char_to_line` counts the lines that end before a character; it panics
/// past the end.
#[verifier::external_body]
pub(crate) fn rope_char_to_line(rope: &Rope, char_idx: usize) -> (n: usize)
    requires
        char_idx <= rope_text(*rope).len(),
    ensures
        n == lines_before(rope_text(*rope), char_idx as int),
{
    rope.char_to_line(char_idx)
}

/// `Rope::byte_to_char` is the index of the character that holds a byte; one past
/// the last byte gives the end, and it panics beyond.
#[verifier::external_body]
pub(crate) fn rope_byte_to_char(rope: &Rope, byte_idx: usize) -> (i: usize)
    requires
        byte_idx <= encode_utf8(rope_text(*rope)).len(),
    ensures
        char_holds_byte(rope_text(*rope), i as int, byte_idx as int),
{
    rope.byte_to_char(byte_idx)
}

/// `Rope::char_to_byte` counts the bytes before a character; it panics past the
/// end.
#[verifier::external_body]
pub(crate) fn rope_char_to_byte(rope: &Rope, char_idx: usize) -> (n: usize)
    requires
        char_idx <= rope_text(*rope).len(),
    ensures
        n == byte_offset(rope_text(*rope), char_idx as int),
{
    rope.char_to_byte(char_idx)
}

/// `Rope`'s `Display` writes the text.
#[verifier::external_body]
pub(crate) fn rope_to_string(rope: &Rope) -> (s: String)
    ensures
        s@ == rope_text(*rope),
{
    rope.to_string()
}

// ── Lines ────────────────────────────────────────────────────────────────
/// More characters hold no fewer line ends, and at most one each.
pub proof fn lemma_lines_before_monotone(s: Seq<char>, i: int, j: int)
    requires
        0 <= i <= j,
    ensures
        lines_before(s, i) <= lines_before(s, j) <= lines_before(s, i) + (j - i),
    decreases j - i,
{
    if i < j {
        lemma_lines_before_monotone(s, i, j - 1);
    }
}

proof fn lemma_line_begin_from(s: Seq<char>, k: int, i: int)
    requires
        0 <= i <= s.len(),
        0 <= k <= lines_before(s, s.len() as int),
        lines_before(s, i) <= k,
    ensures
        i <= line_begin_from(s, k, i) <= s.len(),
        lines_before(s, line_begin_from(s, k, i)) == k,
        forall|j: int| i <= j < line_begin_from(s, k, i) ==> lines_before(s, j) < k,
    decreases s.len() - i,
{
    if i < s.len() && lines_before(s, i) < k {
        assert(lines_before(s, i + 1) <= lines_before(s, i) + 1);
        lemma_line_begin_from(s, k, i + 1);
    }
}

/// Line `k` begins where exactly `k` lines have ended, and no sooner.
pub proof fn lemma_line_begin(s: Seq<char>, k: int)
    requires
        0 <= k,
    ensures
        0 <= line_begin(s, k) <= s.len(),
        k < line_total(s) ==> lines_before(s, line_begin(s, k)) == k,
        k < line_total(s) ==> forall|j: int|
            0 <= j < line_begin(s, k) ==> lines_before(s, j) < k,
{
    if k < line_total(s) {
        lemma_line_begin_from(s, k, 0);
    }
}

/// An index lies in the line that its line count names: not before the line's
/// start, and before the next line's.
pub proof fn lemma_line_of(s: Seq<char>, i: int)
    requires
        0 <= i <= s.len(),
    ensures
        lines_before(s, i) < line_total(s),
        line_begin(s, lines_before(s, i) as int) <= i,
        i < s.len() ==> i < line_begin(s, lines_before(s, i) as int + 1),
        i <= line_begin(s, lines_before(s, i) as int + 1),
{
    let k = lines_before(s, i) as int;
    lemma_lines_before_monotone(s, i, s.len() as int);
    lemma_line_begin(s, k);
    lemma_line_begin(s, k + 1);
    if line_begin(s, k) > i {
        assert(lines_before(s, i) < k);
    }
    if k + 1 < line_total(s) {
        let q = line_begin(s, k + 1);
        if q <= i {
            lemma_lines_before_monotone(s, q, i);
        }
    }
}

/// A later line begins no sooner.
pub proof fn lemma_line_begin_monotone(s: Seq<char>, j: int, k: int)
    requires
        0 <= j <= k,
    ensures
        line_begin(s, j) <= line_begin(s, k),
        j < k && k < line_total(s) ==> line_begin(s, j) < line_begin(s, k),
{
    lemma_line_begin(s, j);
    lemma_line_begin(s, k);
    if j < k && k < line_total(s) {
        if line_begin(s, k) <= line_begin(s, j) {
            lemma_lines_before_monotone(s, line_begin(s, k), line_begin(s, j));
        }
    }
}

// ── Bytes and characters ─────────────────────────────────────────────────
/// A text takes a byte for each character at least.
pub proof fn lemma_encode_len(s: Seq<char>)
    ensures
        encode_utf8(s).len() >= s.len(),
    decreases s.len(),
{
    if s.len() > 0 {
        lemma_encode_len(s.drop_first());
    }
}

/// The bytes of a part of a text are the part of its bytes.
pub proof fn lemma_part_bytes(s: Seq<char>, i: int, j: int)
    requires
        0 <= i <= j <= s.len(),
    ensures
        0 <= byte_offset(s, i) <= byte_offset(s, j) <= encode_utf8(s).len(),
        encode_utf8(s).subrange(byte_offset(s, i), byte_offset(s, j)) == encode_utf8(
            s.subrange(i, j),
        ),
        byte_offset(s, j) - byte_offset(s, i) >= j - i,
        byte_offset(s, 0) == 0,
        byte_offset(s, s.len() as int) == encode_utf8(s).len(),
{
    let head = s.take(i);
    let part = s.subrange(i, j);
    let tail = s.skip(j);
    assert(s =~= head + part + tail);
    assert(s.take(j) =~= head + part);
    text::lemma_encode_concat(head, part);
    text::lemma_encode_concat(head + part, tail);
    lemma_encode_len(part);
    assert(encode_utf8(s).subrange(byte_offset(s, i), byte_offset(s, j)) =~= encode_utf8(part));
    assert(s.take(s.len() as int) =~= s);
    assert(s.take(0) =~= Seq::<char>::empty());
}

/// A text can be cut between its characters.
pub proof fn lemma_offset_is_boundary(s: Seq<char>, i: int)
    requires
        0 <= i <= s.len(),
    ensures
        is_char_boundary(encode_utf8(s), byte_offset(s, i)),
    decreases s.len(),
{
    let b = encode_utf8(s);
    encode_utf8_valid_utf8(s);
    if i == 0 {
        assert(s.take(0) =~= Seq::<char>::empty());
        is_char_boundary_start_end_of_seq(b);
    } else {
        encode_utf8_first_scalar(s);
        let rest = s.drop_first();
        lemma_offset_is_boundary(rest, i - 1);
        assert(s.take(i).drop_first() =~= rest.take(i - 1));
        let l = length_of_first_scalar(b);
        assert(byte_offset(s, i) == l + byte_offset(rest, i - 1));
        assert(pop_first_scalar(b) =~= encode_utf8(rest));
    }
}

/// The index of the character that holds the byte at `byte`.
pub open spec fn char_of_byte(s: Seq<char>, byte: int) -> int {
    choose|i: int| char_holds_byte(s, i, byte)
}

/// One character holds a byte.
pub proof fn lemma_char_of_byte(s: Seq<char>, i: int, byte: int)
    requires
        char_holds_byte(s, i, byte),
        byte <= encode_utf8(s).len(),
    ensures
        char_of_byte(s, byte) == i,
{
    let k = char_of_byte(s, byte);
    assert(char_holds_byte(s, k, byte));
    if k < i {
        lemma_part_bytes(s, k + 1, i);
    } else if i < k {
        lemma_part_bytes(s, i + 1, k);
    }
}

/// Counting the bytes before a character and looking the byte up gives the
/// character back.
pub proof fn lemma_char_round_trip(s: Seq<char>, i: int)
    requires
        0 <= i <= s.len(),
    ensures
        char_of_byte(s, byte_offset(s, i)) == i,
        byte_offset(s, i) <= encode_utf8(s).len(),
{
    lemma_part_bytes(s, i, s.len() as int);
    if i < s.len() {
        lemma_part_bytes(s, i, i + 1);
    }
    lemma_char_of_byte(s, i, byte_offset(s, i));
}

/// Where a text can be cut, a character begins.
pub proof fn lemma_boundary_is_offset(s: Seq<char>, byte: int)
    requires
        is_char_boundary(encode_utf8(s), byte),
        0 <= byte <= encode_utf8(s).len(),
    ensures
        0 <= char_of_byte(s, byte) <= s.len(),
        byte_offset(s, char_of_byte(s, byte)) == byte,
{
    let b = encode_utf8(s);
    encode_utf8_valid_utf8(s);
    let head = b.subrange(0, byte);
    let tail = b.subrange(byte, b.len() as int);
    valid_utf8_split(b, byte);
    decode_utf8_split(b, byte);
    encode_utf8_decode_utf8(s);
    let i = decode_utf8(head).len() as int;
    assert(s.take(i) =~= decode_utf8(head));
    decode_utf8_encode_utf8(head);
    lemma_char_round_trip(s, i);
}

} // verus!
