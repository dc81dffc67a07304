//! What holds of names, underlines and trimmed texts.

use crate::document::parsed_doc;
use crate::document::parsed_doc::SetextKind;
use crate::text;
use std::ops::Range;
use vstd::prelude::*;
use vstd::utf8::*;

verus! {

// ── Slugs ────────────────────────────────────────────────────────────────
/// A slug is made of ASCII letters, digits and hyphens, and is no longer than its text. A
/// text of such characters is its own slug.
pub proof fn law_slug_characters(s: Seq<char>)
    ensures
        ({
            let t = parsed_doc::slug_of(s);
            &&& t.len() <= s.len()
            &&& forall|k: int|
                0 <= k < t.len() ==> ('a' <= #[trigger] t[k] <= 'z' || 'A' <= t[k] <= 'Z' || '0'
                    <= t[k] <= '9' || t[k] == '-')
            &&& (forall|k: int|
                0 <= k < s.len() ==> ('a' <= #[trigger] s[k] <= 'z' || 'A' <= s[k] <= 'Z' || '0'
                    <= s[k] <= '9' || s[k] == '-')) ==> t == s
        }),
    decreases s.len(),
{
    if s.len() > 0 {
        let rest = s.drop_last();
        law_slug_characters(rest);
        let t = parsed_doc::slug_of(s);
        let u = parsed_doc::slug_of(rest);
        assert forall|k: int| 0 <= k < t.len() implies ('a' <= #[trigger] t[k] <= 'z' || 'A'
            <= t[k] <= 'Z' || '0' <= t[k] <= '9' || t[k] == '-') by {
            if k < u.len() {
                assert(t[k] == u[k]);
            }
        }
        if forall|k: int|
            0 <= k < s.len() ==> ('a' <= #[trigger] s[k] <= 'z' || 'A' <= s[k] <= 'Z' || '0' <= s[k]
                <= '9' || s[k] == '-') {
            assert forall|k: int| 0 <= k < rest.len() implies ('a' <= #[trigger] rest[k] <= 'z'
                || 'A' <= rest[k] <= 'Z' || '0' <= rest[k] <= '9' || rest[k] == '-') by {
                assert(rest[k] == s[k]);
            }
            assert(s.last() == s[s.len() - 1]);
            assert(rest.push(s.last()) =~= s);
        }
    }
}

/// Words that blanks part are joined by one hyphen in a slug, however many blanks there
/// are.
pub proof fn law_slug_joins_words(a: Seq<char>, blanks: Seq<char>, b: Seq<char>)
    requires
        blanks.len() > 0,
        text::all_whitespace(blanks),
        a.len() == 0 || !text::is_whitespace_char(a.last()),
        b.len() == 0 || !text::is_whitespace_char(b[0]),
    ensures
        parsed_doc::slug_of(a + blanks + b) == parsed_doc::slug_of(a) + seq!['-']
            + parsed_doc::slug_of(b),
    decreases b.len(),
{
    let all = a + blanks + b;
    if b.len() == 0 {
        assert(all =~= a + blanks);
        lemma_slug_blanks(a, blanks);
        assert(parsed_doc::slug_of(b) =~= Seq::<char>::empty());
        assert(parsed_doc::slug_of(a) + seq!['-'] + Seq::<char>::empty() =~= parsed_doc::slug_of(a)
            + seq!['-']);
    } else {
        let c = b.drop_last();
        if c.len() > 0 {
            assert(c[0] == b[0]);
        }
        law_slug_joins_words(a, blanks, c);
        assert(all.drop_last() =~= a + blanks + c);
        assert(all.last() == b.last());
        if b.len() > 1 {
            assert(all[all.len() - 2] == b[b.len() - 2]);
        } else {
            assert(b.last() == b[0]);
        }
        let head = parsed_doc::slug_of(a) + seq!['-'];
        let rest = parsed_doc::slug_of(c);
        assert((head + rest).push('-') =~= head + rest.push('-'));
        assert((head + rest).push(b.last()) =~= head + rest.push(b.last()));
    }
}

proof fn lemma_slug_blanks(a: Seq<char>, blanks: Seq<char>)
    requires
        blanks.len() > 0,
        text::all_whitespace(blanks),
        a.len() == 0 || !text::is_whitespace_char(a.last()),
    ensures
        parsed_doc::slug_of(a + blanks) == parsed_doc::slug_of(a) + seq!['-'],
    decreases blanks.len(),
{
    let all = a + blanks;
    let c = blanks.drop_last();
    assert(all.drop_last() =~= a + c);
    assert(all.last() == blanks.last());
    assert(text::is_whitespace_char(blanks[blanks.len() - 1]));
    if c.len() > 0 {
        assert forall|k: int| 0 <= k < c.len() implies text::is_whitespace_char(#[trigger] c[k]) by {
            assert(c[k] == blanks[k]);
        }
        lemma_slug_blanks(a, c);
        assert(all[all.len() - 2] == blanks[blanks.len() - 2]);
    } else {
        assert(all.drop_last() =~= a);
        if a.len() > 0 {
            assert(all[all.len() - 2] == a.last());
        }
        assert(parsed_doc::slug_of(a).push('-') =~= parsed_doc::slug_of(a) + seq!['-']);
    }
}

// ── Underlined headings ──────────────────────────────────────────────────
/// A line with something on it that begins with no number sign is a heading of the first
/// level where a line of equals signs follows, and one of the second level where a line
/// of hyphens does.
pub proof fn law_underlines_make_headings(first: Seq<char>, n: nat, c: u8)
    requires
        n > 0,
        c == 61 || c == 45,
        !first.contains('\n'),
        exists|k: int|
            0 <= k < first.len() && !text::is_whitespace_char(#[trigger] first[k]) && first[k]
                != '#' && forall|j: int|
                0 <= j < k ==> text::is_whitespace_char(#[trigger] first[j]),
    ensures
        parsed_doc::setext_of(
            encode_utf8(first) + seq![10u8] + Seq::new(n, |i: int| c),
        ) == Some(
            if c == 61 {
                SetextKind::H1
            } else {
                SetextKind::H2
            },
        ),
{
    let head = encode_utf8(first);
    let under = Seq::new(n, |i: int| c);
    let b = head + seq![10u8] + under;
    let e = head.len() as int;
    assert forall|i: int| 0 <= i < e implies #[trigger] b[i] != text::NEWLINE by {
        assert(b[i] == head[i]);
        if head[i] == text::NEWLINE {
            lemma_feed_is_char(first, i);
        }
    }
    assert(b[e] == 10u8);
    text::lemma_line_end_unique(b, 0, e);
    assert(b.subrange(0, e) =~= head);
    encode_utf8_decode_utf8(first);
    assert forall|i: int| e + 1 <= i < b.len() implies #[trigger] b[i] != text::NEWLINE by {
        assert(b[i] == under[i - e - 1]);
    }
    text::lemma_line_end_unique(b, e + 1, b.len() as int);
    assert(b.subrange(e + 1, b.len() as int) =~= under);
    let k = choose|k: int|
        0 <= k < first.len() && !text::is_whitespace_char(#[trigger] first[k]) && first[k] != '#'
            && forall|j: int| 0 <= j < k ==> text::is_whitespace_char(#[trigger] first[j]);
    lemma_first_visible(first, 0, k);
    lemma_run_is(under, c, 0);
    if c == 45 {
        assert(parsed_doc::run_end(under, 61, 0) == 0) by {
            assert(under[0] == 45);
        }
    }
    assert(under.subrange(n as int, n as int) =~= Seq::<u8>::empty());
    assert(decode_utf8(Seq::<u8>::empty()) =~= Seq::<char>::empty());
}

proof fn lemma_run_is(b: Seq<u8>, c: u8, i: int)
    requires
        0 <= i <= b.len(),
        forall|k: int| i <= k < b.len() ==> #[trigger] b[k] == c,
    ensures
        parsed_doc::run_end(b, c, i) == b.len(),
    decreases b.len() - i,
{
    if i < b.len() {
        lemma_run_is(b, c, i + 1);
    }
}

proof fn lemma_first_visible(s: Seq<char>, i: int, k: int)
    requires
        0 <= i <= k < s.len(),
        !text::is_whitespace_char(s[k]),
        forall|j: int| i <= j < k ==> text::is_whitespace_char(#[trigger] s[j]),
    ensures
        parsed_doc::first_visible(s, i) == Some(s[k]),
    decreases k - i,
{
    if i < k {
        lemma_first_visible(s, i + 1, k);
    }
}

/// A line feed among the bytes of a text is one of its characters.
proof fn lemma_feed_is_char(s: Seq<char>, i: int)
    requires
        0 <= i < encode_utf8(s).len(),
        encode_utf8(s)[i] == text::NEWLINE,
    ensures
        s.contains('\n'),
{
    let b = encode_utf8(s);
    encode_utf8_valid_utf8(s);
    text::lemma_boundary(b, i);
    decode_utf8_split(b, i);
    valid_utf8_split(b, i);
    let post = b.subrange(i, b.len() as int);
    let pre = b.subrange(0, i);
    decode_utf8_first_scalar(post);
    encode_utf8_decode_utf8(s);
    let n = decode_utf8(pre).len() as int;
    assert(post[0] == 10u8);
    assert(decode_utf8(post).len() > 0);
    assert(10u8 & 0x7F == 10u8) by (bit_vector);
    assert(10u8 & 0x80 == 0) by (bit_vector);
    assert(decode_utf8(post)[0] == '\n');
    assert(s[n] == '\n');
}

// ── Blocks and texts ─────────────────────────────────────────────────────
/// The content of a block ends before the line feeds at its end: nothing but those is left
/// out, and none is left.
pub proof fn law_content_ends_before_feeds(b: Seq<u8>, r: Range<usize>)
    requires
        r.start <= r.end <= b.len(),
    ensures
        ({
            let e = parsed_doc::content_end(b, r);
            &&& r.start <= e <= r.end
            &&& forall|k: int| e <= k < r.end ==> #[trigger] b[k] == text::NEWLINE
            &&& e > r.start ==> b[e - 1] != text::NEWLINE
        }),
{
    lemma_without_newlines(b, r.start as int, r.end as int);
}

proof fn lemma_without_newlines(b: Seq<u8>, start: int, end: int)
    requires
        0 <= start <= end <= b.len(),
    ensures
        ({
            let e = parsed_doc::without_newlines(b, start, end);
            &&& start <= e <= end
            &&& forall|k: int| e <= k < end ==> #[trigger] b[k] == text::NEWLINE
            &&& e > start ==> b[e - 1] != text::NEWLINE
        }),
    decreases end,
{
    if start < end && b[end - 1] == text::NEWLINE {
        lemma_without_newlines(b, start, end - 1);
    }
}

proof fn lemma_skip(s: Seq<char>, i: int)
    requires
        0 <= i <= s.len(),
    ensures
        ({
            let k = text::skip_whitespace(s, i);
            &&& i <= k <= s.len()
            &&& forall|j: int| i <= j < k ==> text::is_whitespace_char(#[trigger] s[j])
            &&& k < s.len() ==> !text::is_whitespace_char(s[k])
        }),
    decreases s.len() - i,
{
    if i < s.len() && text::is_whitespace_char(s[i]) {
        lemma_skip(s, i + 1);
    }
}

proof fn lemma_skip_back(s: Seq<char>, low: int, i: int)
    requires
        0 <= low <= i <= s.len(),
    ensures
        ({
            let k = text::skip_whitespace_back(s, low, i);
            &&& low <= k <= i
            &&& forall|j: int| k <= j < i ==> text::is_whitespace_char(#[trigger] s[j])
            &&& k > low ==> !text::is_whitespace_char(s[k - 1])
        }),
    decreases i - low,
{
    if low < i && text::is_whitespace_char(s[i - 1]) {
        lemma_skip_back(s, low, i - 1);
    }
}

/// A trimmed text is the text without the blanks at its ends, and with all else: it begins
/// and ends with no blank, and only blanks stand before and behind it.
pub proof fn law_trimmed_loses_blanks_alone(s: Seq<char>) -> (r: (int, int))
    ensures
        ({
            let t = text::trimmed(s);
            let (a, z) = r;
            &&& 0 <= a <= z <= s.len()
            &&& t == s.subrange(a, z)
            &&& forall|j: int| 0 <= j < a ==> text::is_whitespace_char(#[trigger] s[j])
            &&& forall|j: int| z <= j < s.len() ==> text::is_whitespace_char(#[trigger] s[j])
            &&& t.len() > 0 ==> !text::is_whitespace_char(t[0]) && !text::is_whitespace_char(
                t.last(),
            )
        }),
{
    let a = text::skip_whitespace(s, 0);
    let z = text::skip_whitespace_back(s, a, s.len() as int);
    lemma_skip(s, 0);
    lemma_skip_back(s, a, s.len() as int);
    (a, z)
}

/// A text without the blanks at its end keeps all that stands before them.
pub proof fn law_trimmed_end_keeps_the_start(s: Seq<char>)
    ensures
        ({
            let t = text::trimmed_end(s);
            &&& t.len() <= s.len()
            &&& t == s.subrange(0, t.len() as int)
            &&& forall|j: int| t.len() <= j < s.len() ==> text::is_whitespace_char(#[trigger] s[j])
            &&& t.len() > 0 ==> !text::is_whitespace_char(t.last())
        }),
{
    lemma_skip_back(s, 0, s.len() as int);
    let t = text::trimmed_end(s);
    assert(t =~= s.subrange(0, t.len() as int));
}

} // verus!
