//! Which link a click is on.

use crate::document::parsed_doc::{RenderedLine, SpanStyle};
use crate::document::parsed_doc;
use crate::editor::footnote_edit;
use crate::text;
use vstd::prelude::*;
use vstd::string::*;
use vstd::utf8::*;

verus! {

broadcast use {vstd::utf8::encode_utf8_valid_utf8, vstd::utf8::encode_utf8_decode_utf8};

/// The index at or after `j` of the `close` that balances `depth` open brackets.
/// A backslash takes the byte behind it along.
pub open spec fn closing(b: Seq<u8>, j: int, depth: nat, open: u8, close: u8) -> Option<int>
    decreases b.len() - j,
{
    if j < 0 || j >= b.len() {
        None
    } else if b[j] == open {
        closing(b, j + 1, depth + 1, open, close)
    } else if b[j] == close {
        if depth <= 1 {
            Some(j)
        } else {
            closing(b, j + 1, (depth - 1) as nat, open, close)
        }
    } else if b[j] == 92 {
        if j + 1 < b.len() {
            closing(b, j + 2, depth, open, close)
        } else {
            None
        }
    } else {
        closing(b, j + 1, depth, open, close)
    }
}

/// A closing bracket lies at or after the place where the search begins.
pub proof fn lemma_closing(b: Seq<u8>, j: int, depth: nat, open: u8, close: u8)
    requires
        0 <= j,
    ensures
        closing(b, j, depth, open, close) matches Some(c) ==> j <= c < b.len() && b[c] == close,
    decreases b.len() - j,
{
    if j < b.len() {
        if b[j] == open {
            lemma_closing(b, j + 1, depth + 1, open, close);
        } else if b[j] == close {
            if depth > 1 {
                lemma_closing(b, j + 1, (depth - 1) as nat, open, close);
            }
        } else if b[j] == 92 {
            if j + 1 < b.len() {
                lemma_closing(b, j + 2, depth, open, close);
            }
        } else {
            lemma_closing(b, j + 1, depth, open, close);
        }
    }
}

/// The bytes between the parentheses of the first link `[..](..)` at or after `i`
/// that covers column `col`. Brackets that nothing closes end the search.
pub open spec fn link_bytes(line: Seq<u8>, i: int, col: int) -> Option<Seq<u8>>
    decreases line.len() - i,
{
    if i < 0 || i >= line.len() {
        None
    } else if line[i] == 91 && !footnote_edit::escaped(line, i) {
        proof {
            lemma_closing(line, i + 1, 1, 91, 93);
        }
        match closing(line, i + 1, 1, 91, 93) {
            None => None,
            Some(c) => if c + 1 < line.len() && line[c + 1] == 40 {
                proof {
                    lemma_closing(line, c + 2, 1, 40, 41);
                }
                match closing(line, c + 2, 1, 40, 41) {
                    None => None,
                    Some(u) => if i <= col <= u {
                        Some(line.subrange(c + 2, u))
                    } else {
                        link_bytes(line, u + 1, col)
                    },
                }
            } else {
                link_bytes(line, c + 1, col)
            },
        }
    } else {
        link_bytes(line, i + 1, col)
    }
}

/// The URL of the link at offset `click` of a text: what stands between the
/// parentheses, without the whitespace at its ends. An empty URL is none.
pub open spec fn link_at(b: Seq<u8>, click: int) -> Option<Seq<char>> {
    let at = if click <= b.len() {
        click
    } else {
        b.len() as int
    };
    let start = text::line_start(b, at);
    match link_bytes(b.subrange(start, text::line_end(b, at)), 0, at - start) {
        None => None,
        Some(u) => {
            let url = text::trimmed(decode_utf8(u));
            if url.len() == 0 {
                None
            } else {
                Some(url)
            }
        },
    }
}

/// The closing bracket, or the end of `bytes` where nothing closes.
fn find_closing(bytes: &[u8], from: usize, open: u8, close: u8) -> (r: Option<usize>)
    requires
        1 <= from <= bytes@.len(),
        open != 92,
        close != 92,
    ensures
        match r {
            Some(c) => closing(bytes@, from as int, 1, open, close) == Some(c as int) && from <= c
                < bytes@.len() && bytes@[c as int] == close,
            None => closing(bytes@, from as int, 1, open, close) is None,
        },
{
    let mut depth: usize = 1;
    let mut j: usize = from;
    assert(bytes.len() == bytes@.len());
    while j < bytes.len()
        invariant
            1 <= from <= j <= bytes@.len(),
            bytes@.len() <= usize::MAX,
            1 <= depth <= 1 + j - from,
            open != 92,
            close != 92,
            closing(bytes@, j as int, depth as nat, open, close) == closing(
                bytes@,
                from as int,
                1,
                open,
                close,
            ),
        decreases bytes@.len() - j,
    {
        let c: u8 = bytes[j];
        if c == open {
            depth += 1;
        } else if c == close {
            if depth == 1 {
                return Some(j);
            }
            depth -= 1;
        } else if c == 92 {
            if j + 1 >= bytes.len() {
                return None;
            }
            j += 1;
        }
        j += 1;
    }
    None
}

/// The URL of the Markdown link `[text](url)` on the line of `click_byte`, when
/// the click falls inside it.
///
/// Brackets and parentheses balance, a backslash takes the next byte along, and
/// an escaped `[` opens nothing.
pub fn link_at_offset(source: &str, click_byte: usize) -> (r: Option<String>)
    ensures
        match r {
            Some(url) => link_at(source.spec_bytes(), click_byte as int) == Some(url@),
            None => link_at(source.spec_bytes(), click_byte as int) is None,
        },
{
    let all = source.as_bytes();
    let at: usize = if click_byte <= all.len() {
        click_byte
    } else {
        all.len()
    };
    let line_start: usize = text::line_start_byte(all, at);
    let line_end: usize = text::line_end_byte(all, at);
    let col: usize = at - line_start;
    let line = text::line_slice(source, line_start, line_end);
    let bytes = line.as_bytes();
    let ghost b = line.spec_bytes();
    let mut i: usize = 0;
    while i < bytes.len()
        invariant
            b == bytes@,
            b == line.spec_bytes(),
            i <= b.len(),
            link_bytes(b, i as int, col as int) == link_bytes(b, 0, col as int),
            link_at(source.spec_bytes(), click_byte as int) == (match link_bytes(
                b,
                0,
                col as int,
            ) {
                None => None,
                Some(u) => {
                    let url = text::trimmed(decode_utf8(u));
                    if url.len() == 0 {
                        None
                    } else {
                        Some(url)
                    }
                },
            }),
        decreases b.len() - i,
    {
        if bytes[i] == 91 && !footnote_edit::is_escaped(bytes, i) {
            match find_closing(bytes, i + 1, 91, 93) {
                None => {
                    return None;
                },
                Some(c) => {
                    if c + 1 >= bytes.len() || bytes[c + 1] != 40 {
                        i = c + 1;
                    } else {
                        match find_closing(bytes, c + 2, 40, 41) {
                            None => {
                                return None;
                            },
                            Some(u) => {
                                if col >= i && col <= u {
                                    proof {
                                        text::lemma_boundary(b, c + 2);
                                        text::lemma_boundary(b, u as int);
                                    }
                                    let raw = text::slice(line, c + 2, u);
                                    let url = text::trim(raw);
                                    proof {
                                        encode_utf8_decode_utf8(raw@);
                                    }
                                    return if url.as_str().unicode_len() == 0 {
                                        None
                                    } else {
                                        Some(url)
                                    };
                                }
                                i = u + 1;
                            },
                        }
                    }
                },
            }
        } else {
            i += 1;
        }
    }
    None
}

/// The column ranges of the runs of link spans among the spans from `k` on, which
/// begin at column `col`; `open` is where a run that is still open began.
pub open spec fn link_runs(
    spans: Seq<parsed_doc::Span>,
    k: int,
    col: int,
    open: Option<int>,
) -> Seq<(int, int)>
    decreases spans.len() - k,
{
    if k < 0 || k >= spans.len() {
        match open {
            Some(start) => seq![(start, col)],
            None => Seq::empty(),
        }
    } else {
        let after = col + spans[k].content@.len();
        if spans[k].style == SpanStyle::Link {
            link_runs(
                spans,
                k + 1,
                after,
                match open {
                    Some(start) => Some(start),
                    None => Some(col),
                },
            )
        } else {
            (match open {
                Some(start) => seq![(start, col)],
                None => Seq::empty(),
            }) + link_runs(spans, k + 1, after, None)
        }
    }
}

/// A style is that of a link: by its colour, where the theme gives links one, and by
/// its underline otherwise. `links` are the colours of the kinds of links.
pub open spec fn link_style(colour: Option<u32>, underlined: bool, links: Seq<Option<u32>>) -> bool {
    if exists|i: int| 0 <= i < links.len() && #[trigger] links[i] is Some {
        exists|i: int| 0 <= i < links.len() && #[trigger] links[i] is Some && links[i] == colour
    } else {
        underlined
    }
}

/// True iff a style is that of a link. The colour tells it, since headings are
/// underlined too; a theme without colours has only the underline.
pub fn is_link_style(colour: Option<u32>, underlined: bool, links: &[Option<u32>]) -> (r: bool)
    ensures
        r == link_style(colour, underlined, links@),
{
    let mut coloured: bool = false;
    let mut same: bool = false;
    let mut i: usize = 0;
    while i < links.len()
        invariant
            i <= links@.len(),
            coloured == (exists|k: int| 0 <= k < i && #[trigger] links@[k] is Some),
            same == (exists|k: int|
                0 <= k < i && #[trigger] links@[k] is Some && links@[k] == colour),
        decreases links@.len() - i,
    {
        match links[i] {
            Some(c) => {
                assert(links@[i as int] is Some);
                coloured = true;
                match colour {
                    Some(own) => {
                        if own == c {
                            assert(links@[i as int] == colour);
                            same = true;
                        }
                    },
                    None => {},
                }
            },
            None => {},
        }
        i += 1;
    }
    if coloured {
        same
    } else {
        underlined
    }
}

/// Ranges as numbers.
pub open spec fn range_views(ranges: Seq<(usize, usize)>) -> Seq<(int, int)> {
    ranges.map_values(|r: (usize, usize)| (r.0 as int, r.1 as int))
}

/// How many characters the spans from `k` on hold.
pub open spec fn chars_from(spans: Seq<parsed_doc::Span>, k: int) -> nat
    decreases spans.len() - k,
{
    if k < 0 || k >= spans.len() {
        0
    } else {
        spans[k].content@.len() + chars_from(spans, k + 1)
    }
}

/// The characters of a line are those before a span and those from it on.
proof fn lemma_chars_from(spans: Seq<parsed_doc::Span>, k: int)
    requires
        0 <= k <= spans.len(),
    ensures
        parsed_doc::span_chars(spans, k).len() + chars_from(spans, k) == parsed_doc::span_chars(
            spans,
            spans.len() as int,
        ).len(),
    decreases spans.len() - k,
{
    if k < spans.len() {
        lemma_chars_from(spans, k + 1);
    }
}

/// The column ranges of the runs of link spans on `line`. Adjacent link spans are
/// one run, so that a link with bold or italic parts counts once.
pub fn link_run_ranges(line: &RenderedLine) -> (r: Vec<(usize, usize)>)
    ensures
        range_views(r@) == link_runs(line.spans@, 0, 0, None),
{
    let ghost spans = line.spans@;
    let total: usize = line.text().as_str().unicode_len();
    proof {
        lemma_chars_from(spans, 0);
    }
    let mut out: Vec<(usize, usize)> = Vec::new();
    let mut col: usize = 0;
    let mut run_start: Option<usize> = None;
    let mut k: usize = 0;
    assert(range_views(out@) + link_runs(spans, 0, 0, None) =~= link_runs(spans, 0, 0, None));
    while k < line.spans.len()
        invariant
            spans == line.spans@,
            k <= spans.len(),
            col + chars_from(spans, k as int) <= usize::MAX,
            range_views(out@) + link_runs(
                spans,
                k as int,
                col as int,
                match run_start {
                    Some(s) => Some(s as int),
                    None => None,
                },
            ) == link_runs(spans, 0, 0, None),
        decreases spans.len() - k,
    {
        let ghost before = range_views(out@);
        let ghost open: Option<int> = match run_start {
            Some(s) => Some(s as int),
            None => None,
        };
        let span = &line.spans[k];
        let len: usize = span.content.as_str().unicode_len();
        let is_link: bool = match span.style {
            SpanStyle::Link => true,
            _ => false,
        };
        if is_link {
            if run_start.is_none() {
                run_start = Some(col);
            }
        } else {
            match run_start {
                Some(start) => {
                    out.push((start, col));
                    proof {
                        let run = (start as int, col as int);
                        assert(range_views(out@) =~= before.push(run));
                        let rest = link_runs(spans, k + 1, col + spans[k as int].content@.len(), None);
                        assert(before + (seq![run] + rest) =~= before.push(run) + rest);
                    }
                    run_start = None;
                },
                None => {
                    proof {
                        let rest = link_runs(spans, k + 1, col + spans[k as int].content@.len(), None);
                        assert(Seq::<(int, int)>::empty() + rest =~= rest);
                    }
                },
            }
        }
        col += len;
        k += 1;
    }
    let ghost before = range_views(out@);
    match run_start {
        Some(start) => {
            out.push((start, col));
            proof {
                let run = (start as int, col as int);
                assert(range_views(out@) =~= before.push(run));
                assert(before + seq![run] =~= before.push(run));
            }
        },
        None => {
            assert(before + Seq::<(int, int)>::empty() =~= before);
        },
    }
    out
}

} // verus!
