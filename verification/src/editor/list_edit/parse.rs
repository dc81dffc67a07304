//! Markdown list detection and primitive parsing.
//!
//! Takes a source text and a byte offset and returns what the list around
//! that offset is made of, if there is one. The edits live in `super::edit`.

use crate::document::history::EditDelta;
use crate::text;
use vstd::prelude::*;
use vstd::string::*;
use vstd::utf8::*;

verus! {

broadcast use {vstd::utf8::encode_utf8_valid_utf8, vstd::utf8::encode_utf8_decode_utf8};

/// A Markdown list found in a source text.
#[derive(Debug, Clone, PartialEq, Eq)]
pub struct ListInfo {
    /// Offset of the first byte of the list: the start of the first item,
    /// with its indent.
    pub start: usize,
    /// Offset just past the last byte of the list, with the final item's
    /// line feed where there is one.
    pub end: usize,
    /// Leading spaces and tabs before each item's marker. All items of one
    /// list share them.
    pub indent: String,
    /// Marker family: bullet character or ordered-list delimiter.
    pub kind: MarkerKind,
    /// Items in source order.
    pub items: Vec<ListItemInfo>,
}

#[derive(Debug, Clone, Copy, PartialEq, Eq, Structural)]
pub enum MarkerKind {
    /// Bullet list: one of `-`, `*`, `+`.
    Bullet(char),
    /// Ordered list: the delimiter, `.` or `)`. Each item keeps its number.
    Ordered(char),
}

/// One item of a list.
#[derive(Debug, Clone, PartialEq, Eq)]
pub struct ListItemInfo {
    /// Offset of the first byte of the item's first line, indent included.
    pub start: usize,
    /// Offset just past the item's last byte: continuation lines, nested list
    /// lines, and the final line feed where there is one.
    pub end: usize,
    /// Offset of the marker.
    pub marker_start: usize,
    /// Offset just past the marker and the space behind it.
    pub marker_end: usize,
    /// Offset of the user's content on the first line: `marker_end`, or just
    /// past the checkbox of a task item.
    pub content_start: usize,
    /// Offset where the first line ends, before its line feed.
    pub line_end: usize,
    /// The number of an ordered item.
    pub number: Option<u64>,
    /// `None`: no task item; `Some(false)`: `[ ]`; `Some(true)`: `[x]`.
    pub task: Option<bool>,
    /// Offset of the `[` of a task item's checkbox.
    pub task_box: Option<usize>,
}

/// A space or a tab.
pub open spec fn is_indent_byte(b: u8) -> bool {
    b == text::SPACE || b == text::TAB
}

/// The first offset at or after `i` that holds neither space nor tab.
pub open spec fn skip_indent(line: Seq<u8>, i: int) -> int
    decreases line.len() - i,
{
    if 0 <= i < line.len() && is_indent_byte(line[i]) {
        skip_indent(line, i + 1)
    } else {
        i
    }
}

/// The first offset at or after `i` that holds no decimal digit.
pub open spec fn skip_digits(line: Seq<u8>, i: int) -> int
    decreases line.len() - i,
{
    if 0 <= i < line.len() && text::is_digit(line[i]) {
        skip_digits(line, i + 1)
    } else {
        i
    }
}

/// What stands at the start of an item's first line.
pub struct Marker {
    /// The indent before the marker.
    pub indent: Seq<u8>,
    pub kind: MarkerKind,
    pub number: Option<u64>,
    /// The length of indent, marker and the space behind it.
    pub width: nat,
}

/// The marker at the start of `line`, a line without its line feed: an indent,
/// a bullet or a number with its delimiter, and a space.
pub open spec fn marker_of(line: Seq<u8>) -> Option<Marker> {
    let i = skip_indent(line, 0);
    let d = skip_digits(line, i);
    let value = text::digits_value(line.subrange(i, d));
    let indent = line.subrange(0, i);
    if i + 1 < line.len() && (line[i] == 45 || line[i] == 42 || line[i] == 43) && line[i + 1]
        == text::SPACE {
        Some(
            Marker {
                indent,
                kind: MarkerKind::Bullet(line[i] as char),
                number: None,
                width: (i + 2) as nat,
            },
        )
    } else if i < d && d + 1 < line.len() && value <= u64::MAX && (line[d] == 46 || line[d] == 41)
        && line[d + 1] == text::SPACE {
        Some(
            Marker {
                indent,
                kind: MarkerKind::Ordered(line[d] as char),
                number: Some(value as u64),
                width: (d + 2) as nat,
            },
        )
    } else {
        None
    }
}

/// `line` begins an item of the list with this indent and kind.
pub open spec fn list_line(line: Seq<u8>, indent: Seq<u8>, kind: MarkerKind) -> bool {
    match marker_of(line) {
        Some(m) => m.indent == indent && m.kind == kind,
        None => false,
    }
}

/// `line` extends the item above it in a list with this indent: it has more
/// than spaces and tabs, and is indented by `indent` and then some.
pub open spec fn continuation(line: Seq<u8>, indent: Seq<u8>) -> bool {
    let lead = skip_indent(line, 0);
    &&& lead < line.len()
    &&& lead > indent.len()
    &&& line.subrange(0, indent.len() as int) == indent
}

/// `line` begins with a space or a tab.
pub open spec fn indented(line: Seq<u8>) -> bool {
    line.len() > 0 && is_indent_byte(line[0])
}

pub proof fn lemma_skip_indent(line: Seq<u8>, i: int)
    requires
        0 <= i <= line.len(),
    ensures
        i <= skip_indent(line, i) <= line.len(),
        forall|j: int| i <= j < skip_indent(line, i) ==> is_indent_byte(#[trigger] line[j]),
        skip_indent(line, i) < line.len() ==> !is_indent_byte(line[skip_indent(line, i)]),
    decreases line.len() - i,
{
    if i < line.len() && is_indent_byte(line[i]) {
        lemma_skip_indent(line, i + 1);
    }
}

pub proof fn lemma_skip_digits(line: Seq<u8>, i: int)
    requires
        0 <= i <= line.len(),
    ensures
        i <= skip_digits(line, i) <= line.len(),
        forall|j: int| i <= j < skip_digits(line, i) ==> text::is_digit(#[trigger] line[j]),
    decreases line.len() - i,
{
    if i < line.len() && text::is_digit(line[i]) {
        lemma_skip_digits(line, i + 1);
    }
}

/// The characters that markers are made of.
pub open spec fn kind_wf(kind: MarkerKind) -> bool {
    match kind {
        MarkerKind::Bullet(c) => c == '-' || c == '*' || c == '+',
        MarkerKind::Ordered(c) => c == '.' || c == ')',
    }
}

/// A marker lies within its line, and its indent is spaces and tabs.
pub proof fn lemma_marker(line: Seq<u8>)
    ensures
        marker_of(line) matches Some(m) ==> {
            &&& kind_wf(m.kind)
            &&& m.indent.len() + 2 <= m.width <= line.len()
            &&& m.indent == line.subrange(0, m.indent.len() as int)
            &&& forall|j: int| 0 <= j < m.width ==> line[j] < 0x80
            &&& skip_indent(line, 0) == m.indent.len()
            &&& (m.kind is Ordered ==> m.number is Some && m.width == skip_digits(
                line,
                m.indent.len() as int,
            ) + 2)
            &&& (m.kind is Bullet ==> m.number is None && m.width == m.indent.len() + 2)
        },
{
    lemma_skip_indent(line, 0);
    lemma_skip_digits(line, skip_indent(line, 0));
}

/// The length of the run of spaces and tabs that `line` begins with.
pub(crate) fn lead_len(line: &str) -> (r: usize)
    ensures
        r == skip_indent(line.spec_bytes(), 0),
        r <= line.spec_bytes().len(),
{
    let bytes = line.as_bytes();
    let mut i: usize = 0;
    while i < bytes.len() && (bytes[i] == text::SPACE || bytes[i] == text::TAB)
        invariant
            i <= bytes@.len(),
            skip_indent(bytes@, i as int) == skip_indent(bytes@, 0),
        decreases bytes@.len() - i,
    {
        i += 1;
    }
    i
}

/// The marker at the start of `line`, a line without its line feed: indent,
/// kind, and the number of an ordered item.
pub fn parse_line_start(line: &str) -> (r: Option<(String, MarkerKind, Option<u64>)>)
    ensures
        match r {
            Some(t) => marker_of(line.spec_bytes()) matches Some(m) && encode_utf8(t.0@) == m.indent
                && t.1 == m.kind && t.2 == m.number,
            None => marker_of(line.spec_bytes()) is None,
        },
{
    let bytes = line.as_bytes();
    let ghost b = line.spec_bytes();
    let i: usize = lead_len(line);
    proof {
        lemma_skip_indent(b, 0);
        lemma_skip_digits(b, i as int);
        if i > 0 {
            assert(is_indent_byte(b[i - 1]));
        }
        text::lemma_boundary(b, 0);
        text::lemma_boundary(b, i as int);
    }
    let indent: String = text::slice(line, 0, i).to_owned();
    if i >= bytes.len() {
        return None;
    }
    let first: u8 = bytes[i];
    if (first == 45 || first == 42 || first == 43) && i + 1 < bytes.len() && bytes[i + 1]
        == text::SPACE {
        return Some((indent, MarkerKind::Bullet(first as char), None));
    }
    let mut d: usize = i;
    while d < bytes.len() && 48 <= bytes[d] && bytes[d] <= 57
        invariant
            i <= d <= bytes@.len(),
            skip_digits(bytes@, d as int) == skip_digits(bytes@, i as int),
        decreases bytes@.len() - d,
    {
        d += 1;
    }
    if d > i {
        let num: u64 = match text::parse_number(bytes, i, d) {
            Some(n) => n,
            None => {
                return None;
            },
        };
        if d < bytes.len() {
            let delim: u8 = bytes[d];
            if (delim == 46 || delim == 41) && d + 1 < bytes.len() && bytes[d + 1] == text::SPACE {
                return Some((indent, MarkerKind::Ordered(delim as char), Some(num)));
            }
        }
    }
    None
}

/// Does `line` start with a marker of the given kind at the given indent?
pub fn matches_list_line(line: &str, indent: &str, kind: MarkerKind) -> (r: bool)
    ensures
        r == list_line(line.spec_bytes(), indent.spec_bytes(), kind),
{
    match parse_line_start(line) {
        None => false,
        Some((line_indent, line_kind, _)) => text::text_eq(line_indent.as_str(), indent)
            && line_kind == kind,
    }
}

/// Does `line` extend the item above it in a list indented by `list_indent`?
/// Lazy continuations at or below the list's own indent do not count.
pub fn is_continuation_line(line: &str, list_indent: &str) -> (r: bool)
    ensures
        r == continuation(line.spec_bytes(), list_indent.spec_bytes()),
{
    let lead: usize = lead_len(line);
    let bytes = line.as_bytes();
    let want = list_indent.as_bytes();
    if lead >= bytes.len() || lead <= want.len() {
        return false;
    }
    let mut i: usize = 0;
    while i < want.len()
        invariant
            bytes@ == line.spec_bytes(),
            want@ == list_indent.spec_bytes(),
            i <= want@.len() < lead < bytes@.len(),
            bytes@.subrange(0, i as int) == want@.subrange(0, i as int),
        decreases want@.len() - i,
    {
        if bytes[i] != want[i] {
            assert(bytes@.subrange(0, want@.len() as int)[i as int] != want@[i as int]);
            return false;
        }
        i += 1;
        assert(bytes@.subrange(0, i as int) =~= want@.subrange(0, i as int));
    }
    assert(want@.subrange(0, want@.len() as int) =~= want@);
    true
}


/// The nearest marker line above the line that begins at `ls`, with only blank
/// and indented lines in between.
pub open spec fn anchor_above(b: Seq<u8>, ls: int) -> Option<int>
    decreases ls,
{
    if 0 < ls <= b.len() {
        let ps = text::line_start(b, ls - 1);
        let line = b.subrange(ps, ls - 1);
        proof {
            text::lemma_line_start(b, ls - 1);
        }
        if marker_of(line) is Some {
            Some(ps)
        } else if !text::blank(line) && !indented(line) {
            None
        } else {
            anchor_above(b, ps)
        }
    } else {
        None
    }
}

/// The marker line that owns the line beginning at `cs`: that line itself, or
/// the nearest one above.
pub open spec fn anchor_of(b: Seq<u8>, cs: int) -> Option<int> {
    if marker_of(text::line_at(b, cs)) is Some {
        Some(cs)
    } else {
        anchor_above(b, cs)
    }
}

/// The start of the list whose lines from `at` down are known, with `first`
/// its topmost marker line so far. Upward, marker lines of the list and
/// continuation lines belong to it, and so do blank lines, unless the nearest
/// other line below them is a marker line.
pub open spec fn list_top(
    b: Seq<u8>,
    at: int,
    first: int,
    below_is_marker: bool,
    indent: Seq<u8>,
    kind: MarkerKind,
) -> int
    decreases at,
{
    if 0 < at <= b.len() {
        let ps = text::line_start(b, at - 1);
        let line = b.subrange(ps, at - 1);
        proof {
            text::lemma_line_start(b, at - 1);
        }
        if list_line(line, indent, kind) {
            list_top(b, ps, ps, true, indent, kind)
        } else if continuation(line, indent) {
            list_top(b, ps, first, false, indent, kind)
        } else if text::blank(line) && !below_is_marker {
            list_top(b, ps, first, false, indent, kind)
        } else {
            first
        }
    } else {
        first
    }
}

/// The end of the first line at or below `ls` that is not blank, if that line
/// is a continuation line.
pub open spec fn attach_end(b: Seq<u8>, ls: int, indent: Seq<u8>) -> Option<int>
    decreases b.len() - ls,
{
    if 0 <= ls <= b.len() {
        let le = text::line_end(b, ls);
        let line = b.subrange(ls, le);
        proof {
            text::lemma_line_end(b, ls);
        }
        if !text::blank(line) {
            if continuation(line, indent) {
                Some(le)
            } else {
                None
            }
        } else if le >= b.len() {
            None
        } else {
            attach_end(b, le + 1, indent)
        }
    } else {
        None
    }
}

pub proof fn lemma_attach_end(b: Seq<u8>, ls: int, indent: Seq<u8>)
    requires
        0 <= ls <= b.len(),
    ensures
        attach_end(b, ls, indent) matches Some(e) ==> ls <= e && text::at_line_end(b, e),
    decreases b.len() - ls,
{
    text::lemma_line_end(b, ls);
    let le = text::line_end(b, ls);
    if text::blank(b.subrange(ls, le)) && le < b.len() {
        lemma_attach_end(b, le + 1, indent);
    }
}

/// The end of the last line of the list whose lines down to the line end
/// `last` are known. Downward, marker lines of the list and continuation lines
/// belong to it, and so do blank lines that a continuation line follows.
pub open spec fn list_bottom(b: Seq<u8>, last: int, indent: Seq<u8>, kind: MarkerKind) -> int
    decreases b.len() - last,
{
    if 0 <= last && last + 1 < b.len() {
        let ls = last + 1;
        let le = text::line_end(b, ls);
        let line = b.subrange(ls, le);
        proof {
            text::lemma_line_end(b, ls);
            lemma_attach_end(b, ls, indent);
        }
        if list_line(line, indent, kind) || continuation(line, indent) {
            list_bottom(b, le, indent, kind)
        } else if text::blank(line) {
            match attach_end(b, ls, indent) {
                Some(e) => list_bottom(b, e, indent, kind),
                None => last,
            }
        } else {
            last
        }
    } else {
        last
    }
}

/// Just past the line feed at `e`, if one stands there before `end`.
pub open spec fn past_line(b: Seq<u8>, e: int, end: int) -> int {
    if 0 <= e < end && e < b.len() && b[e] == text::NEWLINE {
        e + 1
    } else {
        e
    }
}

/// Where a list stands in a text, and what its markers share.
pub struct ListSpan {
    pub start: int,
    pub end: int,
    pub indent: Seq<u8>,
    pub kind: MarkerKind,
}

/// The offset `cursor`, cut to the text's length.
pub open spec fn cut(b: Seq<u8>, cursor: int) -> int {
    if cursor <= b.len() {
        cursor
    } else {
        b.len() as int
    }
}

/// The list around the offset `cursor`, which is cut to the text's length.
///
/// The line of the cursor is a marker line, or a blank or continuation line
/// below the marker line that owns it. A line past the end of the list does not
/// belong to it.
pub open spec fn list_at(b: Seq<u8>, cursor: int) -> Option<ListSpan> {
    let cs = text::line_start(b, cut(b, cursor));
    let line = text::line_at(b, cs);
    match anchor_of(b, cs) {
        Some(a) => {
            let m = marker_of(text::line_at(b, a))->0;
            let bottom = list_bottom(b, text::line_end(b, a), m.indent, m.kind);
            let end = past_line(b, bottom, b.len() as int);
            if a != cs && !text::blank(line) && !continuation(line, m.indent) {
                None
            } else if a != cs && cs >= end {
                None
            } else {
                Some(
                    ListSpan {
                        start: list_top(b, a, a, true, m.indent, m.kind),
                        end,
                        indent: m.indent,
                        kind: m.kind,
                    },
                )
            }
        },
        None => None,
    }
}

/// The checkbox that `rest` begins with: `[ ] `, `[x] ` or `[X] `.
pub open spec fn checkbox(rest: Seq<u8>) -> Option<bool> {
    if rest.len() >= 4 && rest[0] == 91 && rest[2] == 93 && rest[3] == text::SPACE {
        if rest[1] == text::SPACE {
            Some(false)
        } else if rest[1] == 120 || rest[1] == 88 {
            Some(true)
        } else {
            None
        }
    } else {
        None
    }
}

/// The end of an item whose lines before the line start `p` are known: the
/// next marker line of the list, or the list's end.
pub open spec fn item_end(b: Seq<u8>, p: int, end: int, indent: Seq<u8>, kind: MarkerKind) -> int
    decreases end - p,
{
    if 0 <= p < end && p < b.len() && !list_line(text::line_at(b, p), indent, kind) {
        let next = past_line(b, text::line_end(b, p), end);
        proof {
            text::lemma_line_end(b, p);
        }
        if p < next <= end {
            item_end(b, next, end, indent, kind)
        } else {
            next
        }
    } else {
        p
    }
}

/// The item whose marker line begins at `p`, in a list that ends at `end`.
pub open spec fn item_at(
    b: Seq<u8>,
    p: int,
    end: int,
    indent: Seq<u8>,
    kind: MarkerKind,
) -> ListItemInfo {
    let e = text::line_end(b, p);
    let m = marker_of(text::line_at(b, p))->0;
    let marker_end = p + m.width;
    let task = checkbox(b.subrange(marker_end, e));
    ListItemInfo {
        start: p as usize,
        end: item_end(b, past_line(b, e, end), end, indent, kind) as usize,
        marker_start: (p + m.indent.len()) as usize,
        marker_end: marker_end as usize,
        content_start: if task is Some {
            (marker_end + 4) as usize
        } else {
            marker_end as usize
        },
        line_end: e as usize,
        number: m.number,
        task,
        task_box: if task is Some {
            Some(marker_end as usize)
        } else {
            None
        },
    }
}

/// The items from the marker line at `p` to `end`.
pub open spec fn items_from(
    b: Seq<u8>,
    p: int,
    end: int,
    indent: Seq<u8>,
    kind: MarkerKind,
) -> Option<Seq<ListItemInfo>>
    decreases end - p,
{
    if p >= end {
        Some(Seq::empty())
    } else if 0 <= p < b.len() && list_line(text::line_at(b, p), indent, kind) {
        let next = item_end(b, past_line(b, text::line_end(b, p), end), end, indent, kind);
        if p < next <= end {
            match items_from(b, next, end, indent, kind) {
                Some(rest) => Some(seq![item_at(b, p, end, indent, kind)] + rest),
                None => None,
            }
        } else {
            None
        }
    } else {
        None
    }
}

/// The edge of a line, or the end of the text.
pub open spec fn at_edge(b: Seq<u8>, p: int) -> bool {
    text::at_line_start(b, p) || p == b.len()
}

/// An item lies in the text as its fields say: its offsets are in order, and
/// the text can be cut at each of them.
pub open spec fn item_wf(b: Seq<u8>, it: ListItemInfo) -> bool {
    &&& it.start <= it.marker_start < it.marker_end <= it.content_start <= it.line_end <= it.end
    &&& it.end <= b.len()
    &&& text::at_line_start(b, it.start as int)
    &&& text::at_line_end(b, it.line_end as int)
    &&& at_edge(b, it.end as int)
    &&& is_char_boundary(b, it.start as int)
    &&& is_char_boundary(b, it.marker_start as int)
    &&& is_char_boundary(b, it.marker_end as int)
    &&& is_char_boundary(b, it.content_start as int)
    &&& is_char_boundary(b, it.line_end as int)
    &&& is_char_boundary(b, it.end as int)
    &&& match (it.task, it.task_box) {
        (Some(_), Some(k)) => k == it.marker_end && k + 4 == it.content_start && b[k as int] == 91
            && b[k + 1] < 0x80 && b[k + 2] == 93,
        (None, None) => it.content_start == it.marker_end,
        _ => false,
    }
}

impl ListInfo {
    /// The list lies in the text `b` as its fields say: its items cover it
    /// from start to end, one after the other, and share its indent.
    pub open spec fn wf(self, b: Seq<u8>) -> bool {
        let items = self.items@;
        &&& kind_wf(self.kind)
        &&& items.len() > 0
        &&& items[0].start == self.start
        &&& items[items.len() - 1].end == self.end
        &&& forall|i: int|
            0 <= i < items.len() ==> item_wf(b, #[trigger] items[i]) && items[i].marker_start
                == items[i].start + encode_utf8(self.indent@).len()
        &&& forall|i: int, j: int|
            0 <= i && j == i + 1 && j < items.len() ==> (#[trigger] items[i]).end == (
            #[trigger] items[j]).start
        &&& forall|i: int|
            0 <= i < encode_utf8(self.indent@).len() ==> is_indent_byte(
                #[trigger] encode_utf8(self.indent@)[i],
            )
    }
}

/// An item ends at an edge: at a marker line of the list, or at its end.
pub proof fn lemma_item_end(b: Seq<u8>, p: int, end: int, indent: Seq<u8>, kind: MarkerKind)
    requires
        0 <= p <= end <= b.len(),
        at_edge(b, p),
        at_edge(b, end),
    ensures
        ({
            let r = item_end(b, p, end, indent, kind);
            &&& p <= r <= end
            &&& at_edge(b, r)
            &&& r == end || list_line(text::line_at(b, r), indent, kind)
        }),
    decreases end - p,
{
    if p < end && !list_line(text::line_at(b, p), indent, kind) {
        text::lemma_line_end(b, p);
        let e = text::line_end(b, p);
        if e >= end && end < b.len() {
            assert(b[end - 1] == text::NEWLINE);
        }
        let next = past_line(b, e, end);
        if p < next <= end {
            lemma_item_end(b, next, end, indent, kind);
        }
    }
}

/// A marker line inside a list lies before the list's end, and so does the
/// start of the line below it.
proof fn lemma_marker_line(b: Seq<u8>, p: int, end: int)
    requires
        valid_utf8(b),
        0 <= p < end <= b.len(),
        text::at_line_start(b, p),
        at_edge(b, end),
        marker_of(text::line_at(b, p)) is Some,
    ensures
        ({
            let e = text::line_end(b, p);
            let m = marker_of(text::line_at(b, p))->0;
            &&& p + m.indent.len() + 2 <= p + m.width <= e <= end
            &&& text::at_line_end(b, e)
            &&& e < past_line(b, e, end) <= end || e == end
            &&& at_edge(b, past_line(b, e, end))
            &&& forall|j: int| p <= j < p + m.width ==> b[j] < 0x80
        }),
{
    let line = text::line_at(b, p);
    let e = text::line_end(b, p);
    text::lemma_line_end(b, p);
    lemma_marker(line);
    if e >= end && end < b.len() {
        assert(b[end - 1] == text::NEWLINE);
    }
    assert forall|j: int| p <= j < p + marker_of(line)->0.width implies b[j] < 0x80 by {
        assert(line[j - p] == b[j]);
    }
}

/// The item at a marker line is well formed, and a marker line of the list or
/// the list's end follows it.
proof fn lemma_item_at(b: Seq<u8>, p: int, end: int, indent: Seq<u8>, kind: MarkerKind)
    requires
        valid_utf8(b),
        b.len() <= usize::MAX,
        0 <= p < end <= b.len(),
        text::at_line_start(b, p),
        at_edge(b, end),
        list_line(text::line_at(b, p), indent, kind),
    ensures
        ({
            let it = item_at(b, p, end, indent, kind);
            let next = item_end(b, past_line(b, text::line_end(b, p), end), end, indent, kind);
            &&& item_wf(b, it)
            &&& it.start == p
            &&& it.end == next
            &&& p < next <= end
            &&& it.marker_start == p + indent.len()
            &&& next == end || (text::at_line_start(b, next) && list_line(
                text::line_at(b, next),
                indent,
                kind,
            ))
        }),
{
    let e = text::line_end(b, p);
    let m = marker_of(text::line_at(b, p))->0;
    let me = p + m.width;
    let q = past_line(b, e, end);
    lemma_marker_line(b, p, end);
    lemma_item_end(b, q, end, indent, kind);
    let r = item_end(b, q, end, indent, kind);
    text::lemma_boundary(b, p);
    assert(b[me - 1] < 0x80);
    text::lemma_boundary(b, me);
    text::lemma_boundary(b, e);
    text::lemma_boundary(b, r);
    assert(b[p + m.indent.len()] < 0x80);
    text::lemma_boundary(b, p + m.indent.len());
    let rest = b.subrange(me, e);
    if checkbox(rest) is Some {
        assert(rest[0] == b[me] && rest[1] == b[me + 1] && rest[2] == b[me + 2] && rest[3] == b[me
            + 3]);
        text::lemma_boundary(b, me + 4);
    }
}

/// From a marker line on, a list is made of well-formed items that follow one
/// another up to the list's end.
proof fn lemma_items_from(b: Seq<u8>, p: int, end: int, indent: Seq<u8>, kind: MarkerKind)
    requires
        valid_utf8(b),
        b.len() <= usize::MAX,
        0 <= p <= end <= b.len(),
        at_edge(b, end),
        p < end ==> text::at_line_start(b, p) && list_line(text::line_at(b, p), indent, kind),
    ensures
        items_from(b, p, end, indent, kind) matches Some(items) && {
            &&& items.len() > 0 <==> p < end
            &&& items.len() > 0 ==> items[0].start == p && items[items.len() - 1].end == end
            &&& forall|i: int|
                0 <= i < items.len() ==> item_wf(b, #[trigger] items[i]) && items[i].marker_start
                    == items[i].start + indent.len()
            &&& forall|i: int, j: int|
                0 <= i && j == i + 1 && j < items.len() ==> (#[trigger] items[i]).end == (
                #[trigger] items[j]).start
        },
    decreases end - p,
{
    if p < end {
        lemma_item_at(b, p, end, indent, kind);
        let it = item_at(b, p, end, indent, kind);
        let next = item_end(b, past_line(b, text::line_end(b, p), end), end, indent, kind);
        lemma_items_from(b, next, end, indent, kind);
        let rest = items_from(b, next, end, indent, kind)->0;
        let items = seq![it] + rest;
        assert forall|i: int| 0 <= i < items.len() implies item_wf(b, #[trigger] items[i])
            && items[i].marker_start == items[i].start + indent.len() by {
            if i > 0 {
                assert(items[i] == rest[i - 1]);
            }
        }
        assert forall|i: int, j: int| 0 <= i && j == i + 1 && j < items.len() implies (
        #[trigger] items[i]).end == (#[trigger] items[j]).start by {
            assert(items[j] == rest[i]);
            if i > 0 {
                assert(items[i] == rest[i - 1]);
            }
        }
        if rest.len() > 0 {
            assert(items[items.len() - 1] == rest[rest.len() - 1]);
        }
    }
}


impl ListItemInfo {
    /// True if the item's content, behind any checkbox and with its
    /// continuation lines, is empty or whitespace only.
    pub fn content_is_empty(&self, source: &str) -> (r: bool)
        requires
            text::sliceable(source.spec_bytes(), self.content_start as int, self.end as int),
        ensures
            r == text::blank(
                source.spec_bytes().subrange(self.content_start as int, self.end as int),
            ),
    {
        text::is_blank(text::slice(source, self.content_start, self.end))
    }
}

/// Walks up from the line that begins at `cursor_line_start` to the nearest
/// marker line above it, crossing only blank and indented lines.
fn resolve_anchor_upward(source: &str, bytes: &[u8], cursor_line_start: usize) -> (r: Option<usize>)
    requires
        bytes@ == source.spec_bytes(),
        text::at_line_start(bytes@, cursor_line_start as int),
    ensures
        match r {
            Some(a) => anchor_above(bytes@, cursor_line_start as int) == Some(a as int),
            None => anchor_above(bytes@, cursor_line_start as int) is None,
        },
{
    let mut line_start: usize = cursor_line_start;
    while line_start > 0
        invariant
            bytes@ == source.spec_bytes(),
            text::at_line_start(bytes@, line_start as int),
            anchor_above(bytes@, line_start as int) == anchor_above(
                bytes@,
                cursor_line_start as int,
            ),
        decreases line_start,
    {
        let ps: usize = text::line_start_byte(bytes, line_start - 1);
        let line = text::line_slice(source, ps, line_start - 1);
        if parse_line_start(line).is_some() {
            return Some(ps);
        }
        if !text::is_blank(line) && !is_indented(line) {
            return None;
        }
        line_start = ps;
    }
    None
}

/// True iff `line` begins with a space or a tab.
pub(crate) fn is_indented(line: &str) -> (r: bool)
    ensures
        r == indented(line.spec_bytes()),
{
    let bytes = line.as_bytes();
    bytes.len() > 0 && (bytes[0] == text::SPACE || bytes[0] == text::TAB)
}

/// If the blank run that begins at `run_start` belongs to the item above it,
/// because the first other line after it is a continuation line, the end of
/// that line.
fn blank_run_attaches(source: &str, bytes: &[u8], run_start: usize, list_indent: &str) -> (r: Option<
    usize,
>)
    requires
        bytes@ == source.spec_bytes(),
        text::at_line_start(bytes@, run_start as int),
    ensures
        match r {
            Some(e) => attach_end(bytes@, run_start as int, list_indent.spec_bytes()) == Some(
                e as int,
            ),
            None => attach_end(bytes@, run_start as int, list_indent.spec_bytes()) is None,
        },
{
    let mut line_start: usize = run_start;
    loop
        invariant
            bytes@ == source.spec_bytes(),
            text::at_line_start(bytes@, line_start as int),
            attach_end(bytes@, line_start as int, list_indent.spec_bytes()) == attach_end(
                bytes@,
                run_start as int,
                list_indent.spec_bytes(),
            ),
        decreases bytes@.len() - line_start,
    {
        let line_end: usize = text::line_end_byte(bytes, line_start);
        let line = text::line_slice(source, line_start, line_end);
        if !text::is_blank(line) {
            return if is_continuation_line(line, list_indent) {
                Some(line_end)
            } else {
                None
            };
        }
        if line_end >= bytes.len() {
            return None;
        }
        line_start = line_end + 1;
    }
}

/// The item whose first line begins at `cursor`; `None` if that line is no
/// marker line of the given indent and kind.
fn parse_single_item(
    source: &str,
    bytes: &[u8],
    cursor: usize,
    end: usize,
    indent: &str,
    kind: MarkerKind,
) -> (r: Option<ListItemInfo>)
    requires
        bytes@ == source.spec_bytes(),
        cursor < end <= bytes@.len(),
        text::at_line_start(bytes@, cursor as int),
        at_edge(bytes@, end as int),
    ensures
        r == if list_line(text::line_at(bytes@, cursor as int), indent.spec_bytes(), kind) {
            Some(item_at(bytes@, cursor as int, end as int, indent.spec_bytes(), kind))
        } else {
            None
        },
{
    let ghost b = bytes@;
    let ghost ind = indent.spec_bytes();
    let line_end_pos: usize = text::line_end_byte(bytes, cursor);
    let line = text::line_slice(source, cursor, line_end_pos);
    let (line_indent, line_kind, number) = match parse_line_start(line) {
        Some(t) => t,
        None => {
            return None;
        },
    };
    if !text::text_eq(line_indent.as_str(), indent) {
        return None;
    }
    proof {
        lemma_marker(line.spec_bytes());
        lemma_marker_line(b, cursor as int, end as int);
    }
    let lead: usize = text::byte_len(line_indent.as_str());
    let marker_start: usize = cursor + lead;
    let marker_text_len: usize = match line_kind {
        MarkerKind::Bullet(_) => 2,
        MarkerKind::Ordered(_) => {
            let lb = line.as_bytes();
            let mut d: usize = lead;
            while d < lb.len() && 48 <= lb[d] && lb[d] <= 57
                invariant
                    lead <= d <= lb@.len(),
                    skip_digits(lb@, d as int) == skip_digits(lb@, lead as int),
                decreases lb@.len() - d,
            {
                d += 1;
            }
            d - lead + 2
        },
    };
    let marker_end: usize = marker_start + marker_text_len;
    if line_kind != kind {
        return None;
    }
    proof {
        assert(bytes.len() == b.len());
        lemma_item_at(b, cursor as int, end as int, ind, kind);
        text::lemma_boundary(b, line_end_pos as int);
    }
    let after_marker = text::slice(source, marker_end, line_end_pos).as_bytes();
    let task: Option<bool> = if after_marker.len() >= 4 && after_marker[0] == 91 && after_marker[2]
        == 93 && after_marker[3] == text::SPACE {
        if after_marker[1] == text::SPACE {
            Some(false)
        } else if after_marker[1] == 120 || after_marker[1] == 88 {
            Some(true)
        } else {
            None
        }
    } else {
        None
    };
    let task_box: Option<usize> = if task.is_some() {
        Some(marker_end)
    } else {
        None
    };
    let content_start: usize = if task.is_some() {
        marker_end + 4
    } else {
        marker_end
    };
    let mut stop: usize = if line_end_pos < end {
        line_end_pos + 1
    } else {
        line_end_pos
    };
    let ghost q = past_line(b, line_end_pos as int, end as int);
    assert(stop == q);
    while stop < end
        invariant_except_break
            b == bytes@,
            bytes@ == source.spec_bytes(),
            ind == indent.spec_bytes(),
            stop <= end <= b.len(),
            at_edge(b, stop as int),
            at_edge(b, end as int),
            item_end(b, stop as int, end as int, ind, kind) == item_end(b, q, end as int, ind, kind),
        ensures
            stop == item_end(b, q, end as int, ind, kind),
        decreases end - stop,
    {
        let next_end: usize = text::line_end_byte(bytes, stop);
        proof {
            text::lemma_line_end(b, stop as int);
            if next_end >= end && end < b.len() {
                assert(b[end - 1] == text::NEWLINE);
            }
        }
        if matches_list_line(text::line_slice(source, stop, next_end), indent, kind) {
            break;
        }
        stop = if next_end < end {
            next_end + 1
        } else {
            next_end
        };
    }
    Some(
        ListItemInfo {
            start: cursor,
            end: stop,
            marker_start,
            marker_end,
            content_start,
            line_end: line_end_pos,
            number,
            task,
            task_box,
        },
    )
}

/// The items of `start..end`, which begins on a marker line with this indent
/// and kind.
pub fn parse_items(source: &str, start: usize, end: usize, indent: &str, kind: MarkerKind) -> (r:
    Option<Vec<ListItemInfo>>)
    requires
        start <= end <= source.spec_bytes().len(),
        text::at_line_start(source.spec_bytes(), start as int),
        at_edge(source.spec_bytes(), end as int),
    ensures
        match r {
            Some(items) => items_from(
                source.spec_bytes(),
                start as int,
                end as int,
                indent.spec_bytes(),
                kind,
            ) == Some(items@),
            None => items_from(
                source.spec_bytes(),
                start as int,
                end as int,
                indent.spec_bytes(),
                kind,
            ) is None,
        },
{
    let bytes = source.as_bytes();
    let ghost b = bytes@;
    let ghost ind = indent.spec_bytes();
    let mut items: Vec<ListItemInfo> = Vec::new();
    let mut cursor: usize = start;
    assert(bytes.len() == b.len());
    assert(forall|rest: Seq<ListItemInfo>| items@ + rest =~= rest);
    while cursor < end
        invariant
            b == bytes@,
            b == source.spec_bytes(),
            b.len() <= usize::MAX,
            ind == indent.spec_bytes(),
            cursor <= end <= b.len(),
            cursor < end ==> text::at_line_start(b, cursor as int),
            at_edge(b, end as int),
            match items_from(b, cursor as int, end as int, ind, kind) {
                Some(rest) => items_from(b, start as int, end as int, ind, kind) == Some(
                    items@ + rest,
                ),
                None => items_from(b, start as int, end as int, ind, kind) is None,
            },
        decreases end - cursor,
    {
        match parse_single_item(source, bytes, cursor, end, indent, kind) {
            None => {
                return None;
            },
            Some(item) => {
                proof {
                    lemma_item_at(b, cursor as int, end as int, ind, kind);
                    match items_from(b, item.end as int, end as int, ind, kind) {
                        Some(rest) => {
                            assert(items@ + (seq![item] + rest) =~= items@.push(item) + rest);
                        },
                        None => {},
                    }
                }
                cursor = item.end;
                items.push(item);
            },
        }
    }
    assert(items@ + Seq::<ListItemInfo>::empty() =~= items@);
    Some(items)
}


/// A blank run belongs to a list only where a line end follows it.
pub proof fn lemma_list_bottom(b: Seq<u8>, last: int, indent: Seq<u8>, kind: MarkerKind)
    requires
        text::at_line_end(b, last),
    ensures
        last <= list_bottom(b, last, indent, kind) <= b.len(),
        text::at_line_end(b, list_bottom(b, last, indent, kind)),
    decreases b.len() - last,
{
    if last + 1 < b.len() {
        let ls = last + 1;
        text::lemma_line_end(b, ls);
        lemma_attach_end(b, ls, indent);
        let le = text::line_end(b, ls);
        let line = b.subrange(ls, le);
        if list_line(line, indent, kind) || continuation(line, indent) {
            lemma_list_bottom(b, le, indent, kind);
        } else if text::blank(line) {
            match attach_end(b, ls, indent) {
                Some(e) => lemma_list_bottom(b, e, indent, kind),
                None => {},
            }
        }
    }
}

/// The top of a list is a marker line of the list, at or above `first`.
proof fn lemma_list_top(
    b: Seq<u8>,
    at: int,
    first: int,
    below_is_marker: bool,
    indent: Seq<u8>,
    kind: MarkerKind,
)
    requires
        text::at_line_start(b, at),
        text::at_line_start(b, first),
        at <= first,
        list_line(text::line_at(b, first), indent, kind),
    ensures
        ({
            let top = list_top(b, at, first, below_is_marker, indent, kind);
            &&& 0 <= top <= first
            &&& text::at_line_start(b, top)
            &&& list_line(text::line_at(b, top), indent, kind)
        }),
    decreases at,
{
    if 0 < at {
        let ps = text::line_start(b, at - 1);
        let line = b.subrange(ps, at - 1);
        text::lemma_line_start(b, at - 1);
        text::lemma_line_end_unique(b, ps, at - 1);
        if list_line(line, indent, kind) {
            lemma_list_top(b, ps, ps, true, indent, kind);
        } else {
            lemma_list_top(b, ps, first, false, indent, kind);
        }
    }
}

/// The anchor is a marker line at or above the line that it anchors.
proof fn lemma_anchor(b: Seq<u8>, cs: int)
    requires
        text::at_line_start(b, cs),
    ensures
        anchor_of(b, cs) matches Some(a) ==> text::at_line_start(b, a) && a <= cs && marker_of(
            text::line_at(b, a),
        ) is Some,
        anchor_above(b, cs) matches Some(a) ==> text::at_line_start(b, a) && a < cs && marker_of(
            text::line_at(b, a),
        ) is Some,
    decreases cs,
{
    if 0 < cs {
        let ps = text::line_start(b, cs - 1);
        text::lemma_line_start(b, cs - 1);
        text::lemma_line_end_unique(b, ps, cs - 1);
        lemma_anchor(b, ps);
    }
}

/// Scans up from the marker line at `anchor` for the lines of its list. Only a
/// marker line commits the lines passed so far: a run of continuation lines
/// with no marker above is left out.
fn scan_top(source: &str, bytes: &[u8], anchor: usize, indent: &str, kind: MarkerKind) -> (r: usize)
    requires
        bytes@ == source.spec_bytes(),
        text::at_line_start(bytes@, anchor as int),
        list_line(text::line_at(bytes@, anchor as int), indent.spec_bytes(), kind),
    ensures
        r == list_top(bytes@, anchor as int, anchor as int, true, indent.spec_bytes(), kind),
        r <= anchor,
        text::at_line_start(bytes@, r as int),
        list_line(text::line_at(bytes@, r as int), indent.spec_bytes(), kind),
{
    let ghost b = bytes@;
    let ghost ind = indent.spec_bytes();
    proof {
        lemma_list_top(b, anchor as int, anchor as int, true, ind, kind);
    }
    let mut first: usize = anchor;
    let mut probe: usize = anchor;
    let mut below_is_marker: bool = true;
    while probe > 0
        invariant
            b == bytes@,
            b == source.spec_bytes(),
            ind == indent.spec_bytes(),
            probe <= first <= anchor,
            text::at_line_start(b, probe as int),
            ({
                let top = list_top(b, anchor as int, anchor as int, true, ind, kind);
                text::at_line_start(b, top) && list_line(text::line_at(b, top), ind, kind)
            }),
            list_top(b, probe as int, first as int, below_is_marker, ind, kind) == list_top(
                b,
                anchor as int,
                anchor as int,
                true,
                ind,
                kind,
            ),
        decreases probe,
    {
        let ps: usize = text::line_start_byte(bytes, probe - 1);
        let line = text::line_slice(source, ps, probe - 1);
        if matches_list_line(line, indent, kind) {
            first = ps;
            below_is_marker = true;
        } else if is_continuation_line(line, indent) {
            below_is_marker = false;
        } else if !text::is_blank(line) || below_is_marker {
            return first;
        }
        probe = ps;
    }
    first
}

/// Scans down from the line end `anchor_end` for the lines of a list.
fn scan_bottom(source: &str, bytes: &[u8], anchor_end: usize, indent: &str, kind: MarkerKind) -> (r:
    usize)
    requires
        bytes@ == source.spec_bytes(),
        text::at_line_end(bytes@, anchor_end as int),
    ensures
        r == list_bottom(bytes@, anchor_end as int, indent.spec_bytes(), kind),
        anchor_end <= r,
        text::at_line_end(bytes@, r as int),
{
    let ghost b = bytes@;
    let ghost ind = indent.spec_bytes();
    let len: usize = bytes.len();
    proof {
        lemma_list_bottom(b, anchor_end as int, ind, kind);
    }
    let mut last_end: usize = anchor_end;
    while last_end < len && last_end + 1 < len
        invariant
            b == bytes@,
            b == source.spec_bytes(),
            len == b.len(),
            ind == indent.spec_bytes(),
            anchor_end <= last_end,
            text::at_line_end(b, last_end as int),
            list_bottom(b, last_end as int, ind, kind) == list_bottom(
                b,
                anchor_end as int,
                ind,
                kind,
            ),
        decreases len - last_end,
    {
        let next_start: usize = last_end + 1;
        let next_end: usize = text::line_end_byte(bytes, next_start);
        let next = text::line_slice(source, next_start, next_end);
        proof {
            lemma_attach_end(b, next_start as int, ind);
        }
        if matches_list_line(next, indent, kind) || is_continuation_line(next, indent) {
            last_end = next_end;
        } else if text::is_blank(next) {
            match blank_run_attaches(source, bytes, next_start, indent) {
                Some(resume_end) => {
                    last_end = resume_end;
                },
                None => {
                    return last_end;
                },
            }
        } else {
            return last_end;
        }
    }
    last_end
}

/// `info` is the list around the offset `cursor` of the text `b`.
pub open spec fn is_list_at(info: ListInfo, b: Seq<u8>, cursor: int) -> bool {
    &&& list_at(b, cursor) == Some(
        ListSpan {
            start: info.start as int,
            end: info.end as int,
            indent: encode_utf8(info.indent@),
            kind: info.kind,
        },
    )
    &&& items_from(
        b,
        info.start as int,
        info.end as int,
        encode_utf8(info.indent@),
        info.kind,
    ) == Some(info.items@)
    &&& info.wf(b)
}

/// The list around the offset `cursor_byte` of `source`, if there is one.
///
/// Items may span several lines: a non-blank line that is indented by the
/// list's indent and then some belongs to the item above it, and an interior
/// blank run belongs to the item iff such a line follows it. A blank run
/// before a marker line of the same indent ends the list. The offset lies in the
/// list, and in one of its items.
#[verifier::rlimit(60)]
pub fn find_list_at(source: &str, cursor_byte: usize) -> (r: Option<ListInfo>)
    ensures
        match r {
            Some(info) => {
                let b = source.spec_bytes();
                let c = cut(b, cursor_byte as int);
                &&& is_list_at(info, b, cursor_byte as int)
                &&& info.start <= c <= info.end
                &&& item_index(info, c) is Some
            },
            None => list_at(source.spec_bytes(), cursor_byte as int) is None,
        },
{
    let bytes = source.as_bytes();
    let ghost b = bytes@;
    let len: usize = bytes.len();
    let clamped: usize = if cursor_byte <= len {
        cursor_byte
    } else {
        len
    };
    let cursor_line_start: usize = text::line_start_byte(bytes, clamped);
    let cursor_line_end: usize = text::line_end_byte(bytes, cursor_line_start);
    let cursor_line = text::line_slice(source, cursor_line_start, cursor_line_end);
    proof {
        lemma_anchor(b, cursor_line_start as int);
    }

    // The marker line that owns the cursor's line.
    let anchor_start: usize = if parse_line_start(cursor_line).is_some() {
        cursor_line_start
    } else {
        match resolve_anchor_upward(source, bytes, cursor_line_start) {
            Some(a) => a,
            None => {
                return None;
            },
        }
    };
    let anchor_end: usize = text::line_end_byte(bytes, anchor_start);
    let (indent, kind, _num) = match parse_line_start(
        text::line_slice(source, anchor_start, anchor_end),
    ) {
        Some(t) => t,
        None => {
            return None;
        },
    };
    let ghost ind = encode_utf8(indent@);
    assert(list_line(text::line_at(b, anchor_start as int), ind, kind));

    // A cursor on another line must belong to the anchor's list.
    if anchor_start != cursor_line_start && !text::is_blank(cursor_line) && !is_continuation_line(
        cursor_line,
        indent.as_str(),
    ) {
        return None;
    }

    let first_start: usize = scan_top(source, bytes, anchor_start, indent.as_str(), kind);
    let mut last_end: usize = scan_bottom(source, bytes, anchor_end, indent.as_str(), kind);
    proof {
        lemma_marker_line(b, anchor_start as int, len as int);
    }
    // The final line feed belongs to the last item.
    if last_end < len {
        last_end += 1;
    }
    // A line past the end does not belong to the list.

    if anchor_start != cursor_line_start && cursor_line_start >= last_end {
        return None;
    }
    proof {
        lemma_items_from(b, first_start as int, last_end as int, ind, kind);
        let m = marker_of(text::line_at(b, anchor_start as int))->0;
        lemma_skip_indent(text::line_at(b, anchor_start as int), 0);
        lemma_marker(text::line_at(b, anchor_start as int));
        assert(m.indent == ind);
    }
    let items = match parse_items(source, first_start, last_end, indent.as_str(), kind) {
        Some(items) => items,
        None => {
            return None;
        },
    };
    let info = ListInfo { start: first_start, end: last_end, indent, kind, items };
    proof {
        law_list_holds_offset(info, b, cursor_byte as int);
    }
    Some(info)
}

/// The first item at or after index `i` that holds the offset `cursor`.
pub open spec fn item_holding(items: Seq<ListItemInfo>, cursor: int, i: int) -> Option<int>
    decreases items.len() - i,
{
    if 0 <= i < items.len() {
        if items[i].start <= cursor < items[i].end {
            Some(i)
        } else {
            item_holding(items, cursor, i + 1)
        }
    } else {
        None
    }
}

/// The item that holds `cursor`; at the very end of the list, the last one.
pub open spec fn item_index(info: ListInfo, cursor: int) -> Option<int> {
    match item_holding(info.items@, cursor, 0) {
        Some(i) => Some(i),
        None => if cursor == info.end && info.items@.len() > 0 {
            Some(info.items@.len() - 1)
        } else {
            None
        },
    }
}

/// Items that follow one another up to `end` hold every offset before `end`.
proof fn lemma_item_holding(items: Seq<ListItemInfo>, cursor: int, i: int)
    requires
        0 <= i < items.len(),
        items[i].start <= cursor < items[items.len() - 1].end,
        forall|x: int, y: int|
            0 <= x && y == x + 1 && y < items.len() ==> (#[trigger] items[x]).end == (
            #[trigger] items[y]).start,
    ensures
        item_holding(items, cursor, i) is Some,
    decreases items.len() - i,
{
    if items[i].end <= cursor {
        assert(items[i].end == items[i + 1].start);
        lemma_item_holding(items, cursor, i + 1);
    }
}

/// A list that is found around an offset holds it, and so does one of its items: the
/// one that owns the line of the offset.
pub proof fn law_list_holds_offset(info: ListInfo, b: Seq<u8>, cursor: int)
    requires
        cursor >= 0,
        is_list_at(info, b, cursor),
    ensures
        info.start <= cut(b, cursor) <= info.end,
        item_index(info, cut(b, cursor)) is Some,
{
    let c = cut(b, cursor);
    let cs = text::line_start(b, c);
    text::lemma_line_start(b, c);
    text::lemma_line_end(b, cs);
    lemma_anchor(b, cs);
    let a = anchor_of(b, cs)->0;
    let m = marker_of(text::line_at(b, a))->0;
    text::lemma_line_end(b, a);
    lemma_list_top(b, a, a, true, m.indent, m.kind);
    lemma_list_bottom(b, text::line_end(b, a), m.indent, m.kind);
    if c < info.end {
        lemma_item_holding(info.items@, c, 0);
    }
}

/// The index of the item that holds `cursor_byte`; `None` if no item does.
pub fn cursor_item_idx(info: &ListInfo, cursor_byte: usize) -> (r: Option<usize>)
    ensures
        match r {
            Some(i) => item_index(*info, cursor_byte as int) == Some(i as int) && i
                < info.items@.len(),
            None => item_index(*info, cursor_byte as int) is None,
        },
{
    let mut i: usize = 0;
    while i < info.items.len()
        invariant
            i <= info.items@.len(),
            item_holding(info.items@, cursor_byte as int, i as int) == item_holding(
                info.items@,
                cursor_byte as int,
                0,
            ),
        decreases info.items@.len() - i,
    {
        if cursor_byte >= info.items[i].start && cursor_byte < info.items[i].end {
            return Some(i);
        }
        i += 1;
    }
    if cursor_byte == info.end && info.items.len() > 0 {
        return Some(info.items.len() - 1);
    }
    None
}


/// The edit that a list operation asks for, and where it puts the cursor.
#[derive(Debug, Clone, PartialEq, Eq)]
pub struct ContinueResult {
    pub delta: EditDelta,
    pub cursor_byte: usize,
}

} // verus!
