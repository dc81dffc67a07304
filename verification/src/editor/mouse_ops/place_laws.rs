//! Where places on the screen lead, and what stands there.

use crate::cells;
use crate::editor::footnote_edit;
use crate::editor::footnote_edit::MarkerSpan;
use crate::editor::link;
use crate::editor::link::LinkView;
use crate::editor::mouse_ops::coord;
use crate::editor::mouse_ops::footnotes;
use crate::editor::mouse_ops::hits;
use crate::editor::mouse_ops::links;
use crate::editor::mouse_ops::pick;
use crate::editor::mouse_ops::table_drag;
use crate::editor::state_rows;
use crate::editor::state_rows::TableSubLineKind;
use crate::editor::table_edit::{TableCell, TableRow};
use crate::editor::wrap;
use crate::text;
use vstd::prelude::*;
use vstd::utf8::*;

verus! {

// ── Rows and cells ───────────────────────────────────────────────────────
/// The rows that the lines `from..to` take on the screen, one at least each.
pub open spec fn rows_taken(uses: Seq<usize>, from: int, to: int) -> int
    decreases to - from,
{
    if from >= to {
        0
    } else {
        rows_taken(uses, from, to - 1) + (if uses[to - 1] >= 1 {
            uses[to - 1] as int
        } else {
            1
        })
    }
}

proof fn lemma_rows_taken(uses: Seq<usize>, from: int, to: int)
    requires
        from < to,
    ensures
        rows_taken(uses, from, to) == (if uses[from] >= 1 {
            uses[from] as int
        } else {
            1
        }) + rows_taken(uses, from + 1, to),
    decreases to - from,
{
    reveal_with_fuel(rows_taken, 2);
    if from + 1 < to {
        lemma_rows_taken(uses, from, to - 1);
    }
}

/// The line and the row of it that are found `row` rows below the first row of a line are
/// `row` rows below it: the lines between them and the rows of the found line above it
/// make up `row`. Where none is found, the text ends above.
pub proof fn law_walk_counts_rows(uses: Seq<usize>, idx: int, row: int)
    requires
        0 <= idx <= uses.len(),
        0 <= row,
    ensures
        match coord::walked(uses, idx, 0, row) {
            Some((line, sub)) => {
                &&& idx <= line < uses.len()
                &&& 0 <= sub
                &&& sub < uses[line] || (sub == 0 && uses[line] == 0)
                &&& rows_taken(uses, idx, line) + sub == row
            },
            None => rows_taken(uses, idx, uses.len() as int) <= row,
        },
    decreases uses.len() - idx,
{
    if idx < uses.len() {
        let used = if uses[idx] >= 1 {
            uses[idx] as int
        } else {
            1
        };
        if row >= used {
            law_walk_counts_rows(uses, idx + 1, row - used);
            match coord::walked(uses, idx + 1, 0, row - used) {
                Some((line, sub)) => {
                    lemma_rows_taken(uses, idx, line);
                },
                None => {
                    lemma_rows_taken(uses, idx, uses.len() as int);
                },
            }
        }
    }
}

proof fn lemma_landing_at(s: Seq<char>, i: int, at: int, end: int, acc: nat)
    requires
        0 <= i <= at <= end <= s.len(),
        at < end ==> cells::cells(s[at]) >= 1,
    ensures
        cells::landing(s, i, end, acc, acc + cells::cells_of(s.subrange(i, at))) == at,
    decreases at - i,
{
    let part = s.subrange(i, at);
    if i < at {
        lemma_cells_first(part);
        assert(part[0] == s[i]);
        assert(part.drop_first() =~= s.subrange(i + 1, at));
        lemma_landing_at(s, i + 1, at, end, acc + cells::cells(s[i]));
    } else {
        assert(part =~= Seq::<char>::empty());
    }
}

/// The cells of a text are those of its first character and of the rest.
proof fn lemma_cells_first(t: Seq<char>)
    requires
        t.len() > 0,
    ensures
        cells::cells_of(t) == cells::cells(t[0]) + cells::cells_of(t.drop_first()),
    decreases t.len(),
{
    reveal_with_fuel(cells::cells_of, 2);
    if t.len() > 1 {
        lemma_cells_first(t.drop_last());
        assert(t.drop_last().drop_first() =~= t.drop_first().drop_last());
        assert(t.drop_first().last() == t.last());
    }
}

/// The cell at which a character of a row is shown leads back to it: a click there puts
/// the cursor before the character. A character that takes no cell of its own is shown
/// with the one before it, and leads nowhere by itself; a row begins with no such one.
pub proof fn law_shown_cell_leads_back(
    s: Seq<char>,
    base: int,
    row: wrap::WrapRow,
    at: int,
    is_last: bool,
    indent: int,
)
    requires
        0 <= base,
        0 <= indent,
        row.start <= row.end,
        base + row.end <= s.len(),
        base + row.start <= at,
        is_last ==> at <= base + row.end,
        !is_last ==> at < base + row.end,
        at < base + row.end ==> cells::cells(s[at]) >= 1,
        row.start < row.end ==> cells::cells(s[base + row.start]) >= 1,
        indent + cells::cells_of(s.subrange(base + row.start, at)) <= usize::MAX,
    ensures
        wrap::offset_in_row(
            s,
            base,
            row,
            wrap::cell_in_row(s, base, row, at, indent) as int,
            is_last,
            indent,
        ) == at,
{
    let from = base + row.start;
    let n = cells::cells_of(s.subrange(from, at));
    lemma_landing_at(s, from, at, base + row.end, 0);
    if at > from {
        lemma_cells_first(s.subrange(from, at));
    }
    assert(s.subrange(from, from) =~= Seq::<char>::empty());
}

// ── Links ────────────────────────────────────────────────────────────────
/// `i..=e` of a line is a link: a bracket, its text up to the bracket `c` that closes it,
/// directly behind that a parenthesis, and its destination up to the one that closes it.
pub open spec fn is_link(line: Seq<u8>, i: int, c: int, e: int) -> bool {
    &&& 0 <= i < c && c + 1 < e < line.len()
    &&& line[i] == 91 && line[c] == 93 && line[c + 1] == 40 && line[e] == 41
}

/// What is found as the destination of a link around a column is what stands between the
/// parentheses of a link that covers the column.
pub proof fn law_link_covers_column(line: Seq<u8>, from: int, col: int) -> (r: (int, int, int))
    requires
        0 <= from,
    ensures
        links::link_bytes(line, from, col) matches Some(u) ==> {
            let (i, c, e) = r;
            &&& is_link(line, i, c, e)
            &&& from <= i <= col <= e
            &&& u == line.subrange(c + 2, e)
        },
    decreases line.len() - from,
{
    if from >= line.len() {
        (0, 0, 0)
    } else if line[from] == 91 && !footnote_edit::escaped(line, from) {
        links::lemma_closing(line, from + 1, 1, 91, 93);
        match links::closing(line, from + 1, 1, 91, 93) {
            None => (0, 0, 0),
            Some(c) => if c + 1 < line.len() && line[c + 1] == 40 {
                links::lemma_closing(line, c + 2, 1, 40, 41);
                match links::closing(line, c + 2, 1, 40, 41) {
                    None => (0, 0, 0),
                    Some(u) => if from <= col <= u {
                        (from, c, u)
                    } else {
                        law_link_covers_column(line, u + 1, col)
                    },
                }
            } else {
                law_link_covers_column(line, c + 1, col)
            },
        }
    } else {
        law_link_covers_column(line, from + 1, col)
    }
}

/// A bracket is closed by the next closing one, if neither a bracket of its kind nor a
/// backslash stands between them.
proof fn lemma_closes(b: Seq<u8>, j: int, c: int, open: u8, close: u8)
    requires
        0 <= j <= c < b.len(),
        b[c] == close,
        open != close,
        forall|k: int|
            j <= k < c ==> #[trigger] b[k] != open && b[k] != close && b[k] != 92,
    ensures
        links::closing(b, j, 1, open, close) == Some(c),
    decreases c - j,
{
    if j < c {
        lemma_closes(b, j + 1, c, open, close);
    }
}

/// A link without brackets and backslashes in it, the first one of its line, is found from
/// every column of it: what stands between its parentheses.
pub proof fn law_plain_link_is_found(line: Seq<u8>, i: int, c: int, e: int, col: int)
    requires
        is_link(line, i, c, e),
        i <= col <= e,
        forall|k: int| 0 <= k < i ==> #[trigger] line[k] != 91 && line[k] != 92,
        forall|k: int|
            i < k < c ==> #[trigger] line[k] != 91 && line[k] != 93 && line[k] != 92,
        forall|k: int|
            c + 1 < k < e ==> #[trigger] line[k] != 40 && line[k] != 41 && line[k] != 92,
    ensures
        links::link_bytes(line, 0, col) == Some(line.subrange(c + 2, e)),
{
    lemma_closes(line, i + 1, c, 91, 93);
    lemma_closes(line, c + 2, e, 40, 41);
    lemma_link_from(line, 0, i, col);
    assert(!footnote_edit::escaped(line, i)) by {
        if i > 0 {
            assert(line[i - 1] != 92);
        }
    }
}

/// Bytes that are no brackets are passed.
proof fn lemma_link_from(line: Seq<u8>, from: int, i: int, col: int)
    requires
        0 <= from <= i < line.len(),
        forall|k: int| from <= k < i ==> #[trigger] line[k] != 91,
    ensures
        links::link_bytes(line, from, col) == links::link_bytes(line, i, col),
    decreases i - from,
{
    if from < i {
        lemma_link_from(line, from + 1, i, col);
    }
}

/// The parts of a link's text make up the text again. A text that begins with a number
/// sign is an anchor, and its name is the rest. The path of a local file or of a `file://`
/// link is what stands before the first number sign, and its fragment what stands behind
/// it; an empty fragment is none.
pub proof fn law_link_parts(b: Seq<u8>)
    ensures
        match link::classified(b) {
            LinkView::Anchor(name) => b.len() > 0 && b[0] == 35 && b == seq![35u8] + name,
            LinkView::Url(u) => u == b && b.len() > 0 && b[0] != 35,
            LinkView::File { path, fragment } => {
                let head = seq![102u8, 105u8, 108u8, 101u8, 58u8, 47u8, 47u8];
                &&& !path.contains(35u8)
                &&& match fragment {
                    Some(f) => b == head + path + seq![35u8] + f && f.len() > 0,
                    None => b == head + path || b == head + path + seq![35u8],
                }
            },
            LinkView::Local { path, fragment } => {
                &&& !path.contains(35u8)
                &&& b.len() > 0 ==> b[0] != 35
                &&& match fragment {
                    Some(f) => b == path + seq![35u8] + f && f.len() > 0,
                    None => b == path || b == path + seq![35u8],
                }
            },
        },
{
    if b.len() > 0 && b[0] == 35 {
        assert(b =~= seq![35u8] + b.skip(1));
    } else if b.len() >= 7 && b.take(7) == link::file_scheme() {
        let rest = b.skip(7);
        lemma_hash(rest);
        assert(b =~= b.take(7) + rest);
        let head = seq![102u8, 105u8, 108u8, 101u8, 58u8, 47u8, 47u8];
        match link::fragment_part(rest) {
            Some(f) => {
                assert(b =~= head + link::path_part(rest) + seq![35u8] + f);
            },
            None => {
                assert(b =~= head + link::path_part(rest) || b =~= head + link::path_part(rest)
                    + seq![35u8]);
            },
        }
    } else {
        lemma_hash(b);
    }
}

proof fn lemma_hash_from(b: Seq<u8>, i: int)
    requires
        0 <= i <= b.len(),
    ensures
        i <= link::index_of(b, 35, i) <= b.len(),
        link::index_of(b, 35, i) < b.len() ==> b[link::index_of(b, 35, i)] == 35,
        forall|k: int| i <= k < link::index_of(b, 35, i) ==> #[trigger] b[k] != 35,
    decreases b.len() - i,
{
    if i < b.len() && b[i] != 35 {
        lemma_hash_from(b, i + 1);
    }
}

proof fn lemma_hash(b: Seq<u8>)
    ensures
        !link::path_part(b).contains(35u8),
        match link::fragment_part(b) {
            Some(f) => b == link::path_part(b) + seq![35u8] + f && f.len() > 0,
            None => b == link::path_part(b) || b == link::path_part(b) + seq![35u8],
        },
{
    lemma_hash_from(b, 0);
    let h = link::index_of(b, 35, 0);
    let p = link::path_part(b);
    assert forall|k: int| 0 <= k < p.len() implies #[trigger] p[k] != 35 by {
        assert(p[k] == b[k]);
    }
    if h + 1 < b.len() {
        assert(b =~= p + seq![35u8] + b.skip(h + 1));
    } else if h < b.len() {
        assert(b =~= p + seq![35u8]);
    } else {
        assert(b =~= p);
    }
}

// ── Footnotes ────────────────────────────────────────────────────────────
/// `m` is a footnote's marker in `b`: `[^`, a label that is not empty and holds neither
/// brackets nor line feeds, and `]`; that of a definition where a colon follows.
pub open spec fn is_footnote(b: Seq<u8>, m: MarkerSpan) -> bool {
    &&& 0 <= m.start && m.start + 3 < m.end <= b.len()
    &&& b[m.start] == 91 && b[m.start + 1] == 94 && b[m.end - 1] == 93
    &&& m.label == b.subrange(m.start + 2, m.end - 1)
    &&& forall|k: int|
        m.start + 2 <= k < m.end - 1 ==> #[trigger] b[k] != 91 && b[k] != 93 && b[k]
            != text::NEWLINE
    &&& m.is_definition == (m.end < b.len() && b[m.end] == 58)
}

proof fn lemma_label(b: Seq<u8>, i: int)
    requires
        0 <= i <= b.len(),
    ensures
        ({
            let e = footnote_edit::label_end(b, i);
            &&& i <= e <= b.len()
            &&& forall|k: int|
                i <= k < e ==> #[trigger] b[k] != 91 && b[k] != 93 && b[k] != text::NEWLINE
        }),
    decreases b.len() - i,
{
    if i < b.len() && b[i] != 91 && b[i] != 93 && b[i] != text::NEWLINE {
        lemma_label(b, i + 1);
    }
}

/// The markers that are found are footnotes, in the order in which they stand, and none
/// lies in another.
pub proof fn law_markers_are_footnotes(b: Seq<u8>, from: int)
    requires
        0 <= from,
    ensures
        ({
            let ms = footnote_edit::markers_from(b, from);
            &&& forall|k: int|
                0 <= k < ms.len() ==> is_footnote(b, #[trigger] ms[k]) && ms[k].start >= from
            &&& forall|j: int, k: int|
                0 <= j < k < ms.len() ==> (#[trigger] ms[j]).end <= (#[trigger] ms[k]).start
        }),
    decreases b.len() - from,
{
    if from < b.len() {
        match footnote_edit::marker_at(b, from) {
            Some(m) => {
                lemma_label(b, from + 2);
                assert(is_footnote(b, m));
                if m.end <= b.len() {
                    law_markers_are_footnotes(b, m.end);
                    let rest = footnote_edit::markers_from(b, m.end);
                    let ms = footnote_edit::markers_from(b, from);
                    assert(ms == seq![m] + rest);
                    assert forall|k: int| 0 <= k < ms.len() implies is_footnote(
                        b,
                        #[trigger] ms[k],
                    ) && ms[k].start >= from by {
                        if k > 0 {
                            assert(ms[k] == rest[k - 1]);
                        }
                    }
                    assert forall|j: int, k: int| 0 <= j < k < ms.len() implies (
                    #[trigger] ms[j]).end <= (#[trigger] ms[k]).start by {
                        assert(ms[k] == rest[k - 1]);
                        if j > 0 {
                            assert(ms[j] == rest[j - 1]);
                        }
                    }
                }
            },
            None => {
                law_markers_are_footnotes(b, from + 1);
                assert(footnote_edit::markers_from(b, from) == footnote_edit::markers_from(
                    b,
                    from + 1,
                ));
            },
        }
    } else {
        assert(footnote_edit::markers_from(b, from) == Seq::<MarkerSpan>::empty());
    }
}

/// Every footnote that is not escaped, and that lies in no other marker, is found.
pub proof fn law_footnote_is_marker(b: Seq<u8>, m: MarkerSpan)
    requires
        is_footnote(b, m),
        m.start == 0 || b[m.start - 1] != 92,
    ensures
        footnote_edit::marker_at(b, m.start) == Some(m),
{
    lemma_label_is(b, m.start + 2, m.end - 1);
}

proof fn lemma_label_is(b: Seq<u8>, i: int, e: int)
    requires
        0 <= i <= e < b.len(),
        b[e] == 93,
        forall|k: int| i <= k < e ==> #[trigger] b[k] != 91 && b[k] != 93 && b[k] != text::NEWLINE,
    ensures
        footnote_edit::label_end(b, i) == e,
    decreases e - i,
{
    if i < e {
        lemma_label_is(b, i + 1, e);
    }
}

/// The marker at a column is one that covers it, that of a definition with its colon; and
/// only where none does is there none.
pub proof fn law_marker_at_column(ms: Seq<MarkerSpan>, col: int, k: int)
    requires
        0 <= k,
    ensures
        match footnotes::covering(ms, col, k) {
            Some(m) => ms.contains(m) && m.start <= col && (col < m.end || (m.is_definition && col
                == m.end)),
            None => forall|j: int|
                k <= j < ms.len() ==> !((#[trigger] ms[j]).start <= col && (col < ms[j].end || (
                ms[j].is_definition && col == ms[j].end))),
        },
    decreases ms.len() - k,
{
    if k < ms.len() {
        law_marker_at_column(ms, col, k + 1);
    }
}

// ── Tables ───────────────────────────────────────────────────────────────
/// A column is as wide as its widest cell, and no narrower than the least width: no cell
/// is wider, and one of them, or the least width, is as wide.
pub proof fn law_column_holds_its_cells(rows: Seq<TableRow>, c: int, n: int, least: nat)
    requires
        0 <= n <= rows.len(),
    ensures
        ({
            let w = table_drag::column_width(rows, c, n, least);
            &&& w >= least
            &&& forall|k: int|
                0 <= k < n ==> cells::capped(
                    cells::cells_of(table_drag::cell_text(#[trigger] rows[k], c)),
                ) <= w
            &&& w == least || exists|k: int|
                0 <= k < n && cells::capped(
                    cells::cells_of(table_drag::cell_text(#[trigger] rows[k], c)),
                ) == w
        }),
    decreases n,
{
    if n > 0 {
        law_column_holds_its_cells(rows, c, n - 1, least);
        assert(rows[n - 1] == rows[n - 1]);
    }
}

/// A click on an image puts the cursor into its source: not behind its last character, and
/// before the line that closes a diagram.
pub proof fn law_image_click_stays_inside(b: Seq<u8>, diagram: bool, formula: bool)
    ensures
        ({
            let t = hits::target_in_image(b, diagram, formula);
            &&& 0 <= t <= b.len()
            &&& forall|k: int|
                #![trigger b[k]]
                !diagram && !formula && t <= k < b.len() ==> b[k] == text::NEWLINE
            &&& !diagram && !formula && t > 0 ==> b[t - 1] != text::NEWLINE
        }),
{
    lemma_feeds(b, b.len() as int);
    let n = hits::end_without_feeds(b, b.len() as int);
    let s = b.take(n);
    lemma_last_stand(s, hits::fence_line(), n);
    lemma_last_stand(s, hits::formula_line(), n);
    lemma_last_stand(s, hits::formula_end(), n);
}

proof fn lemma_feeds(b: Seq<u8>, i: int)
    requires
        0 <= i <= b.len(),
    ensures
        ({
            let n = hits::end_without_feeds(b, i);
            &&& 0 <= n <= i
            &&& forall|k: int| n <= k < i ==> #[trigger] b[k] == text::NEWLINE
            &&& n > 0 ==> b[n - 1] != text::NEWLINE
        }),
    decreases i,
{
    if i > 0 && b[i - 1] == text::NEWLINE {
        lemma_feeds(b, i - 1);
    }
}

proof fn lemma_last_stand(b: Seq<u8>, pat: Seq<u8>, i: int)
    requires
        0 <= i <= b.len(),
    ensures
        hits::last_stand(b, pat, i) matches Some(k) ==> 0 <= k <= i && hits::stands(b, pat, k)
            && forall|j: int| k < j <= i ==> !#[trigger] hits::stands(b, pat, j),
        hits::last_stand(b, pat, i) is None ==> forall|j: int|
            0 <= j <= i ==> !#[trigger] hits::stands(b, pat, j),
    decreases i,
{
    if i > 0 && !hits::stands(b, pat, i) {
        lemma_last_stand(b, pat, i - 1);
    } else if i == 0 {
        reveal_with_fuel(hits::last_stand, 2);
    }
}

/// Where a diagram or a formula is closed by a line of its own, three backquotes or two
/// dollar signs, a click on it puts the cursor to the end of the line before the last such
/// line.
pub proof fn law_image_click_is_before_close(b: Seq<u8>, diagram: bool, close: Seq<u8>, k: int)
    requires
        0 <= k && k + close.len() <= b.len(),
        b.len() > 0,
        b.last() != text::NEWLINE,
        diagram ==> close == seq![10u8, 96u8, 96u8, 96u8],
        !diagram ==> close == seq![10u8, 36u8, 36u8],
        b.subrange(k, k + close.len()) == close,
        forall|j: int|
            k < j && j + close.len() <= b.len() ==> #[trigger] b.subrange(j, j + close.len())
                != close,
    ensures
        hits::target_in_image(b, diagram, !diagram) == k,
{
    let n = b.len() as int;
    lemma_feeds(b, n);
    assert(hits::end_without_feeds(b, n) == n);
    assert(b.take(n) =~= b);
    lemma_last_stand(b, close, n);
    assert(hits::stands(b, close, k));
    match hits::last_stand(b, close, n) {
        Some(i) => {
            if i > k {
                assert(b.subrange(i, i + close.len()) == close);
            }
            assert(i == k);
        },
        None => {},
    }
}

/// The cell of a table at a column is the one between whose pipes the column lies.
pub proof fn law_cell_lies_between_pipes(pipes: Seq<usize>, col: int, k: int)
    requires
        0 <= k,
        k + 1 < pipes.len(),
        pipes[k] <= col < pipes[pipes.len() - 1],
        forall|i: int, j: int| 0 <= i <= j < pipes.len() ==> pipes[i] <= pipes[j],
    ensures
        ({
            let c = coord::cell_at(pipes, col, k);
            &&& k <= c && c + 1 < pipes.len()
            &&& pipes[c] <= col < pipes[c + 1]
        }),
    decreases pipes.len() - k,
{
    if k + 2 < pipes.len() && col >= pipes[k + 1] {
        law_cell_lies_between_pipes(pipes, col, k + 1);
    }
}

proof fn lemma_kind_at(kinds: Seq<TableSubLineKind>, kind: TableSubLineKind, k: int)
    requires
        0 <= k,
    ensures
        match state_rows::kind_at(kinds, kind, k) {
            Some(i) => k <= i < kinds.len() && kinds[i] == kind && forall|j: int|
                k <= j < i ==> #[trigger] kinds[j] != kind,
            None => forall|j: int| k <= j < kinds.len() ==> #[trigger] kinds[j] != kind,
        },
    decreases kinds.len() - k,
{
    if k < kinds.len() && kinds[k] != kind {
        lemma_kind_at(kinds, kind, k + 1);
    }
}

/// The rendered line on which a row of a table's source is shown leads back to that row:
/// the header, or a row of data.
pub proof fn law_table_row_comes_back(
    kinds: Seq<TableSubLineKind>,
    r: int,
    own: int,
    lines: int,
    i: int,
)
    requires
        r == 0 || 2 <= r <= usize::MAX,
        0 <= i < kinds.len(),
        i + 2 <= own,
        kinds[i] == (if r == 0 {
            TableSubLineKind::Header { sub: 0 }
        } else {
            TableSubLineKind::DataRow { row: (r - 2) as usize, sub: 0 }
        }),
    ensures
        ({
            let at = state_rows::table_sub_line(kinds, r, own);
            &&& 0 <= at <= i
            &&& kinds[at] == kinds[i]
            &&& coord::table_row_shown(kinds, at, lines) == (r, 0int)
        }),
{
    let kind = kinds[i];
    lemma_kind_at(kinds, kind, 0);
}

/// The rendered lines of a cell's row are those around the clicked one that show the same
/// row, and all of them.
pub proof fn law_row_of_cell_is_whole(kinds: Seq<TableSubLineKind>, i: int)
    requires
        0 <= i < kinds.len(),
        kinds[i] is Header || kinds[i] is DataRow,
    ensures
        ({
            let a = coord::row_first(kinds, i, i);
            let z = coord::row_last(kinds, i, i);
            &&& 0 <= a <= i <= z < kinds.len()
            &&& forall|j: int| a <= j <= z ==> coord::same_row(kinds[i], #[trigger] kinds[j])
            &&& a > 0 ==> !coord::same_row(kinds[i], kinds[a - 1])
            &&& z + 1 < kinds.len() ==> !coord::same_row(kinds[i], kinds[z + 1])
        }),
{
    lemma_row_first(kinds, i, i);
    lemma_row_last(kinds, i, i);
    let a = coord::row_first(kinds, i, i);
    let z = coord::row_last(kinds, i, i);
    assert forall|j: int| a <= j <= z implies coord::same_row(kinds[i], #[trigger] kinds[j]) by {}
}

proof fn lemma_row_first(kinds: Seq<TableSubLineKind>, i: int, j: int)
    requires
        0 <= j <= i < kinds.len(),
    ensures
        ({
            let a = coord::row_first(kinds, i, j);
            &&& 0 <= a <= j
            &&& forall|k: int| a <= k < j ==> coord::same_row(kinds[i], #[trigger] kinds[k])
            &&& a > 0 ==> !coord::same_row(kinds[i], kinds[a - 1])
        }),
    decreases j,
{
    if 0 < j && coord::same_row(kinds[i], kinds[j - 1]) {
        lemma_row_first(kinds, i, j - 1);
    }
}

proof fn lemma_row_last(kinds: Seq<TableSubLineKind>, i: int, j: int)
    requires
        0 <= i <= j < kinds.len(),
    ensures
        ({
            let z = coord::row_last(kinds, i, j);
            &&& j <= z < kinds.len()
            &&& forall|k: int| j < k <= z ==> coord::same_row(kinds[i], #[trigger] kinds[k])
            &&& z + 1 < kinds.len() ==> !coord::same_row(kinds[i], kinds[z + 1])
        }),
    decreases kinds.len() - j,
{
    if j + 1 < kinds.len() && coord::same_row(kinds[i], kinds[j + 1]) {
        lemma_row_last(kinds, i, j + 1);
    }
}

proof fn lemma_pad_from(b: Seq<u8>, i: int)
    requires
        0 <= i <= b.len(),
    ensures
        ({
            let n = pick::pad_from(b, i);
            &&& 0 <= n <= b.len() - i
            &&& forall|k: int| i <= k < i + n ==> #[trigger] b[k] == 32 || b[k] == 9
            &&& i + n < b.len() ==> b[i + n] != 32 && b[i + n] != 9
        }),
    decreases b.len() - i,
{
    if i < b.len() && (b[i] == 32 || b[i] == 9) {
        lemma_pad_from(b, i + 1);
    }
}

proof fn lemma_pad_before(b: Seq<u8>, i: int)
    requires
        0 <= i <= b.len(),
    ensures
        ({
            let n = pick::pad_before(b, i);
            &&& 0 <= n <= i
            &&& forall|k: int| i - n <= k < i ==> #[trigger] b[k] == 32 || b[k] == 9
            &&& i - n > 0 ==> b[i - n - 1] != 32 && b[i - n - 1] != 9
        }),
    decreases i,
{
    if i > 0 && (b[i - 1] == 32 || b[i - 1] == 9) {
        lemma_pad_before(b, i - 1);
    }
}

/// What is selected of a cell by a triple click is its text without the padding: nothing
/// but spaces and tabs is left out, and none at its ends is left in.
pub proof fn law_cell_is_selected_without_padding(row: int, cell: TableCell, k: int)
    requires
        0 <= k < encode_utf8(cell.raw@).len(),
        encode_utf8(cell.raw@)[k] != 32 && encode_utf8(cell.raw@)[k] != 9,
    ensures
        ({
            let b = encode_utf8(cell.raw@);
            let (s, e) = pick::cell_text_bytes(row, cell);
            let a = s - row - cell.content_start;
            let z = e - row - cell.content_start;
            &&& 0 <= a <= k < z <= b.len()
            &&& b[a] != 32 && b[a] != 9 && b[z - 1] != 32 && b[z - 1] != 9
            &&& forall|j: int| 0 <= j < a ==> #[trigger] b[j] == 32 || b[j] == 9
            &&& forall|j: int| z <= j < b.len() ==> #[trigger] b[j] == 32 || b[j] == 9
        }),
{
    let b = encode_utf8(cell.raw@);
    lemma_pad_from(b, 0);
    lemma_pad_before(b, b.len() as int);
    let lead = pick::pad_from(b, 0);
    let pad = pick::pad_before(b, b.len() as int);
    if lead > k {
        assert(b[k] == 32 || b[k] == 9);
    }
    if b.len() - pad <= k {
        assert(b[k] == 32 || b[k] == 9);
    }
}

} // verus!
