//! Column widths under a column drag.

use crate::cells;
use crate::editor::table_edit::{TableInfo, TableMetrics, TableRow};
use crate::text;
use vstd::prelude::*;
use vstd::string::*;
use vstd::utf8::*;

verus! {

broadcast use {vstd::utf8::encode_utf8_valid_utf8, vstd::utf8::encode_utf8_decode_utf8};

/// The larger of two numbers.
pub open spec fn larger(a: nat, b: nat) -> nat {
    if a >= b {
        a
    } else {
        b
    }
}

/// The widest word of `s` from index `i` on, where `run` cells of a word stand
/// before `i` and words of `best` cells were seen. A wide character is a word of
/// its own, since a line can be broken around it.
pub open spec fn widest_word(s: Seq<char>, i: int, run: nat, best: nat) -> nat
    decreases s.len() - i,
{
    if i < 0 || i >= s.len() {
        larger(best, run)
    } else if text::is_whitespace_char(s[i]) {
        widest_word(s, i + 1, 0, larger(best, run))
    } else if cells::cells(s[i]) >= 2 {
        widest_word(s, i + 1, 0, larger(larger(best, run), cells::cells(s[i])))
    } else {
        widest_word(s, i + 1, run + cells::cells(s[i]), best)
    }
}

/// The widest word of `text`, in terminal cells: the width below which a column
/// would break a word.
pub fn longest_word_cells(text: &str) -> (r: usize)
    ensures
        r == cells::capped(widest_word(text@, 0, 0, 0)),
{
    let chars: Vec<char> = text::chars_of(text);
    let mut i: usize = 0;
    let mut run: usize = 0;
    let mut best: usize = 0;
    let ghost mut g_run: nat = 0;
    let ghost mut g_best: nat = 0;
    while i < chars.len()
        invariant
            chars@ == text@,
            i <= chars@.len(),
            run == cells::capped(g_run),
            best == cells::capped(g_best),
            widest_word(text@, i as int, g_run, g_best) == widest_word(text@, 0, 0, 0),
        decreases chars@.len() - i,
    {
        let c: char = chars[i];
        let w: usize = cells::char_cells(c);
        if text::is_whitespace(c) || w >= 2 {
            if run > best {
                best = run;
            }
            proof {
                g_best = larger(g_best, g_run);
            }
            if !text::is_whitespace(c) {
                if w > best {
                    best = w;
                }
                proof {
                    g_best = larger(g_best, cells::cells(c));
                }
            }
            run = 0;
            proof {
                g_run = 0;
            }
        } else {
            run = if w <= usize::MAX - run {
                run + w
            } else {
                usize::MAX
            };
            proof {
                g_run = g_run + cells::cells(c);
            }
        }
        i += 1;
    }
    if run > best {
        run
    } else {
        best
    }
}

/// The text of cell `c` of a row without its padding; rows may be short.
pub open spec fn cell_text(row: TableRow, c: int) -> Seq<char> {
    if 0 <= c < row.cells@.len() {
        text::trimmed(row.cells@[c].raw@)
    } else {
        Seq::empty()
    }
}

/// The width of column `c` over the first `n` rows, and no less than `least`.
pub open spec fn column_width(rows: Seq<TableRow>, c: int, n: int, least: nat) -> nat
    decreases n,
{
    if n <= 0 {
        least
    } else {
        larger(
            column_width(rows, c, n - 1, least),
            cells::capped(cells::cells_of(cell_text(rows[n - 1], c))) as nat,
        )
    }
}

/// The widths of the columns as the table's contents ask for them.
pub fn natural_widths(info: &TableInfo, metrics: &TableMetrics) -> (r: Vec<usize>)
    ensures
        r@.len() == info.col_count,
        forall|c: int|
            0 <= c < info.col_count ==> #[trigger] r@[c] == column_width(
                info.rows@,
                c,
                info.rows@.len() as int,
                metrics.min_col_width as nat,
            ),
{
    let mut out: Vec<usize> = Vec::new();
    let mut c: usize = 0;
    while c < info.col_count
        invariant
            c <= info.col_count,
            out@.len() == c,
            forall|k: int|
                0 <= k < c ==> #[trigger] out@[k] == column_width(
                    info.rows@,
                    k,
                    info.rows@.len() as int,
                    metrics.min_col_width as nat,
                ),
        decreases info.col_count - c,
    {
        let mut width: usize = metrics.min_col_width;
        let mut n: usize = 0;
        while n < info.rows.len()
            invariant
                n <= info.rows@.len(),
                width == column_width(info.rows@, c as int, n as int, metrics.min_col_width as nat),
            decreases info.rows@.len() - n,
        {
            let row = &info.rows[n];
            let w: usize = if c < row.cells.len() {
                cells::text_cells(text::trim(row.cells[c].raw.as_str()).as_str())
            } else {
                0
            };
            if w > width {
                width = w;
            }
            n += 1;
        }
        out.push(width);
        c += 1;
    }
    out
}

/// `natural` with the widths that the user gave in their place, none less than
/// `least`.
pub open spec fn with_user_widths(
    natural: Seq<usize>,
    user: Seq<Option<usize>>,
    least: usize,
) -> Seq<usize> {
    Seq::new(
        natural.len(),
        |i: int|
            if i < user.len() {
                match user[i] {
                    Some(w) => if w >= least {
                        w
                    } else {
                        least
                    },
                    None => natural[i],
                }
            } else {
                natural[i]
            },
    )
}

/// Puts the user's widths in the place of the natural ones.
pub fn apply_user_widths(natural: &[usize], user: &[Option<usize>], metrics: &TableMetrics) -> (r:
    Vec<usize>)
    ensures
        r@ == with_user_widths(natural@, user@, metrics.min_col_width),
{
    let mut out: Vec<usize> = Vec::new();
    let mut i: usize = 0;
    while i < natural.len()
        invariant
            i <= natural@.len(),
            out@ == with_user_widths(natural@, user@, metrics.min_col_width).take(i as int),
        decreases natural@.len() - i,
    {
        let w: usize = if i < user.len() {
            match user[i] {
                Some(w) => if w >= metrics.min_col_width {
                    w
                } else {
                    metrics.min_col_width
                },
                None => natural[i],
            }
        } else {
            natural[i]
        };
        out.push(w);
        i += 1;
        assert(out@ =~= with_user_widths(natural@, user@, metrics.min_col_width).take(i as int));
    }
    assert(out@ =~= with_user_widths(natural@, user@, metrics.min_col_width));
    out
}

/// The sum of the widths of the first `n` columns but for column `skip`.
pub open spec fn other_widths(widths: Seq<usize>, skip: int, n: int) -> nat
    decreases n,
{
    if n <= 0 {
        0
    } else {
        other_widths(widths, skip, n - 1) + (if n - 1 == skip {
            0
        } else {
            widths[n - 1] as nat
        })
    }
}

/// The width of the column left of a dragged border: what it was plus the drag,
/// no less than the least width, and no more than the viewport leaves beside the
/// other columns and the borders.
pub open spec fn resized(
    widths: Seq<usize>,
    left: int,
    delta: int,
    viewport: nat,
    metrics: TableMetrics,
) -> int {
    let others = metrics.per_col_overhead * widths.len() + metrics.row_end_overhead + other_widths(
        widths,
        left,
        widths.len() as int,
    );
    let least = metrics.min_col_width as int;
    let room = if viewport - others >= least {
        viewport - others
    } else {
        least
    };
    let target = if widths[left] + delta >= least {
        widths[left] + delta
    } else {
        least
    };
    if target <= room {
        target
    } else {
        room
    }
}

/// The user's widths, filled up with `None` to `n` columns.
pub open spec fn padded(user: Seq<Option<usize>>, n: int) -> Seq<Option<usize>> {
    if user.len() >= n {
        user
    } else {
        user + Seq::new((n - user.len()) as nat, |i: int| None)
    }
}

/// Resizes the column left of the border `col_idx` by `delta` cells.
///
/// Only that column is pinned. The column to the right keeps what it had, so a
/// wider column makes the table grow up to the viewport's edge. `None` for the
/// outermost left border and for a border that does not exist.
pub fn resize_widths(
    start_widths: &[usize],
    start_user_widths: &[Option<usize>],
    col_idx: usize,
    delta: i32,
    viewport_width: usize,
    metrics: &TableMetrics,
) -> (r: Option<Vec<Option<usize>>>)
    requires
        metrics.per_col_overhead * start_widths@.len() + metrics.row_end_overhead + other_widths(
            start_widths@,
            col_idx - 1,
            start_widths@.len() as int,
        ) <= usize::MAX,
        forall|i: int| 0 <= i < start_widths@.len() ==> #[trigger] start_widths@[i] <= i32::MAX,
        metrics.min_col_width <= i32::MAX,
    ensures
        r is Some <==> 0 < col_idx <= start_widths@.len(),
        r matches Some(w) ==> w@ == padded(start_user_widths@, start_widths@.len() as int).update(
            col_idx - 1,
            Some(
                resized(
                    start_widths@,
                    col_idx - 1,
                    delta as int,
                    viewport_width as nat,
                    *metrics,
                ) as usize,
            ),
        ),
{
    let n: usize = start_widths.len();
    if col_idx == 0 || col_idx > n {
        return None;
    }
    let left: usize = col_idx - 1;
    let mut others: usize = 0;
    let mut i: usize = 0;
    let ghost over: int = metrics.per_col_overhead * n + metrics.row_end_overhead;
    proof {
        assert(metrics.per_col_overhead * n >= 0) by (nonlinear_arith);
    }
    while i < n
        invariant
            i <= n == start_widths@.len(),
            left == col_idx - 1,
            over >= 0,
            over + other_widths(start_widths@, left as int, n as int) <= usize::MAX,
            others == other_widths(start_widths@, left as int, i as int),
        decreases n - i,
    {
        proof {
            lemma_other_widths(start_widths@, left as int, i + 1, n as int);
        }
        if i != left {
            others += start_widths[i];
        }
        i += 1;
    }
    let used: usize = metrics.per_col_overhead * n + metrics.row_end_overhead + others;
    let left_over: usize = if viewport_width >= used {
        viewport_width - used
    } else {
        0
    };
    let room: usize = if left_over >= metrics.min_col_width {
        left_over
    } else {
        metrics.min_col_width
    };
    let wanted: i64 = start_widths[left] as i64 + delta as i64;
    let target: usize = if wanted >= metrics.min_col_width as i64 {
        wanted as usize
    } else {
        metrics.min_col_width
    };
    let width: usize = if target <= room {
        target
    } else {
        room
    };
    let ghost user = start_user_widths@;
    let mut out: Vec<Option<usize>> = Vec::new();
    let mut k: usize = 0;
    while k < start_user_widths.len()
        invariant
            k <= user.len(),
            user == start_user_widths@,
            out@ == user.take(k as int),
        decreases user.len() - k,
    {
        out.push(start_user_widths[k]);
        k += 1;
        assert(out@ =~= user.take(k as int));
    }
    assert(user.take(k as int) =~= user);
    while out.len() < n
        invariant
            n == start_widths@.len(),
            user.len() <= out@.len(),
            out@.len() <= n || out@.len() == user.len(),
            out@ == user + Seq::new((out@.len() - user.len()) as nat, |i: int| None::<usize>),
        decreases n - out@.len(),
    {
        out.push(None);
        assert(out@ =~= user + Seq::new((out@.len() - user.len()) as nat, |i: int| None::<usize>));
    }
    assert(out@ =~= padded(user, n as int));
    out.set(left, Some(width));
    Some(out)
}

proof fn lemma_other_widths(widths: Seq<usize>, skip: int, a: int, b: int)
    requires
        a <= b,
    ensures
        other_widths(widths, skip, a) <= other_widths(widths, skip, b),
    decreases b - a,
{
    if a < b && b > 0 {
        lemma_other_widths(widths, skip, a, b - 1);
    }
}

/// The widths that `pinned` gives, if it names one for each of the `n` columns.
pub open spec fn pins_for(pinned: Option<Seq<Option<usize>>>, n: int) -> Option<Seq<Option<usize>>> {
    match pinned {
        Some(w) => if w.len() == n {
            Some(w)
        } else {
            None
        },
        None => None,
    }
}

fn copy_pins(w: &Vec<Option<usize>>) -> (r: Vec<Option<usize>>)
    ensures
        r@ == w@,
{
    let mut out: Vec<Option<usize>> = Vec::new();
    let mut i: usize = 0;
    while i < w.len()
        invariant
            i <= w@.len(),
            out@ == w@.take(i as int),
        decreases w@.len() - i,
    {
        out.push(w[i]);
        i += 1;
        assert(out@ =~= w@.take(i as int));
    }
    assert(w@.take(i as int) =~= w@);
    out
}

/// The widths that a column drag begins with, and which of them the user pinned.
///
/// The pins are those of the drag in flight, where it is this table's (`live`),
/// else those that the comment behind the table names (`persisted`), else none.
/// Pins that do not name every column are passed over.
pub fn current_widths_for_table(
    info: &TableInfo,
    live: &Option<(usize, Vec<Option<usize>>)>,
    persisted: &Option<Vec<Option<usize>>>,
    metrics: &TableMetrics,
) -> (r: (Vec<usize>, Vec<Option<usize>>))
    ensures
        r.1@ == ({
            let live_pins = pins_for(
                match *live {
                    Some(l) => if l.0 == info.start {
                        Some(l.1@)
                    } else {
                        None
                    },
                    None => None,
                },
                info.col_count as int,
            );
            let comment_pins = pins_for(
                match *persisted {
                    Some(w) => Some(w@),
                    None => None,
                },
                info.col_count as int,
            );
            match live_pins {
                Some(w) => w,
                None => match comment_pins {
                    Some(w) => w,
                    None => Seq::new(info.col_count as nat, |i: int| None),
                },
            }
        }),
        r.0@.len() == info.col_count,
        forall|c: int|
            0 <= c < info.col_count ==> #[trigger] r.0@[c] == (match r.1@[c] {
                Some(w) => larger(w as nat, metrics.min_col_width as nat),
                None => column_width(
                    info.rows@,
                    c,
                    info.rows@.len() as int,
                    metrics.min_col_width as nat,
                ),
            }),
{
    let natural: Vec<usize> = natural_widths(info, metrics);
    match live {
        Some(l) => {
            if l.0 == info.start && l.1.len() == info.col_count {
                let shown = apply_user_widths(natural.as_slice(), l.1.as_slice(), metrics);
                return (shown, copy_pins(&l.1));
            }
        },
        None => {},
    }
    match persisted {
        Some(w) => {
            if w.len() == info.col_count {
                let shown = apply_user_widths(natural.as_slice(), w.as_slice(), metrics);
                return (shown, copy_pins(w));
            }
        },
        None => {},
    }
    let mut none: Vec<Option<usize>> = Vec::new();
    while none.len() < info.col_count
        invariant
            none@.len() <= info.col_count,
            forall|i: int| 0 <= i < none@.len() ==> #[trigger] none@[i] is None,
        decreases info.col_count - none@.len(),
    {
        none.push(None);
    }
    assert(none@ =~= Seq::new(info.col_count as nat, |i: int| None));
    (natural, none)
}

/// The line that follows a table which ends at offset `end`: where the comment
/// with the column widths stands. `None` at the end of the text.
pub fn line_behind_table(source: &str, end: usize) -> (r: Option<&str>)
    requires
        end < source.spec_bytes().len() ==> is_char_boundary(source.spec_bytes(), end as int),
    ensures
        match r {
            Some(l) => end < source.spec_bytes().len() && l.spec_bytes()
                == source.spec_bytes().subrange(
                end as int,
                text::line_end(source.spec_bytes(), end as int),
            ),
            None => end >= source.spec_bytes().len(),
        },
{
    let bytes = source.as_bytes();
    if end >= bytes.len() {
        return None;
    }
    let line_end: usize = text::line_end_byte(bytes, end);
    proof {
        text::lemma_line_edges(source.spec_bytes(), line_end as int);
    }
    Some(text::slice(source, end, line_end))
}

} // verus!
