//! Movements of the cursor, by name.

use crate::document::buffer::Buffer;
use crate::document::cursor;
use crate::document::cursor::Cursor;
use crate::document::graphemes;
use crate::document::rope;
use vstd::prelude::*;

verus! {

/// A movement of the cursor.
#[derive(Debug, Clone, Copy, PartialEq, Eq, Structural)]
pub enum Motion {
    Left,
    Right,
    WordLeft,
    WordRight,
    LineStart,
    LineEnd,
    Up,
    Down,
    DocStart,
    DocEnd,
}

/// The cursor at `offset`, aiming at the column there.
pub open spec fn landed(s: Seq<char>, offset: int) -> Cursor {
    Cursor { offset: offset as usize, preferred_col: cursor::cell_col_of(s, offset) }
}

/// The end of the line that index `i` is on.
pub open spec fn line_end_of(s: Seq<char>, i: int) -> int {
    cursor::line_start_of(s, i) + cursor::line_len(s, cursor::line_of(s, i))
}

/// Where a movement takes the cursor.
pub open spec fn moved(c: Cursor, s: Seq<char>, how: Motion) -> Cursor {
    let i = c.offset as int;
    let line = cursor::line_of(s, i);
    match how {
        Motion::Left => if i == 0 {
            c
        } else {
            landed(s, graphemes::prev_boundary(s, i))
        },
        Motion::Right => if i == s.len() {
            c
        } else {
            landed(s, graphemes::next_boundary(s, i))
        },
        Motion::WordLeft => landed(
            s,
            cursor::skip_back(s, cursor::skip_back(s, i, true), false),
        ),
        Motion::WordRight => landed(
            s,
            cursor::skip_forward(s, cursor::skip_forward(s, i, false), true),
        ),
        Motion::LineStart => Cursor {
            offset: cursor::line_start_of(s, i) as usize,
            preferred_col: 0,
        },
        Motion::LineEnd => landed(s, line_end_of(s, i)),
        Motion::Up => Cursor {
            offset: (if line == 0 {
                0
            } else {
                cursor::offset_at_cell(s, line - 1, c.preferred_col as int)
            }) as usize,
            preferred_col: c.preferred_col,
        },
        Motion::Down => if line + 1 < rope::line_total(s) {
            Cursor {
                offset: cursor::offset_at_cell(s, line + 1, c.preferred_col as int) as usize,
                preferred_col: c.preferred_col,
            }
        } else {
            landed(s, line_end_of(s, i))
        },
        Motion::DocStart => Cursor { offset: 0, preferred_col: 0 },
        Motion::DocEnd => landed(s, s.len() as int),
    }
}

/// Moves the cursor.
pub fn move_cursor(c: &mut Cursor, buf: &Buffer, how: Motion)
    requires
        old(c).in_buffer(buf@),
    ensures
        final(c).in_buffer(buf@),
        *final(c) == moved(*old(c), buf@, how),
{
    match how {
        Motion::Left => c.move_left(buf),
        Motion::Right => c.move_right(buf),
        Motion::WordLeft => c.move_word_left(buf),
        Motion::WordRight => c.move_word_right(buf),
        Motion::LineStart => c.move_line_start(buf),
        Motion::LineEnd => c.move_line_end(buf),
        Motion::Up => c.move_up(buf),
        Motion::Down => c.move_down(buf),
        Motion::DocStart => c.move_doc_start(),
        Motion::DocEnd => c.move_doc_end(buf),
    }
}

} // verus!
