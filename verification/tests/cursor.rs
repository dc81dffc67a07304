//! Cursor motions.

use edamame::document::buffer::Buffer;
use edamame::document::cursor::Cursor;

fn buf(s: &str) -> Buffer {
    Buffer::from_str(s)
}

fn cur(offset: usize) -> Cursor {
    Cursor {
        offset,
        preferred_col: 0,
    }
}

fn cur_pc(offset: usize, preferred_col: usize) -> Cursor {
    Cursor {
        offset,
        preferred_col,
    }
}

#[test]
fn line_col_first_line() {
    let b = buf("hello\nworld");
    let c = cur(3);
    assert_eq!(c.line_col(&b), (0, 3));
}

#[test]
fn line_col_second_line() {
    let b = buf("hello\nworld");
    let c = cur(8); // 'r' in "world"
    assert_eq!(c.line_col(&b), (1, 2));
}

#[test]
fn move_left_basic() {
    let b = buf("hello");
    let mut c = cur(3);
    c.move_left(&b);
    assert_eq!(c.offset, 2);
    assert_eq!(c.preferred_col, 2);
}

#[test]
fn move_left_at_start_is_noop() {
    let b = buf("hello");
    let mut c = cur(0);
    c.move_left(&b);
    assert_eq!(c.offset, 0);
}

#[test]
fn move_right_basic() {
    let b = buf("hello");
    let mut c = cur(2);
    c.move_right(&b);
    assert_eq!(c.offset, 3);
    assert_eq!(c.preferred_col, 3);
}

#[test]
fn move_right_at_end_is_noop() {
    let b = buf("hi");
    let mut c = cur(2);
    c.move_right(&b);
    assert_eq!(c.offset, 2);
}

#[test]
fn move_line_start_mid_line() {
    let b = buf("hello\nworld");
    let mut c = cur(3); // 'l' in hello
    c.move_line_start(&b);
    assert_eq!(c.offset, 0);
    assert_eq!(c.preferred_col, 0);
}

#[test]
fn move_line_end_trims_newline() {
    let b = buf("hello\nworld");
    let mut c = cur(0);
    c.move_line_end(&b);
    assert_eq!(c.offset, 5); // after 'o', before '\n'
    assert_eq!(c.preferred_col, 5);
}

#[test]
fn move_line_end_second_line() {
    let b = buf("hello\nworld");
    let mut c = cur(7); // inside "world"
    c.move_line_end(&b);
    assert_eq!(c.offset, 11); // past 'd'
}

#[test]
fn move_up_from_second_line() {
    let b = buf("hello\nworld");
    let mut c = cur_pc(8, 2); // 'r' in "world", preferred_col=2
    c.move_up(&b);
    assert_eq!(c.offset, 2); // 'l' in "hello"
}

#[test]
fn move_up_from_first_line_snaps_to_start() {
    let b = buf("hello\nworld");
    let mut c = cur_pc(3, 3);
    c.move_up(&b);
    assert_eq!(c.offset, 0);
}

#[test]
fn move_down_from_first_line() {
    let b = buf("hello\nworld");
    let mut c = cur_pc(2, 2); // 'l' in "hello", preferred_col=2
    c.move_down(&b);
    assert_eq!(c.offset, 8); // 'r' in "world"
}

#[test]
fn move_down_clamps_to_short_line() {
    let b = buf("hello\nhi");
    let mut c = cur_pc(4, 4);
    c.move_down(&b);
    assert_eq!(c.offset, 8); // end of "hi" (no newline)
}

#[test]
fn move_down_from_last_line_snaps_to_end() {
    let b = buf("hello\nworld");
    let mut c = cur_pc(8, 2); // inside "world"
    c.move_down(&b);
    assert_eq!(c.offset, 11); // end of document
}

#[test]
fn move_word_left_from_word() {
    let b = buf("hello world");
    let mut c = cur(10); // 'l' in "world"
    c.move_word_left(&b);
    assert_eq!(c.offset, 6); // start of "world"
}

#[test]
fn move_word_right_from_word() {
    let b = buf("hello world");
    let mut c = cur(0);
    c.move_word_right(&b);
    assert_eq!(c.offset, 6); // start of "world"
}

#[test]
fn move_doc_start() {
    let b = buf("hello\nworld");
    let mut c = cur(8);
    c.move_doc_start();
    assert_eq!(c.offset, 0);
    assert_eq!(c.preferred_col, 0);
}

#[test]
fn move_doc_end() {
    let b = buf("hello\nworld");
    let mut c = cur(0);
    c.move_doc_end(&b);
    assert_eq!(c.offset, 11);
}

#[test]
fn preferred_col_preserved_through_short_line() {
    let b = buf("hello world\nhi\nhello again");
    let mut c = cur_pc(6, 6); // 'w' in "hello world"
    c.move_down(&b); // → "hi" (col clamped to 2)
    assert_eq!(c.offset, 14); // end of "hi"
    assert_eq!(c.preferred_col, 6); // preferred_col unchanged
    c.move_down(&b); // → "hello again" col 6
    assert_eq!(c.offset, 15 + 6); // 'a' in "again"
}

#[test]
fn clamp_within_bounds_is_noop() {
    let b = buf("hi");
    let mut c = cur(1);
    c.clamp(&b);
    assert_eq!(c.offset, 1);
}

#[test]
fn clamp_past_end_snaps_to_len() {
    let b = buf("hi");
    let mut c = cur(100);
    c.clamp(&b);
    assert_eq!(c.offset, 2);
}

#[test]
fn move_down_from_after_wide_char_aligns_by_cells() {
    let b = buf("🥇x\nABCDE");
    let mut c = cur_pc(2, 3);
    c.move_down(&b);
    assert_eq!(c.offset, 6);
    assert_eq!(b.rope().char(c.offset), 'D');
}

#[test]
fn move_down_onto_wide_char_snaps_past_glyph() {
    let b = buf("AB\n🥇C");
    let mut c = cur_pc(1, 1);
    c.move_down(&b);
    assert_eq!(b.rope().char(c.offset), 'C');
}

#[test]
fn move_down_preserves_cell_column_with_snap_past() {
    let b = buf("XYZ\n!\n🥇A");
    let mut c = cur_pc(1, 1);
    c.move_down(&b);
    assert_eq!(c.offset, 5);
    c.move_down(&b);
    assert_eq!(b.rope().char(c.offset), 'A');
}

#[test]
fn move_right_steps_over_zwj_family_as_one_grapheme() {
    let b = buf("👨\u{200D}👩\u{200D}👧\u{200D}👦x");
    let mut c = cur(0);
    c.move_right(&b);
    assert_eq!(c.offset, 7);
    c.move_right(&b);
    assert_eq!(c.offset, 8);
}

#[test]
fn move_left_steps_over_zwj_family_as_one_grapheme() {
    let b = buf("a👨\u{200D}👩\u{200D}👧\u{200D}👦");
    let mut c = cur(8); // EOF
    c.move_left(&b);
    assert_eq!(c.offset, 1); // landed before the family
    c.move_left(&b);
    assert_eq!(c.offset, 0); // before 'a'
}

#[test]
fn move_right_steps_over_combining_mark_as_one_grapheme() {
    let b = buf("e\u{0301}!");
    let mut c = cur(0);
    c.move_right(&b);
    assert_eq!(c.offset, 2);
}

#[test]
fn move_word_right_treats_emoji_as_part_of_word() {
    let b = buf("hi 👨\u{200D}👩\u{200D}👧\u{200D}👦x");
    let mut c = cur(0);
    c.move_word_right(&b);
    assert_eq!(c.offset, 3);
    c.move_word_right(&b);
    assert_eq!(c.offset, 11);
}
