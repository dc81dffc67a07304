//! Steps over graphemes.

use edamame::document::buffer::Buffer;
use edamame::document::graphemes::{next_grapheme_offset, prev_grapheme_offset};

fn b(s: &str) -> Buffer {
    Buffer::from_str(s)
}

#[test]
fn next_steps_over_ascii_one_char_at_a_time() {
    let buf = b("hi");
    assert_eq!(next_grapheme_offset(&buf, 0), 1);
    assert_eq!(next_grapheme_offset(&buf, 1), 2);
    assert_eq!(next_grapheme_offset(&buf, 2), 2); // EOF
}

#[test]
fn prev_steps_over_ascii_one_char_at_a_time() {
    let buf = b("hi");
    assert_eq!(prev_grapheme_offset(&buf, 2), 1);
    assert_eq!(prev_grapheme_offset(&buf, 1), 0);
    assert_eq!(prev_grapheme_offset(&buf, 0), 0); // BOF
}

#[test]
fn next_treats_single_codepoint_emoji_as_one_step() {
    let buf = b("🥇");
    assert_eq!(next_grapheme_offset(&buf, 0), 1);
    assert_eq!(prev_grapheme_offset(&buf, 1), 0);
}

#[test]
fn next_treats_zwj_family_as_one_grapheme() {
    let buf = b("👨\u{200D}👩\u{200D}👧\u{200D}👦x");
    assert_eq!(buf.len_chars(), 8);
    assert_eq!(next_grapheme_offset(&buf, 0), 7);
    assert_eq!(prev_grapheme_offset(&buf, 7), 0);
    assert_eq!(next_grapheme_offset(&buf, 7), 8);
}

#[test]
fn next_treats_combining_mark_as_single_grapheme() {
    let buf = b("e\u{0301}!");
    assert_eq!(buf.len_chars(), 3);
    assert_eq!(next_grapheme_offset(&buf, 0), 2);
    assert_eq!(prev_grapheme_offset(&buf, 2), 0);
}

#[test]
fn next_treats_skin_tone_modifier_as_one_grapheme() {
    let buf = b("👍\u{1F3FD}!");
    assert_eq!(next_grapheme_offset(&buf, 0), 2);
    assert_eq!(prev_grapheme_offset(&buf, 2), 0);
}
