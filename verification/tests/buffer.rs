//! Buffers and line endings.

use edamame::document::buffer::{encode_newlines, normalize_newlines, Buffer, LineEnding};
use ropey::Rope;
use std::path::Path;

fn buf(text: &str) -> Buffer {
    Buffer::from_rope(Rope::from_str(text))
}

#[test]
fn byte_slice_to_string_extracts_a_range_and_declines_a_bad_one() {
    let b = buf("héllo wörld");
    assert_eq!(b.byte_slice_to_string(0, 6).as_deref(), Some("héllo"));
    assert_eq!(
        b.byte_slice_to_string(0, b.len_bytes()).as_deref(),
        Some("héllo wörld")
    );
    assert_eq!(b.byte_slice_to_string(2, 6), None);
    assert_eq!(b.byte_slice_to_string(0, b.len_bytes() + 1), None);
}

#[test]
fn new_buffer_is_empty() {
    let b = Buffer::new();
    assert_eq!(b.len_chars(), 0);
    assert_eq!(b.line_count(), 1); // ropey always reports at least one line
}

#[test]
fn insert_and_length() {
    let mut b = Buffer::new();
    b.insert(0, "hello");
    assert_eq!(b.len_chars(), 5);
    assert_eq!(b.contents(), "hello");
}

#[test]
fn insert_char() {
    let mut b = buf("hllo");
    b.insert_char(1, 'e');
    assert_eq!(b.contents(), "hello");
}

#[test]
fn remove_range() {
    let mut b = buf("hello world");
    b.remove(5, 11);
    assert_eq!(b.contents(), "hello");
}

#[test]
fn remove_char_in_bounds() {
    let mut b = buf("hello");
    b.remove_char(2); // remove first 'l'
    assert_eq!(b.contents(), "helo");
}

#[test]
fn remove_char_out_of_bounds_is_noop() {
    let mut b = buf("hi");
    b.remove_char(100); // must not panic
    assert_eq!(b.contents(), "hi");
}

#[test]
fn line_count_and_line() {
    let b = buf("line1\nline2\nline3");
    assert_eq!(b.line_count(), 3);
    assert_eq!(b.line(0).unwrap(), "line1\n");
    assert_eq!(b.line(1).unwrap(), "line2\n");
    assert_eq!(b.line(2).unwrap(), "line3");
    assert!(b.line(3).is_none());
}

#[test]
fn slice_to_string() {
    let b = buf("hello world");
    assert_eq!(b.slice_to_string(6, 11), "world");
}

#[test]
fn line_to_char_and_char_to_line() {
    let b = buf("abc\ndef\nghi");
    assert_eq!(b.line_to_char(0), 0);
    assert_eq!(b.line_to_char(1), 4); // after "abc\n"
    assert_eq!(b.line_to_char(2), 8); // after "abc\ndef\n"
    assert_eq!(b.char_to_line(5), 1); // 'd' is on line 1
}

#[test]
fn detect_classifies_by_first_line_break() {
    assert_eq!(LineEnding::detect("a\r\nb\r\n"), LineEnding::Crlf);
    assert_eq!(LineEnding::detect("a\nb\n"), LineEnding::Lf);
    assert_eq!(LineEnding::detect("a\nb\r\n"), LineEnding::Lf);
    assert_eq!(LineEnding::detect("\r\nx"), LineEnding::Crlf);
    assert_eq!(LineEnding::detect("no newline"), LineEnding::default());
}

#[test]
fn normalize_newlines_strips_only_crlf_pairs() {
    assert_eq!(normalize_newlines("a\r\nb\r\n".to_owned()), "a\nb\n");
    assert_eq!(normalize_newlines("a\nb\n".to_owned()), "a\nb\n");
    assert_eq!(normalize_newlines("a\rb".to_owned()), "a\rb");
}

#[test]
fn encode_newlines_widens_only_for_crlf() {
    assert_eq!(encode_newlines("a\nb\n", LineEnding::Lf), "a\nb\n");
    assert_eq!(encode_newlines("a\nb\n", LineEnding::Crlf), "a\r\nb\r\n");
    let lf = "one\ntwo\nthree";
    let crlf = encode_newlines(lf, LineEnding::Crlf);
    assert_eq!(normalize_newlines(crlf), lf);
}

#[test]
fn from_str_detects_and_normalizes() {
    let buf = Buffer::from_str("x\r\ny\r\n");
    assert_eq!(buf.line_ending(), LineEnding::Crlf);
    assert_eq!(buf.contents(), "x\ny\n");
}

#[test]
fn new_and_empty_buffers_use_the_platform_default() {
    assert_eq!(Buffer::new().line_ending(), LineEnding::default());
    let f = Buffer::for_new_file(Path::new("new.md"));
    assert_eq!(f.line_ending(), LineEnding::default());
}

#[test]
fn reload_carries_the_ending_forward_and_normalizes() {
    let path = Path::new("doc.md");
    let reloaded = Buffer::reload(path, "p\r\nq\r\n", 7, LineEnding::Crlf);
    assert_eq!(reloaded.contents(), "p\nq\n");
    assert_eq!(reloaded.line_ending(), LineEnding::Crlf);
    assert_eq!(reloaded.version(), 8);
}

/// A buffer as it comes from a file with this content.
fn loaded(content: &str) -> Buffer {
    Buffer::loaded(Path::new("doc.md"), content.to_owned())
}

#[test]
fn load_detects_crlf_and_normalizes_rope() {
    let buf = loaded("# Title\r\n\r\nBody\r\n");
    assert_eq!(buf.line_ending(), LineEnding::Crlf);
    assert_eq!(buf.contents(), "# Title\n\nBody\n");
    assert!(!buf.contents().contains('\r'));
    assert_eq!(buf.path(), Some(Path::new("doc.md")));
}

#[test]
fn load_detects_lf() {
    let buf = loaded("# Title\n\nBody\n");
    assert_eq!(buf.line_ending(), LineEnding::Lf);
    assert_eq!(buf.contents(), "# Title\n\nBody\n");
}

#[test]
fn save_reproduces_crlf_on_disk_while_rope_stays_lf() {
    let buf = loaded("one\r\ntwo\r\n");
    assert_eq!(buf.encoded_contents(), "one\r\ntwo\r\n");
    assert_eq!(buf.contents(), "one\ntwo\n");
}

#[test]
fn save_writes_lf_for_an_lf_buffer() {
    let buf = Buffer::from_str("one\ntwo\n");
    assert_eq!(buf.line_ending(), LineEnding::Lf);
    assert_eq!(buf.encoded_contents(), "one\ntwo\n");
}

#[test]
fn crlf_file_round_trips_through_load_and_save() {
    let original = "a\r\nb\r\nc";
    assert_eq!(loaded(original).encoded_contents(), original);
}

#[test]
fn edits_to_a_crlf_buffer_still_save_as_crlf() {
    let mut buf = loaded("a\r\nb\r\n");
    buf.insert(0, "X\n");
    assert_eq!(buf.encoded_contents(), "X\r\na\r\nb\r\n");
}

#[test]
fn every_change_has_a_version_of_its_own() {
    let mut buf = loaded("ab");
    let first = buf.version();
    buf.insert(1, "x");
    let second = buf.version();
    buf.remove(1, 2);
    let third = buf.version();
    assert_ne!(first, second);
    assert_ne!(second, third);
    assert_eq!(buf.contents(), "ab");
}

#[test]
fn a_buffer_takes_another_path_and_line_ending() {
    let mut buf = loaded("a\n");
    buf.set_path(Path::new("other.md"));
    buf.set_line_ending(LineEnding::Crlf);
    assert_eq!(buf.path(), Some(Path::new("other.md")));
    assert_eq!(buf.encoded_contents(), "a\r\n");
    assert_eq!(LineEnding::Crlf.as_str(), "\r\n");
    assert_eq!(LineEnding::of_separator('\\'), LineEnding::Crlf);
    assert_eq!(LineEnding::of_separator('/'), LineEnding::Lf);
    assert_eq!(LineEnding::detect_or("none", LineEnding::Crlf), LineEnding::Crlf);
}

#[test]
fn bytes_and_characters_are_counted_apart() {
    let b = buf("é\nx");
    assert_eq!(b.len_bytes(), 4);
    assert_eq!(b.char_to_byte(1), 2);
    assert_eq!(b.byte_to_char(3), 2);
    assert_eq!(b.byte_to_line(3), 1);
    assert_eq!(b.char_at(0), 'é');
    assert_eq!(b.block_line_to_buffer_line(0, 1), 1);
}
