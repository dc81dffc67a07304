//! Base64 for the clipboard.

use edamame::editor::edit_ops::base64::{base64_encode, osc52_sequence};

#[test]
fn base64_encodes_empty() {
    assert_eq!(base64_encode(b""), "");
}

#[test]
fn base64_encodes_one_byte() {
    assert_eq!(base64_encode(b"f"), "Zg==");
}

#[test]
fn base64_encodes_two_bytes() {
    assert_eq!(base64_encode(b"fo"), "Zm8=");
}

#[test]
fn base64_encodes_three_bytes() {
    assert_eq!(base64_encode(b"foo"), "Zm9v");
}

#[test]
fn base64_encodes_rfc4648_vectors() {
    assert_eq!(base64_encode(b"foobar"), "Zm9vYmFy");
    assert_eq!(base64_encode(b"Hello, world!"), "SGVsbG8sIHdvcmxkIQ==");
}

#[test]
fn the_clipboard_sequence_wraps_the_encoded_text() {
    assert_eq!(osc52_sequence("foo"), "\u{1b}]52;c;Zm9v\u{7}");
}
