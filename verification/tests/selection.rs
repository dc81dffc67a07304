//! Selections.

use edamame::document::buffer::Buffer;
use edamame::document::selection::Selection;

fn buf(s: &str) -> Buffer {
    Buffer::from_str(s)
}

#[test]
fn new_selection_is_empty() {
    let s = Selection::new(5);
    assert!(s.is_empty());
    assert_eq!(s.range(), (5, 5));
}

#[test]
fn range_forward() {
    let s = Selection {
        anchor: 2,
        active: 7,
    };
    assert_eq!(s.range(), (2, 7));
}

#[test]
fn range_backward() {
    let s = Selection {
        anchor: 7,
        active: 2,
    };
    assert_eq!(s.range(), (2, 7));
}

#[test]
fn selected_text_forward() {
    let b = buf("hello world");
    let s = Selection {
        anchor: 6,
        active: 11,
    };
    assert_eq!(s.selected_text(&b), "world");
}

#[test]
fn selected_text_backward() {
    let b = buf("hello world");
    let s = Selection {
        anchor: 11,
        active: 6,
    };
    assert_eq!(s.selected_text(&b), "world");
}

#[test]
fn selected_text_empty() {
    let b = buf("hello");
    let s = Selection::new(3);
    assert_eq!(s.selected_text(&b), "");
}
