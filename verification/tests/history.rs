//! Edits and their history.

use edamame::document::buffer::Buffer;
use edamame::document::history::{EditDelta, History};

fn buf(s: &str) -> Buffer {
    Buffer::from_str(s)
}

#[test]
fn diff_of_identical_strings_is_none() {
    assert_eq!(EditDelta::diff("same", "same"), None);
    assert_eq!(EditDelta::diff("", ""), None);
}

#[test]
fn diff_trims_to_the_changed_span() {
    let d = EditDelta::diff("abcXYZdef", "abcQdef").expect("differs");
    assert_eq!(d.offset, 3);
    assert_eq!(d.removed, "XYZ");
    assert_eq!(d.inserted, "Q");
}

#[test]
fn diff_of_a_pure_insertion_removes_nothing() {
    let d = EditDelta::diff("ac", "abc").expect("differs");
    assert_eq!(d.offset, 1);
    assert_eq!(d.removed, "");
    assert_eq!(d.inserted, "b");
}

#[test]
fn diff_of_a_pure_deletion_inserts_nothing() {
    let d = EditDelta::diff("abc", "ac").expect("differs");
    assert_eq!(d.offset, 1);
    assert_eq!(d.removed, "b");
    assert_eq!(d.inserted, "");
}

#[test]
fn diff_against_an_empty_string_spans_everything() {
    let d = EditDelta::diff("abc", "").expect("differs");
    assert_eq!(d.offset, 0);
    assert_eq!(d.removed, "abc");
    assert_eq!(d.inserted, "");

    let d = EditDelta::diff("", "abc").expect("differs");
    assert_eq!(d.offset, 0);
    assert_eq!(d.removed, "");
    assert_eq!(d.inserted, "abc");
}

#[test]
fn diff_offsets_are_bytes_not_chars() {
    let d = EditDelta::diff("ééa", "ééb").expect("differs");
    assert_eq!(d.offset, 4);
    assert_eq!(d.removed, "a");
    assert_eq!(d.inserted, "b");
}

#[test]
fn diff_never_splits_a_multibyte_char() {
    let d = EditDelta::diff("😀", "🙀").expect("differs");
    assert_eq!(d.offset, 0);
    assert_eq!(d.removed, "😀");
    assert_eq!(d.inserted, "🙀");

    let d = EditDelta::diff("xéy", "xèy").expect("differs");
    assert_eq!(d.offset, 1);
    assert_eq!(d.removed, "é");
    assert_eq!(d.inserted, "è");
}

#[test]
fn apply_to_string_replaces_the_delta_span() {
    let d = EditDelta {
        offset: 3,
        removed: "XYZ".into(),
        inserted: "Q".into(),
    };
    assert_eq!(d.apply_to_string("abcXYZdef"), "abcQdef");
}

#[test]
fn diff_and_apply_to_string_round_trip() {
    let pairs = [
        ("", "a"),
        ("a", ""),
        ("hello", "hello world"),
        ("| a | b |\n| 1 | 2 |\n", "| b | a |\n| 2 | 1 |\n"),
        ("A[^2] B[^1]\n", "A[^1] B[^2]\n"),
        ("héllo wörld", "héllo wörld!"),
        ("😀😀😀", "😀🙀😀"),
        ("漢字", "字漢"),
        ("a\nb\nc\n", "c\nb\na\n"),
    ];
    for (old, new) in pairs {
        let d = EditDelta::diff(old, new).expect("pairs differ");
        assert!(
            old.is_char_boundary(d.offset),
            "offset {} splits a char in {old:?}",
            d.offset
        );
        assert_eq!(d.apply_to_string(old), new, "{old:?} -> {new:?}");
    }
}

#[test]
fn undo_empty_stack_returns_none() {
    let mut h = History::new();
    let mut b = buf("hello");
    assert!(h.undo(&mut b).is_none());
    assert_eq!(b.contents(), "hello"); // unchanged
}

#[test]
fn redo_empty_stack_returns_none() {
    let mut h = History::new();
    let mut b = buf("hello");
    assert!(h.redo(&mut b).is_none());
    assert_eq!(b.contents(), "hello");
}

#[test]
fn undo_insertion() {
    let mut h = History::new();
    let mut b = buf("hello");
    b.insert(5, "!");
    h.record(EditDelta {
        offset: 5,
        removed: String::new(),
        inserted: "!".into(),
    });
    assert_eq!(b.contents(), "hello!");

    let cursor = h.undo(&mut b).unwrap();
    assert_eq!(b.contents(), "hello");
    assert_eq!(cursor, 5); // undo_cursor = offset + removed.len = 5 + 0 = 5
}

#[test]
fn undo_deletion() {
    let mut h = History::new();
    let mut b = buf("hello!");
    b.remove(5, 6);
    h.record(EditDelta {
        offset: 5,
        removed: "!".into(),
        inserted: String::new(),
    });
    assert_eq!(b.contents(), "hello");

    let cursor = h.undo(&mut b).unwrap();
    assert_eq!(b.contents(), "hello!");
    assert_eq!(cursor, 6); // undo_cursor = 5 + 1 = 6
}

#[test]
fn redo_after_undo() {
    let mut h = History::new();
    let mut b = buf("hello");
    b.insert(5, "!");
    h.record(EditDelta {
        offset: 5,
        removed: String::new(),
        inserted: "!".into(),
    });

    h.undo(&mut b).unwrap();
    assert_eq!(b.contents(), "hello");

    let cursor = h.redo(&mut b).unwrap();
    assert_eq!(b.contents(), "hello!");
    assert_eq!(cursor, 6); // redo_cursor = 5 + 1 = 6
}

#[test]
fn record_clears_redo_stack() {
    let mut h = History::new();
    let mut b = buf("hello");
    b.insert(5, "!");
    h.record(EditDelta {
        offset: 5,
        removed: String::new(),
        inserted: "!".into(),
    });

    h.undo(&mut b).unwrap(); // redo stack now has one entry
    assert!(h.can_redo());

    b.insert(0, "X");
    h.record(EditDelta {
        offset: 0,
        removed: String::new(),
        inserted: "X".into(),
    });
    assert!(!h.can_redo());
}

#[test]
fn multiple_undo_redo_non_contiguous() {
    let mut h = History::new();
    h.record(EditDelta {
        offset: 0,
        removed: "".into(),
        inserted: "a".into(),
    });
    h.record(EditDelta {
        offset: 5,
        removed: "".into(),
        inserted: "!".into(),
    });
    h.record(EditDelta {
        offset: 10,
        removed: "".into(),
        inserted: "b".into(),
    });
    assert_eq!(h.undo_depth(), 3);
}

#[test]
fn undo_depth_tracks_stack() {
    let mut h = History::new();
    assert_eq!(h.undo_depth(), 0);
    h.record(EditDelta {
        offset: 0,
        removed: "".into(),
        inserted: "x".into(),
    });
    assert_eq!(h.undo_depth(), 1);
    h.record(EditDelta {
        offset: 1,
        removed: "".into(),
        inserted: "y".into(),
    });
    assert_eq!(h.undo_depth(), 1);
}

#[test]
fn typing_word_creates_one_undo_entry() {
    let mut h = History::new();
    h.record(EditDelta {
        offset: 0,
        removed: "".into(),
        inserted: "c".into(),
    });
    h.record(EditDelta {
        offset: 1,
        removed: "".into(),
        inserted: "a".into(),
    });
    h.record(EditDelta {
        offset: 2,
        removed: "".into(),
        inserted: "t".into(),
    });
    assert_eq!(h.undo_depth(), 1);

    let mut b = buf("cat");
    let cursor = h.undo(&mut b).unwrap();
    assert_eq!(b.contents(), "");
    assert_eq!(cursor, 0);
}

#[test]
fn space_merges_into_contiguous_group() {
    let mut h = History::new();
    h.record(EditDelta {
        offset: 0,
        removed: "".into(),
        inserted: "c".into(),
    });
    h.record(EditDelta {
        offset: 1,
        removed: "".into(),
        inserted: "a".into(),
    });
    h.record(EditDelta {
        offset: 2,
        removed: "".into(),
        inserted: " ".into(),
    });
    h.record(EditDelta {
        offset: 3,
        removed: "".into(),
        inserted: "d".into(),
    });
    assert_eq!(h.undo_depth(), 1);
}

#[test]
fn non_adjacent_insert_breaks_group() {
    let mut h = History::new();
    h.record(EditDelta {
        offset: 0,
        removed: "".into(),
        inserted: "a".into(),
    });
    h.record(EditDelta {
        offset: 10,
        removed: "".into(),
        inserted: "b".into(),
    });
    assert_eq!(h.undo_depth(), 2);
}

#[test]
fn contiguous_inserts_merge_regardless_of_length() {
    let mut h = History::new();
    h.record(EditDelta {
        offset: 0,
        removed: "".into(),
        inserted: "hi".into(),
    });
    h.record(EditDelta {
        offset: 2,
        removed: "".into(),
        inserted: "foo".into(),
    });
    assert_eq!(h.undo_depth(), 1);
}

#[test]
fn deletion_does_not_merge_with_insert() {
    let mut h = History::new();
    h.record(EditDelta {
        offset: 0,
        removed: "".into(),
        inserted: "a".into(),
    });
    h.record(EditDelta {
        offset: 0,
        removed: "a".into(),
        inserted: "".into(),
    });
    assert_eq!(h.undo_depth(), 2);
}

#[test]
fn backspacing_word_creates_one_undo_entry() {
    let mut h = History::new();
    h.record(EditDelta {
        offset: 2,
        removed: "t".into(),
        inserted: "".into(),
    });
    h.record(EditDelta {
        offset: 1,
        removed: "a".into(),
        inserted: "".into(),
    });
    h.record(EditDelta {
        offset: 0,
        removed: "c".into(),
        inserted: "".into(),
    });
    assert_eq!(h.undo_depth(), 1);

    let mut b = buf("");
    let cursor = h.undo(&mut b).unwrap();
    assert_eq!(b.contents(), "cat");
    assert_eq!(cursor, 3);
}

#[test]
fn forward_deleting_word_creates_one_undo_entry() {
    let mut h = History::new();
    h.record(EditDelta {
        offset: 0,
        removed: "c".into(),
        inserted: "".into(),
    });
    h.record(EditDelta {
        offset: 0,
        removed: "a".into(),
        inserted: "".into(),
    });
    h.record(EditDelta {
        offset: 0,
        removed: "t".into(),
        inserted: "".into(),
    });
    assert_eq!(h.undo_depth(), 1);

    let mut b = buf("");
    h.undo(&mut b).unwrap();
    assert_eq!(b.contents(), "cat");
}

#[test]
fn backspace_merges_across_character_classes() {
    let mut h = History::new();
    h.record(EditDelta {
        offset: 3,
        removed: "d".into(),
        inserted: "".into(),
    });
    h.record(EditDelta {
        offset: 2,
        removed: " ".into(),
        inserted: "".into(),
    });
    h.record(EditDelta {
        offset: 1,
        removed: "a".into(),
        inserted: "".into(),
    });
    h.record(EditDelta {
        offset: 0,
        removed: "c".into(),
        inserted: "".into(),
    });
    assert_eq!(h.undo_depth(), 1);
}

#[test]
fn forward_delete_merges_across_character_classes() {
    let mut h = History::new();
    h.record(EditDelta {
        offset: 0,
        removed: "c".into(),
        inserted: "".into(),
    });
    h.record(EditDelta {
        offset: 0,
        removed: "a".into(),
        inserted: "".into(),
    });
    h.record(EditDelta {
        offset: 0,
        removed: " ".into(),
        inserted: "".into(),
    });
    h.record(EditDelta {
        offset: 0,
        removed: "d".into(),
        inserted: "".into(),
    });
    assert_eq!(h.undo_depth(), 1);
}

#[test]
fn non_contiguous_delete_breaks_group() {
    let mut h = History::new();
    h.record(EditDelta {
        offset: 5,
        removed: "a".into(),
        inserted: "".into(),
    });
    h.record(EditDelta {
        offset: 0,
        removed: "b".into(),
        inserted: "".into(),
    });
    assert_eq!(h.undo_depth(), 2);
}

#[test]
fn multi_char_delete_does_not_merge() {
    let mut h = History::new();
    h.record(EditDelta {
        offset: 0,
        removed: "hello".into(),
        inserted: "".into(),
    });
    h.record(EditDelta {
        offset: 0,
        removed: "x".into(),
        inserted: "".into(),
    });
    assert_eq!(h.undo_depth(), 1);
}

#[test]
fn undo_of_backspace_group_restores_all_at_once() {
    let mut h = History::new();
    let mut b = buf("hello");
    for (offset, ch) in [(4, 'o'), (3, 'l'), (2, 'l'), (1, 'e'), (0, 'h')] {
        b.remove(offset, offset + 1);
        h.record(EditDelta {
            offset,
            removed: ch.to_string(),
            inserted: "".into(),
        });
    }
    assert_eq!(b.contents(), "");
    assert_eq!(h.undo_depth(), 1);

    h.undo(&mut b).unwrap();
    assert_eq!(b.contents(), "hello");

    h.redo(&mut b).unwrap();
    assert_eq!(b.contents(), "");
}

#[test]
fn reset_with_seeds_single_merge_revert_entry() {
    let mut h = History::new();
    h.record(EditDelta {
        offset: 0,
        removed: "".into(),
        inserted: "junk".into(),
    });
    let mut b = buf("junk");
    let _ = h.undo(&mut b); // leave a redo entry around too

    h.reset_with(EditDelta {
        offset: 0,
        removed: "old".into(),
        inserted: "merged".into(),
    });
    assert_eq!(h.undo_depth(), 1, "exactly one undo step after reset_with");
    assert!(!h.can_redo(), "redo stack cleared by reset_with");

    let mut b = buf("merged");
    h.undo(&mut b).unwrap();
    assert_eq!(b.contents(), "old");
    h.redo(&mut b).unwrap();
    assert_eq!(b.contents(), "merged");
}

#[test]
fn undo_of_word_group_restores_all_at_once() {
    let mut h = History::new();
    let mut b = buf("");
    b.insert(0, "h");
    h.record(EditDelta {
        offset: 0,
        removed: "".into(),
        inserted: "h".into(),
    });
    b.insert(1, "e");
    h.record(EditDelta {
        offset: 1,
        removed: "".into(),
        inserted: "e".into(),
    });
    b.insert(2, "l");
    h.record(EditDelta {
        offset: 2,
        removed: "".into(),
        inserted: "l".into(),
    });
    b.insert(3, "l");
    h.record(EditDelta {
        offset: 3,
        removed: "".into(),
        inserted: "l".into(),
    });
    b.insert(4, "o");
    h.record(EditDelta {
        offset: 4,
        removed: "".into(),
        inserted: "o".into(),
    });
    assert_eq!(b.contents(), "hello");
    assert_eq!(h.undo_depth(), 1);

    h.undo(&mut b).unwrap();
    assert_eq!(b.contents(), "");

    h.redo(&mut b).unwrap();
    assert_eq!(b.contents(), "hello");
}
