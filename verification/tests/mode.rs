//! Modes.

use edamame::editor::mode::Mode;

#[test]
fn mode_display() {
    assert_eq!(Mode::Preview.label(), "PREVIEW");
    assert_eq!(Mode::Rendered.label(), "EDIT");
    assert_eq!(Mode::Raw.label(), "RAW");
}

#[test]
fn mode_default_is_preview() {
    assert_eq!(Mode::default(), Mode::Preview);
}

#[test]
fn a_review_has_a_label_of_its_own() {
    assert_eq!(Mode::Diff.label(), "DIFF");
}
