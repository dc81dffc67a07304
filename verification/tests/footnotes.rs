//! Footnotes in the source.

use edamame::editor::link::LinkTarget;
use edamame::editor::mouse_ops::footnotes::footnote_at_offset;

#[test]
fn reference_classifies_as_footnote() {
    let src = "See note.[^1] end\n";
    let byte = src.find("[^1]").unwrap() + 1; // inside the marker
    assert_eq!(
        footnote_at_offset(src, byte),
        Some(LinkTarget::Footnote("1".into()))
    );
}

#[test]
fn definition_marker_classifies_as_back_link() {
    let src = "[^1]: the note text\n";
    assert_eq!(
        footnote_at_offset(src, 0),
        Some(LinkTarget::FootnoteBack("1".into()))
    );
}

#[test]
fn named_label_supported() {
    let src = "ref[^note] here\n";
    let byte = src.find("[^note]").unwrap() + 2;
    assert_eq!(
        footnote_at_offset(src, byte),
        Some(LinkTarget::Footnote("note".into()))
    );
}

#[test]
fn reference_inside_definition_body_resolves_to_that_reference() {
    let src = "[^1]: see [^2] also\n";
    let byte = src.find("[^2]").unwrap() + 1;
    assert_eq!(
        footnote_at_offset(src, byte),
        Some(LinkTarget::Footnote("2".into()))
    );
}

#[test]
fn body_text_is_not_a_footnote() {
    let src = "[^1]: the note text\n";
    let byte = src.find("note").unwrap();
    assert_eq!(footnote_at_offset(src, byte), None);
}

#[test]
fn plain_brackets_are_not_footnotes() {
    let src = "an [array] index\n";
    let byte = src.find("array").unwrap();
    assert_eq!(footnote_at_offset(src, byte), None);
}

#[test]
fn escaped_reference_is_not_a_footnote() {
    let src = r"an \[^1] escaped marker";
    let byte = src.find("[^1]").unwrap() + 1;
    assert_eq!(footnote_at_offset(src, byte), None);
}
