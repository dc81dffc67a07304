//! Links in the source.

use edamame::editor::mouse_ops::links::link_at_offset;

#[test]
fn link_at_offset_detects_markdown_link() {
    let src = "See [the docs](https://example.com) for more.\n";
    assert_eq!(
        link_at_offset(src, 8),
        Some("https://example.com".to_owned())
    );
    assert_eq!(
        link_at_offset(src, 20),
        Some("https://example.com".to_owned())
    );
}

#[test]
fn link_at_offset_returns_none_outside_link() {
    let src = "See [the docs](https://example.com) for more.\n";
    assert_eq!(link_at_offset(src, 40), None);
    assert_eq!(link_at_offset(src, 1), None);
}

#[test]
fn link_at_offset_ignores_escaped_bracket() {
    let src = r"See \[the docs](https://example.com) for more.";
    assert_eq!(link_at_offset(src, 9), None);
    let live = r"See \\[the docs](https://example.com) end";
    assert_eq!(
        link_at_offset(live, 9),
        Some("https://example.com".to_owned())
    );
}

#[test]
fn link_at_offset_handles_nested_brackets() {
    let src = "[one [nested] two](https://ex.com)\n";
    assert_eq!(link_at_offset(src, 7), Some("https://ex.com".to_owned()));
}
