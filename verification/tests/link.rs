//! What a link points to.

use edamame::editor::link::LinkTarget;
use std::path::PathBuf;

fn local(path: &str) -> LinkTarget {
    LinkTarget::LocalFile {
        path: PathBuf::from(path),
        fragment: None,
    }
}

#[test]
fn anchor_hash_fragment_classifies_as_anchor() {
    assert_eq!(
        LinkTarget::parse("#heading", None),
        LinkTarget::Anchor("heading".to_owned())
    );
}

#[test]
fn empty_fragment_is_anchor() {
    assert_eq!(
        LinkTarget::parse("#", None),
        LinkTarget::Anchor(String::new())
    );
}

#[test]
fn https_scheme_classifies_as_url() {
    assert_eq!(
        LinkTarget::parse("https://example.com/page", None),
        LinkTarget::Url("https://example.com/page".to_owned())
    );
}

#[test]
fn mailto_scheme_classifies_as_url() {
    assert_eq!(
        LinkTarget::parse("mailto:a@b.c", None),
        LinkTarget::Url("mailto:a@b.c".to_owned())
    );
}

#[test]
fn file_scheme_classifies_as_local_file() {
    assert_eq!(
        LinkTarget::parse("file:///abs/path.md", None),
        LinkTarget::LocalFile {
            path: PathBuf::from("/abs/path.md"),
            fragment: None,
        }
    );
}

#[test]
fn relative_path_resolves_against_base_dir() {
    let base = PathBuf::from("/home/user/docs");
    assert_eq!(
        LinkTarget::parse("./sibling.md", Some(&base)),
        LinkTarget::LocalFile {
            path: base.join("./sibling.md"),
            fragment: None,
        }
    );
    assert_eq!(
        LinkTarget::parse("../other.md", Some(&base)),
        LinkTarget::LocalFile {
            path: base.join("../other.md"),
            fragment: None,
        }
    );
}

#[test]
fn bare_filename_without_base_stays_relative() {
    assert_eq!(
        LinkTarget::parse("foo.md", None),
        LinkTarget::LocalFile {
            path: PathBuf::from("foo.md"),
            fragment: None,
        }
    );
}

#[test]
fn absolute_path_is_not_rejoined_with_base() {
    let base = PathBuf::from("/home/user/docs");
    assert_eq!(
        LinkTarget::parse("/etc/hosts.md", Some(&base)),
        LinkTarget::LocalFile {
            path: PathBuf::from("/etc/hosts.md"),
            fragment: None,
        }
    );
}

#[test]
fn windows_drive_letter_is_not_a_url_scheme() {
    let classified = LinkTarget::parse("C:/Users/name/doc.md", None);
    assert!(matches!(classified, LinkTarget::LocalFile { .. }));
}

#[test]
fn is_markdown_file_matches_md_and_markdown() {
    let md = local("foo.md");
    let markdown = local("bar.Markdown");
    let other = local("baz.txt");
    assert!(md.is_markdown_file());
    assert!(markdown.is_markdown_file());
    assert!(!other.is_markdown_file());
    assert!(!LinkTarget::Anchor("x".into()).is_markdown_file());
    assert!(!LinkTarget::Url("https://x".into()).is_markdown_file());
}

#[test]
fn markdown_link_with_fragment_splits_path_and_fragment() {
    let base = PathBuf::from("/home/user/docs");
    assert_eq!(
        LinkTarget::parse("editing.md#when-the-file-changes", Some(&base)),
        LinkTarget::LocalFile {
            path: base.join("editing.md"),
            fragment: Some("when-the-file-changes".to_owned()),
        }
    );
}

#[test]
fn empty_trailing_fragment_is_dropped() {
    assert_eq!(LinkTarget::parse("foo.md#", None), local("foo.md"));
}

#[test]
fn fragment_bearing_link_still_reads_as_markdown() {
    assert!(LinkTarget::parse("editing.md#section", None).is_markdown_file());
}

#[test]
fn file_scheme_carries_a_fragment_too() {
    assert_eq!(
        LinkTarget::parse("file:///abs/path.md#intro", None),
        LinkTarget::LocalFile {
            path: PathBuf::from("/abs/path.md"),
            fragment: Some("intro".to_owned()),
        }
    );
}

#[test]
fn remote_url_keeps_its_fragment_inline() {
    assert_eq!(
        LinkTarget::parse("https://example.com/p#frag", None),
        LinkTarget::Url("https://example.com/p#frag".to_owned())
    );
}
