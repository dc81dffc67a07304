//! Classification of link targets.
//!
//! Nothing here opens or reads anything: a link's text is split into what the
//! application dispatches on.

use crate::document::paths;
use crate::text;
use std::path::{Path, PathBuf};
use vstd::prelude::*;
use vstd::string::*;
use vstd::utf8::*;

verus! {

broadcast use {vstd::utf8::encode_utf8_valid_utf8, vstd::utf8::encode_utf8_decode_utf8};

/// A classified link destination.
#[derive(Debug, PartialEq, Eq)]
pub enum LinkTarget {
    /// Absolute URL, for the system's handler.
    Url(String),
    /// Local file. `fragment` is the part behind `#`, if it is not empty.
    LocalFile { path: PathBuf, fragment: Option<String> },
    /// Heading of the current document: the text behind `#`.
    Anchor(String),
    /// Footnote reference: the label.
    Footnote(String),
    /// Back-link of a footnote definition: the label.
    FootnoteBack(String),
}

impl Clone for LinkTarget {
    fn clone(&self) -> (r: Self)
        ensures
            same_target(r, *self),
    {
        match self {
            LinkTarget::Url(s) => LinkTarget::Url(s.clone()),
            LinkTarget::LocalFile { path, fragment } => LinkTarget::LocalFile {
                path: paths::own_path(paths::borrow_path(path)),
                fragment: match fragment {
                    Some(f) => Some(f.clone()),
                    None => None,
                },
            },
            LinkTarget::Anchor(s) => LinkTarget::Anchor(s.clone()),
            LinkTarget::Footnote(s) => LinkTarget::Footnote(s.clone()),
            LinkTarget::FootnoteBack(s) => LinkTarget::FootnoteBack(s.clone()),
        }
    }
}

/// Two targets hold the same texts and paths.
pub open spec fn same_target(a: LinkTarget, b: LinkTarget) -> bool {
    match (a, b) {
        (LinkTarget::Url(s), LinkTarget::Url(t)) => s@ == t@,
        (
            LinkTarget::LocalFile { path: p, fragment: f },
            LinkTarget::LocalFile { path: q, fragment: g },
        ) => paths::path_buf_bytes(p) == paths::path_buf_bytes(q) && option_bytes(f)
            == option_bytes(g),
        (LinkTarget::Anchor(s), LinkTarget::Anchor(t)) => s@ == t@,
        (LinkTarget::Footnote(s), LinkTarget::Footnote(t)) => s@ == t@,
        (LinkTarget::FootnoteBack(s), LinkTarget::FootnoteBack(t)) => s@ == t@,
        _ => false,
    }
}

/// A link's text, classified, before a path is resolved.
#[derive(Debug, Clone, PartialEq, Eq)]
pub enum LinkClass {
    Anchor(String),
    Url(String),
    /// A `file://` path, which is taken as it is.
    File { path: String, fragment: Option<String> },
    /// A path that is resolved against the document's directory.
    Local { path: String, fragment: Option<String> },
}

/// A classified link over bytes.
pub enum LinkView {
    Anchor(Seq<u8>),
    Url(Seq<u8>),
    File { path: Seq<u8>, fragment: Option<Seq<u8>> },
    Local { path: Seq<u8>, fragment: Option<Seq<u8>> },
}

/// The bytes of an optional text.
pub open spec fn option_bytes(o: Option<String>) -> Option<Seq<u8>> {
    match o {
        Some(s) => Some(encode_utf8(s@)),
        None => None,
    }
}

impl View for LinkClass {
    type V = LinkView;

    open spec fn view(&self) -> LinkView {
        match *self {
            LinkClass::Anchor(s) => LinkView::Anchor(encode_utf8(s@)),
            LinkClass::Url(s) => LinkView::Url(encode_utf8(s@)),
            LinkClass::File { path, fragment } => LinkView::File {
                path: encode_utf8(path@),
                fragment: option_bytes(fragment),
            },
            LinkClass::Local { path, fragment } => LinkView::Local {
                path: encode_utf8(path@),
                fragment: option_bytes(fragment),
            },
        }
    }
}

/// The first index at or after `i` that holds `c`, or the end.
pub open spec fn index_of(b: Seq<u8>, c: u8, i: int) -> int
    decreases b.len() - i,
{
    if 0 <= i < b.len() && b[i] != c {
        index_of(b, c, i + 1)
    } else {
        i
    }
}

/// The bytes of `file://`.
pub open spec fn file_scheme() -> Seq<u8> {
    seq![102u8, 105u8, 108u8, 101u8, 58u8, 47u8, 47u8]
}

/// An ASCII letter.
pub open spec fn is_letter(c: u8) -> bool {
    65 <= c <= 90 || 97 <= c <= 122
}

/// A byte that a scheme may hold behind its first: a letter, a digit, `+`, `-` or
/// `.`.
pub open spec fn is_scheme_byte(c: u8) -> bool {
    is_letter(c) || text::is_digit(c) || c == 43 || c == 45 || c == 46
}

/// `b` begins with a scheme of two characters at least, and a colon. A single
/// letter is a Windows drive.
pub open spec fn scheme_prefixed(b: Seq<u8>) -> bool {
    let c = index_of(b, 58, 0);
    &&& c < b.len()
    &&& c >= 2
    &&& is_letter(b[0])
    &&& forall|i: int| 1 <= i < c ==> is_scheme_byte(#[trigger] b[i])
}

/// The part before the first `#`.
pub open spec fn path_part(b: Seq<u8>) -> Seq<u8> {
    b.take(index_of(b, 35, 0))
}

/// The part behind the first `#`, if it is not empty.
pub open spec fn fragment_part(b: Seq<u8>) -> Option<Seq<u8>> {
    let h = index_of(b, 35, 0);
    if h + 1 < b.len() {
        Some(b.skip(h + 1))
    } else {
        None
    }
}

/// What a link's text says: `#..` is an anchor, `file://..` a path as it is, a
/// scheme makes a URL, and the rest is a path.
pub open spec fn classified(b: Seq<u8>) -> LinkView {
    if b.len() > 0 && b[0] == 35 {
        LinkView::Anchor(b.skip(1))
    } else if b.len() >= 7 && b.take(7) == file_scheme() {
        let rest = b.skip(7);
        LinkView::File { path: path_part(rest), fragment: fragment_part(rest) }
    } else if scheme_prefixed(b) {
        LinkView::Url(b)
    } else {
        LinkView::Local { path: path_part(b), fragment: fragment_part(b) }
    }
}

proof fn lemma_index_of(b: Seq<u8>, c: u8, i: int)
    requires
        0 <= i <= b.len(),
    ensures
        i <= index_of(b, c, i) <= b.len(),
        index_of(b, c, i) < b.len() ==> b[index_of(b, c, i)] == c,
    decreases b.len() - i,
{
    if i < b.len() && b[i] != c {
        lemma_index_of(b, c, i + 1);
    }
}

/// The first index that holds `c`, or the end.
fn find_byte(bytes: &[u8], c: u8) -> (r: usize)
    ensures
        r == index_of(bytes@, c, 0),
        r <= bytes@.len(),
{
    let mut i: usize = 0;
    while i < bytes.len() && bytes[i] != c
        invariant
            i <= bytes@.len(),
            index_of(bytes@, c, i as int) == index_of(bytes@, c, 0),
        decreases bytes@.len() - i,
    {
        i += 1;
    }
    i
}

/// Splits `path#fragment` at the first `#`. An empty fragment is none.
fn split_fragment(url: &str) -> (r: (&str, Option<String>))
    ensures
        r.0.spec_bytes() == path_part(url.spec_bytes()),
        option_bytes(r.1) == fragment_part(url.spec_bytes()),
{
    let bytes = url.as_bytes();
    let ghost b = url.spec_bytes();
    let len: usize = bytes.len();
    let h: usize = find_byte(bytes, 35);
    proof {
        lemma_index_of(b, 35, 0);
        text::lemma_boundary(b, 0);
        text::lemma_boundary(b, h as int);
        text::lemma_boundary(b, len as int);
        if h < len {
            text::lemma_boundary(b, h + 1);
        }
    }
    let path = text::slice(url, 0, h);
    assert(b.subrange(0, h as int) =~= b.take(h as int));
    if h < len && h + 1 < len {
        let fragment = text::slice(url, h + 1, len).to_owned();
        assert(b.subrange(h + 1, len as int) =~= b.skip(h + 1));
        (path, Some(fragment))
    } else {
        (path, None)
    }
}

/// True iff `url` begins with a scheme of two characters at least.
fn has_url_scheme(url: &str) -> (r: bool)
    ensures
        r == scheme_prefixed(url.spec_bytes()),
{
    let bytes = url.as_bytes();
    let c: usize = find_byte(bytes, 58);
    if c >= bytes.len() || c < 2 {
        return false;
    }
    let first: u8 = bytes[0];
    if !((65 <= first && first <= 90) || (97 <= first && first <= 122)) {
        return false;
    }
    let mut i: usize = 1;
    while i < c
        invariant
            1 <= i <= c < bytes@.len(),
            bytes@ == url.spec_bytes(),
            c == index_of(bytes@, 58, 0),
            forall|k: int| 1 <= k < i ==> is_scheme_byte(#[trigger] bytes@[k]),
        decreases c - i,
    {
        let x: u8 = bytes[i];
        let ok: bool = (65 <= x && x <= 90) || (97 <= x && x <= 122) || (48 <= x && x <= 57) || x
            == 43 || x == 45 || x == 46;
        if !ok {
            assert(!is_scheme_byte(bytes@[i as int]));
            return false;
        }
        i += 1;
    }
    true
}

/// True iff `bytes` begin with `file://`.
fn has_file_scheme(bytes: &[u8]) -> (r: bool)
    ensures
        r == (bytes@.len() >= 7 && bytes@.take(7) == file_scheme()),
{
    if bytes.len() < 7 {
        return false;
    }
    let r: bool = bytes[0] == 102 && bytes[1] == 105 && bytes[2] == 108 && bytes[3] == 101
        && bytes[4] == 58 && bytes[5] == 47 && bytes[6] == 47;
    proof {
        let t = bytes@.take(7);
        if r {
            assert(t =~= file_scheme());
        } else if t == file_scheme() {
            assert(t[0] == 102 && t[1] == 105 && t[2] == 108 && t[3] == 101 && t[4] == 58 && t[5]
                == 47 && t[6] == 47);
        }
    }
    r
}

/// Classifies a link's text.
pub fn classify(url: &str) -> (r: LinkClass)
    ensures
        r@ == classified(url.spec_bytes()),
{
    let bytes = url.as_bytes();
    let ghost b = url.spec_bytes();
    let len: usize = bytes.len();
    proof {
        text::lemma_boundary(b, len as int);
    }
    if len > 0 && bytes[0] == 35 {
        proof {
            text::lemma_boundary(b, 1);
            assert(b.subrange(1, len as int) =~= b.skip(1));
        }
        return LinkClass::Anchor(text::slice(url, 1, len).to_owned());
    }
    if has_file_scheme(bytes) {
        proof {
            assert(b.take(7)[6] == b[6]);
            text::lemma_boundary(b, 7);
            assert(b.subrange(7, len as int) =~= b.skip(7));
        }
        let (path, fragment) = split_fragment(text::slice(url, 7, len));
        return LinkClass::File { path: path.to_owned(), fragment };
    }
    if has_url_scheme(url) {
        return LinkClass::Url(url.to_owned());
    }
    let (path, fragment) = split_fragment(url);
    LinkClass::Local { path: path.to_owned(), fragment }
}

/// `PathBuf::from` a text holds the bytes of the text.
#[verifier::external_body]
fn path_from_text(text: &str) -> (r: PathBuf)
    ensures
        paths::path_buf_bytes(r) == text.spec_bytes(),
{
    PathBuf::from(text)
}

/// What `Path::is_absolute` answers for a path with these bytes, on a kind of host.
pub uninterp spec fn absolute_on(host: int, path: Seq<u8>) -> bool;

/// The bytes of what `Path::join` makes of a directory and a path, on a kind of host.
pub uninterp spec fn joined_on(host: int, dir: Seq<u8>, path: Seq<u8>) -> Seq<u8>;

/// What `Path::extension` finds, as text, in a path with these bytes, on a kind of host.
pub uninterp spec fn extension_on(host: int, path: Seq<u8>) -> Option<Seq<char>>;

/// `Path::is_absolute` depends on the path and on the kind of host alone: on some hosts a
/// drive is part of an absolute path. Which host it is, is not stated.
#[verifier::external_body]
fn is_absolute(p: &PathBuf) -> (r: bool)
    ensures
        exists|host: int| r == #[trigger] absolute_on(host, paths::path_buf_bytes(*p)),
{
    p.is_absolute()
}

/// `Path::join` depends on the two paths and on the kind of host alone: hosts differ in
/// what separates the parts of a path. Which host it is, is not stated.
#[verifier::external_body]
fn join_paths(dir: &Path, p: &PathBuf) -> (r: PathBuf)
    ensures
        exists|host: int|
            paths::path_buf_bytes(r) == #[trigger] joined_on(
                host,
                paths::path_bytes(dir),
                paths::path_buf_bytes(*p),
            ),
{
    dir.join(p)
}

/// `Path::extension` as text, if it is text. It depends on the path and on the kind of
/// host alone: hosts differ in what separates the parts of a path. Which host it is, is
/// not stated.
#[verifier::external_body]
fn path_extension(p: &PathBuf) -> (r: Option<String>)
    ensures
        exists|host: int|
            option_chars(r) == #[trigger] extension_on(host, paths::path_buf_bytes(*p)),
{
    p.extension().and_then(|e| e.to_str()).map(|e| e.to_owned())
}

/// The characters of a text, or none.
pub open spec fn option_chars(t: Option<String>) -> Option<Seq<char>> {
    match t {
        Some(s) => Some(s@),
        None => None,
    }
}

/// The path that a link leads to from a document in directory `dir`, or in none: an
/// absolute path as it is, another one from that directory on. `asked` and `joining` are
/// the kinds of host that say what is absolute and how paths are joined.
pub open spec fn resolved_on(
    asked: int,
    joining: int,
    dir: Option<Seq<u8>>,
    path: Seq<u8>,
) -> Seq<u8> {
    match dir {
        Some(d) => if absolute_on(asked, path) {
            path
        } else {
            joined_on(joining, d, path)
        },
        None => path,
    }
}

/// `r` is the path that a link leads to from a document in directory `dir`, or in none,
/// on some kind of host.
pub open spec fn is_resolved(r: Seq<u8>, dir: Option<Seq<u8>>, path: Seq<u8>) -> bool {
    exists|asked: int, joining: int| r == #[trigger] resolved_on(asked, joining, dir, path)
}

/// `t` is the target that the destination `url` names, in a document of directory `dir`,
/// or of none.
pub open spec fn is_target(url: Seq<u8>, dir: Option<Seq<u8>>, t: LinkTarget) -> bool {
    match classified(url) {
        LinkView::Anchor(a) => t matches LinkTarget::Anchor(s) && encode_utf8(s@) == a,
        LinkView::Url(a) => t matches LinkTarget::Url(s) && encode_utf8(s@) == a,
        LinkView::File { path: p, fragment: f } => t matches LinkTarget::LocalFile {
            path,
            fragment,
        } && paths::path_buf_bytes(path) == p && option_bytes(fragment) == f,
        LinkView::Local { path: p, fragment: f } => t matches LinkTarget::LocalFile {
            path,
            fragment,
        } && option_bytes(fragment) == f && is_resolved(paths::path_buf_bytes(path), dir, p),
    }
}

/// The lower case of an ASCII byte.
pub open spec fn lower_byte(c: u8) -> u8 {
    if 65 <= c <= 90 {
        (c + 32) as u8
    } else {
        c
    }
}

/// `b` is `word` but for upper and lower case of ASCII letters.
pub open spec fn same_but_case(b: Seq<u8>, word: Seq<u8>) -> bool {
    b.len() == word.len() && forall|i: int|
        0 <= i < b.len() ==> lower_byte(#[trigger] b[i]) == word[i]
}

/// The bytes of `md`.
pub open spec fn md_word() -> Seq<u8> {
    seq![109u8, 100u8]
}

/// The bytes of `markdown`.
pub open spec fn markdown_word() -> Seq<u8> {
    seq![109u8, 97u8, 114u8, 107u8, 100u8, 111u8, 119u8, 110u8]
}

/// An extension that names a Markdown file: `md` or `markdown`, in upper or lower case.
pub open spec fn markdown_named(ext: Option<Seq<char>>) -> bool {
    match ext {
        Some(e) => same_but_case(encode_utf8(e), md_word()) || same_but_case(
            encode_utf8(e),
            markdown_word(),
        ),
        None => false,
    }
}

fn lower(c: u8) -> (r: u8)
    ensures
        r == lower_byte(c),
{
    if 65 <= c && c <= 90 {
        c + 32
    } else {
        c
    }
}

/// True iff a file extension is that of a Markdown file: `md` or `markdown`, in
/// upper or lower case.
pub fn is_markdown_extension(ext: &str) -> (r: bool)
    ensures
        r == (same_but_case(ext.spec_bytes(), md_word()) || same_but_case(
            ext.spec_bytes(),
            markdown_word(),
        )),
{
    let e = ext.as_bytes();
    if e.len() == 2 {
        lower(e[0]) == 109 && lower(e[1]) == 100
    } else if e.len() == 8 {
        lower(e[0]) == 109 && lower(e[1]) == 97 && lower(e[2]) == 114 && lower(e[3]) == 107
            && lower(e[4]) == 100 && lower(e[5]) == 111 && lower(e[6]) == 119 && lower(e[7]) == 110
    } else {
        false
    }
}

impl LinkTarget {
    /// Classifies `url`, and resolves a relative path against `base_dir`, the
    /// directory of the document.
    ///
    /// What an absolute path is and how paths are joined is up to the kind of host; with
    /// a `file://` URL and without `base_dir` the path is the text as written.
    pub fn parse(url: &str, base_dir: Option<&Path>) -> (r: Self)
        ensures
            is_target(url.spec_bytes(), paths::dir_bytes(base_dir), r),
    {
        match classify(url) {
            LinkClass::Anchor(s) => LinkTarget::Anchor(s),
            LinkClass::Url(s) => LinkTarget::Url(s),
            LinkClass::File { path, fragment } => LinkTarget::LocalFile {
                path: path_from_text(path.as_str()),
                fragment,
            },
            LinkClass::Local { path, fragment } => {
                let p = path_from_text(path.as_str());
                let ghost b = paths::path_buf_bytes(p);
                let ghost dir = paths::dir_bytes(base_dir);
                let absolute: bool = is_absolute(&p);
                let ghost asked = choose|host: int| absolute == #[trigger] absolute_on(host, b);
                let ghost mut joining: int = 0;
                let resolved = if absolute {
                    p
                } else {
                    match base_dir {
                        Some(d) => {
                            let j = join_paths(d, &p);
                            proof {
                                joining = choose|host: int|
                                    paths::path_buf_bytes(j) == #[trigger] joined_on(
                                        host,
                                        paths::path_bytes(d),
                                        b,
                                    );
                            }
                            j
                        },
                        None => p,
                    }
                };
                assert(paths::path_buf_bytes(resolved) == resolved_on(asked, joining, dir, b));
                assert(is_resolved(paths::path_buf_bytes(resolved), dir, b));
                LinkTarget::LocalFile { path: resolved, fragment }
            },
        }
    }

    /// True iff this is a local Markdown file, by its extension.
    pub fn is_markdown_file(&self) -> (r: bool)
        ensures
            match *self {
                LinkTarget::LocalFile { path, .. } => exists|host: int|
                    r == markdown_named(#[trigger] extension_on(host, paths::path_buf_bytes(path))),
                _ => !r,
            },
    {
        match self {
            LinkTarget::LocalFile { path, .. } => {
                let ext = path_extension(path);
                let ghost host = choose|host: int|
                    option_chars(ext) == #[trigger] extension_on(
                        host,
                        paths::path_buf_bytes(*path),
                    );
                let r: bool = match &ext {
                    Some(e) => is_markdown_extension(e.as_str()),
                    None => false,
                };
                assert(r == markdown_named(extension_on(host, paths::path_buf_bytes(*path))));
                r
            },
            _ => false,
        }
    }
}

} // verus!
