//! The document's text, its newline convention and its version.

use crate::document::paths;
use crate::document::rope;
use crate::text;
use ropey::Rope;
use std::path::{Path, PathBuf};
use vstd::prelude::*;
use vstd::string::*;
use vstd::utf8::*;

verus! {

/// The newline convention a document uses on disk.
///
/// A buffer keeps pure `\n` line breaks (see [`normalize_newlines`]); this
/// records what the file used, so that a save can reproduce it.
#[derive(Debug, Clone, Copy, PartialEq, Eq, Structural)]
pub enum LineEnding {
    /// Unix `\n`.
    Lf,
    /// Windows `\r\n`.
    Crlf,
}

/// What `std::path::MAIN_SEPARATOR` is on a kind of host.
pub uninterp spec fn separator_on(host: int) -> char;

/// `std::path::MAIN_SEPARATOR`, the host's path separator: `\` on Windows, `/`
/// elsewhere. It depends on the kind of host alone. Which host it is, is not stated.
#[verifier::external_body]
fn main_separator() -> (c: char)
    ensures
        exists|host: int| c == #[trigger] separator_on(host),
{
    std::path::MAIN_SEPARATOR
}

/// The convention of a host with this path separator.
pub open spec fn ending_of(separator: char) -> LineEnding {
    if separator == '\\' {
        LineEnding::Crlf
    } else {
        LineEnding::Lf
    }
}

/// `e` is the convention of the host.
pub open spec fn is_host_ending(e: LineEnding) -> bool {
    exists|host: int| e == ending_of(#[trigger] separator_on(host))
}

/// `e` is the convention of the first line break of `s`, or that of the host where there
/// is none.
pub open spec fn is_ending_of(s: Seq<char>, e: LineEnding) -> bool {
    exists|host: int| e == detected(s, ending_of(#[trigger] separator_on(host)))
}

impl Default for LineEnding {
    /// The host's convention: `Crlf` on Windows, `Lf` everywhere else.
    fn default() -> (r: Self)
        ensures
            is_host_ending(r),
    {
        LineEnding::of_separator(main_separator())
    }
}

/// The first index at or after `i` that holds a line feed.
pub open spec fn first_newline(s: Seq<char>, i: int) -> Option<int>
    decreases s.len() - i,
{
    if 0 <= i < s.len() {
        if s[i] == '\n' {
            Some(i)
        } else {
            first_newline(s, i + 1)
        }
    } else {
        None
    }
}

/// The convention of the first line break of `s`, or `fallback` where there is
/// none.
pub open spec fn detected(s: Seq<char>, fallback: LineEnding) -> LineEnding {
    match first_newline(s, 0) {
        Some(i) => if i > 0 && s[i - 1] == '\r' {
            LineEnding::Crlf
        } else {
            LineEnding::Lf
        },
        None => fallback,
    }
}

impl LineEnding {
    /// The convention of a host with this path separator.
    pub fn of_separator(separator: char) -> (r: Self)
        ensures
            r == ending_of(separator),
    {
        if separator == '\\' {
            LineEnding::Crlf
        } else {
            LineEnding::Lf
        }
    }

    /// Classifies `text` by its first line break; a text without one gets
    /// `fallback`.
    pub fn detect_or(text: &str, fallback: LineEnding) -> (r: Self)
        ensures
            r == detected(text@, fallback),
    {
        let mut it = text.chars();
        let ghost mut n: int = 0;
        let mut after_cr: bool = false;
        loop
            invariant
                0 <= n <= text@.len(),
                vstd::std_specs::iter::IteratorSpec::remaining(&it) == text@.skip(n),
                first_newline(text@, n) == first_newline(text@, 0),
                after_cr == (n > 0 && text@[n - 1] == '\r'),
            decreases text@.len() - n,
        {
            match it.next() {
                None => {
                    return fallback;
                },
                Some(c) => {
                    assert(text@[n] == c);
                    if c == '\n' {
                        return if after_cr {
                            LineEnding::Crlf
                        } else {
                            LineEnding::Lf
                        };
                    }
                    after_cr = c == '\r';
                    proof {
                        assert(text@.skip(n).drop_first() =~= text@.skip(n + 1));
                        n = n + 1;
                    }
                },
            }
        }
    }

    /// Classifies `text` by its first line break; a text without one gets the
    /// host's convention.
    pub fn detect(text: &str) -> (r: Self)
        ensures
            is_ending_of(text@, r),
    {
        Self::detect_or(text, Self::default())
    }

    /// What this convention writes for one line break.
    pub fn as_str(self) -> (r: &'static str)
        ensures
            r@ == line_break_text(self),
    {
        proof {
            reveal_strlit("\n");
            reveal_strlit("\r\n");
        }
        match self {
            LineEnding::Lf => {
                assert("\n"@ =~= line_break_text(self));
                "\n"
            },
            LineEnding::Crlf => {
                assert("\r\n"@ =~= line_break_text(self));
                "\r\n"
            },
        }
    }
}

/// The characters of one line break.
pub open spec fn line_break_text(ending: LineEnding) -> Seq<char> {
    match ending {
        LineEnding::Lf => seq!['\n'],
        LineEnding::Crlf => seq!['\r', '\n'],
    }
}

/// `s` without the carriage returns that stand directly before a line feed.
pub open spec fn normalized(s: Seq<char>) -> Seq<char>
    decreases s.len(),
{
    if s.len() == 0 {
        Seq::empty()
    } else if s[0] == '\r' && s.len() > 1 && s[1] == '\n' {
        normalized(s.drop_first())
    } else {
        seq![s[0]] + normalized(s.drop_first())
    }
}

/// `s` with each line feed written as a line break of `ending`.
pub open spec fn encoded(s: Seq<char>, ending: LineEnding) -> Seq<char>
    decreases s.len(),
{
    if s.len() == 0 {
        Seq::empty()
    } else {
        (if s[0] == '\n' {
            line_break_text(ending)
        } else {
            seq![s[0]]
        }) + encoded(s.drop_first(), ending)
    }
}

/// Collapses each `\r\n` to `\n`. A lone `\r` is left as it is.
pub fn normalize_newlines(text: String) -> (r: String)
    ensures
        r@ == normalized(text@),
{
    let ghost s = text@;
    let mut out: String = String::new();
    let mut it = text.as_str().chars();
    let mut held_cr: bool = false;
    let ghost mut n: int = 0;
    assert(s.skip(0) =~= s);
    assert(out@ + normalized(s) =~= normalized(s));
    loop
        invariant
            s == text@,
            0 <= n <= s.len(),
            held_cr ==> n > 0 && s[n - 1] == '\r',
            vstd::std_specs::iter::IteratorSpec::remaining(&it) == s.skip(n),
            out@ + normalized(
                s.skip(
                    if held_cr {
                        n - 1
                    } else {
                        n
                    },
                ),
            ) == normalized(s),
        decreases s.len() - n,
    {
        let ghost o = out@;
        let ghost held = held_cr;
        let ghost from = if held {
            n - 1
        } else {
            n
        };
        match it.next() {
            None => {
                if held_cr {
                    out.push('\r');
                }
                proof {
                    let rest = s.skip(from);
                    if held {
                        assert(rest.drop_first() =~= Seq::empty());
                        assert(normalized(rest.drop_first()) =~= Seq::empty());
                        assert(normalized(rest) =~= seq!['\r']);
                    }
                    assert(out@ =~= o + normalized(rest));
                }
                return out;
            },
            Some(c) => {
                assert(s[n] == c);
                proof {
                    assert(s.skip(n).drop_first() =~= s.skip(n + 1));
                    if held {
                        assert(s.skip(n - 1).drop_first() =~= s.skip(n));
                    }
                }
                if held_cr && c != '\n' {
                    out.push('\r');
                }
                if c == '\r' {
                    held_cr = true;
                } else {
                    held_cr = false;
                    out.push(c);
                }
                proof {
                    let tail = normalized(s.skip(n + 1));
                    if held && c != '\n' {
                        assert(normalized(s.skip(n - 1)) == seq!['\r'] + normalized(s.skip(n)));
                    }
                    if c != '\r' {
                        assert(normalized(s.skip(n)) == seq![c] + tail);
                    }
                    let emitted = (if held && c != '\n' {
                        seq!['\r']
                    } else {
                        Seq::empty()
                    }) + (if c != '\r' {
                        seq![c]
                    } else {
                        Seq::empty()
                    });
                    assert(out@ =~= o + emitted);
                    let rest = if c == '\r' {
                        normalized(s.skip(n))
                    } else {
                        tail
                    };
                    assert(normalized(s.skip(from)) =~= emitted + rest);
                    assert(out@ + rest =~= o + normalized(s.skip(from)));
                    n = n + 1;
                }
            },
        }
    }
}

/// Expands each `\n` to a line break of `ending`: what a save writes, and what
/// the clipboard is handed.
pub fn encode_newlines(text: &str, ending: LineEnding) -> (r: String)
    ensures
        r@ == encoded(text@, ending),
{
    let ghost s = text@;
    let mut out: String = String::new();
    let mut it = text.chars();
    let ghost mut n: int = 0;
    assert(s.skip(0) =~= s);
    assert(out@ + encoded(s, ending) =~= encoded(s, ending));
    loop
        invariant
            s == text@,
            0 <= n <= s.len(),
            vstd::std_specs::iter::IteratorSpec::remaining(&it) == s.skip(n),
            out@ + encoded(s.skip(n), ending) == encoded(s, ending),
        decreases s.len() - n,
    {
        let ghost o = out@;
        match it.next() {
            None => {
                assert(out@ =~= out@ + Seq::empty());
                return out;
            },
            Some(c) => {
                assert(s[n] == c);
                if c == '\n' && ending == LineEnding::Crlf {
                    out.push('\r');
                }
                out.push(c);
                proof {
                    assert(s.skip(n).drop_first() =~= s.skip(n + 1));
                    let head = if c == '\n' {
                        line_break_text(ending)
                    } else {
                        seq![c]
                    };
                    let rest = encoded(s.skip(n + 1), ending);
                    assert(out@ =~= o + head);
                    assert(o + (head + rest) =~= (o + head) + rest);
                    n = n + 1;
                }
            },
        }
    }
}

/// `s` holds no `\r\n`.
pub open spec fn no_crlf(s: Seq<char>) -> bool {
    forall|i: int, j: int| 0 <= i && j == i + 1 && j < s.len() && #[trigger] s[i] == '\r' ==> #[trigger] s[j] != '\n'
}

/// Every line feed of `s` stands directly behind a carriage return.
pub open spec fn all_crlf(s: Seq<char>) -> bool {
    forall|j: int| 0 <= j < s.len() && #[trigger] s[j] == '\n' ==> j > 0 && s[j - 1] == '\r'
}

/// Reading back what was written with `\r\n` gives the text that was written,
/// whatever it holds.
pub proof fn law_crlf_round_trip(s: Seq<char>)
    ensures
        normalized(encoded(s, LineEnding::Crlf)) == s,
    decreases s.len(),
{
    if s.len() == 0 {
    } else {
        let rest = s.drop_first();
        law_crlf_round_trip(rest);
        let tail = encoded(rest, LineEnding::Crlf);
        let all = encoded(s, LineEnding::Crlf);
        if s[0] == '\n' {
            assert(all.drop_first() =~= seq!['\n'] + tail);
            assert((seq!['\n'] + tail).drop_first() =~= tail);
            assert(all[0] == '\r' && all[1] == '\n');
            assert(normalized(seq!['\n'] + tail) =~= seq!['\n'] + normalized(tail));
        } else {
            assert(all.drop_first() =~= tail);
            if rest.len() > 0 && rest[0] == '\n' {
                assert(tail[0] == '\r');
            } else if rest.len() > 0 {
                assert(tail[0] == rest[0]);
            }
        }
        assert(seq![s[0]] + rest =~= s);
    }
}

/// Reading back what was written with `\n` gives the text that was written, if
/// that holds no `\r\n`.
pub proof fn law_lf_round_trip(s: Seq<char>)
    requires
        no_crlf(s),
    ensures
        normalized(encoded(s, LineEnding::Lf)) == s,
{
    lemma_encoded_lf(s);
    lemma_normalized_unchanged(s);
}

/// Writing with `\n` changes nothing.
pub proof fn lemma_encoded_lf(s: Seq<char>)
    ensures
        encoded(s, LineEnding::Lf) == s,
    decreases s.len(),
{
    if s.len() > 0 {
        lemma_encoded_lf(s.drop_first());
        assert(seq![s[0]] + s.drop_first() =~= s);
    }
}

/// A text without `\r\n` is normalized already.
pub proof fn lemma_normalized_unchanged(s: Seq<char>)
    requires
        no_crlf(s),
    ensures
        normalized(s) == s,
    decreases s.len(),
{
    if s.len() > 0 {
        let rest = s.drop_first();
        assert forall|i: int, j: int|
            0 <= i && j == i + 1 && j < rest.len() && #[trigger] rest[i] == '\r' implies #[trigger] rest[j]
            != '\n' by {
            assert(s[i + 1] == rest[i] && s[j + 1] == rest[j]);
        }
        lemma_normalized_unchanged(rest);
        assert(!(s[0] == '\r' && s.len() > 1 && s[1] == '\n'));
        assert(seq![s[0]] + rest =~= s);
    }
}

/// A save reproduces the file that was loaded, if its line breaks are all
/// `\r\n`.
pub proof fn law_crlf_file_reproduced(file: Seq<char>)
    requires
        all_crlf(file),
    ensures
        encoded(normalized(file), LineEnding::Crlf) == file,
    decreases file.len(),
{
    if file.len() > 0 {
        if file[0] == '\r' && file.len() > 1 && file[1] == '\n' {
            let rest = file.drop_first().drop_first();
            assert forall|j: int| 0 <= j < rest.len() && #[trigger] rest[j] == '\n' implies j > 0
                && rest[j - 1] == '\r' by {
                assert(file[j + 2] == '\n');
                if j == 0 {
                    assert(file[1] == '\r');
                }
            }
            law_crlf_file_reproduced(rest);
            assert(normalized(file.drop_first()) =~= seq!['\n'] + normalized(rest));
            let n = seq!['\n'] + normalized(rest);
            assert(n.drop_first() =~= normalized(rest));
            assert(seq!['\r', '\n'] + rest =~= file);
        } else {
            assert(file[0] != '\n');
            let rest = file.drop_first();
            assert forall|j: int| 0 <= j < rest.len() && #[trigger] rest[j] == '\n' implies j > 0
                && rest[j - 1] == '\r' by {
                assert(file[j + 1] == '\n');
            }
            law_crlf_file_reproduced(rest);
            let n = seq![file[0]] + normalized(rest);
            assert(n.drop_first() =~= normalized(rest));
            assert(seq![file[0]] + rest =~= file);
        }
    }
}

/// A save reproduces the file that was loaded, if it holds no `\r\n`.
pub proof fn law_lf_file_reproduced(file: Seq<char>)
    requires
        no_crlf(file),
    ensures
        encoded(normalized(file), LineEnding::Lf) == file,
{
    lemma_normalized_unchanged(file);
    lemma_encoded_lf(file);
}

/// A text can be written piece by piece: no line break straddles two pieces.
pub proof fn law_encoded_in_pieces(a: Seq<char>, b: Seq<char>, ending: LineEnding)
    ensures
        encoded(a + b, ending) == encoded(a, ending) + encoded(b, ending),
    decreases a.len(),
{
    if a.len() == 0 {
        assert(a + b =~= b);
        assert(encoded(a, ending) + encoded(b, ending) =~= encoded(b, ending));
    } else {
        law_encoded_in_pieces(a.drop_first(), b, ending);
        assert((a + b).drop_first() =~= a.drop_first() + b);
        assert(encoded(a + b, ending) =~= encoded(a, ending) + encoded(b, ending));
    }
}


/// A document's text with its newline convention.
///
/// Positions and lengths are in characters unless a name says bytes. The text
/// keeps pure `\n` line breaks; the convention is what a save writes.
#[derive(Debug)]
pub struct Buffer {
    rope: Rope,
    path: Option<PathBuf>,
    line_ending: LineEnding,
    version: u64,
}

impl View for Buffer {
    type V = Seq<char>;

    closed spec fn view(&self) -> Seq<char> {
        rope::rope_text(self.rope)
    }
}

/// The text with the characters `start..end` replaced by `with`.
pub open spec fn spliced(s: Seq<char>, start: int, end: int, with: Seq<char>) -> Seq<char> {
    s.take(start) + with + s.skip(end)
}

impl Buffer {
    /// The bytes of the associated path.
    pub closed spec fn path_view(&self) -> Option<Seq<u8>> {
        match self.path {
            Some(p) => Some(paths::path_buf_bytes(p)),
            None => None,
        }
    }

    /// The newline convention.
    pub closed spec fn ending(&self) -> LineEnding {
        self.line_ending
    }

    /// The version counter.
    pub closed spec fn version_view(&self) -> u64 {
        self.version
    }

    /// Everything but the text and the version is as it was.
    pub open spec fn same_file(&self, other: &Buffer) -> bool {
        &&& self.path_view() == other.path_view()
        &&& self.ending() == other.ending()
    }

    /// An empty buffer with no associated file.
    pub fn new() -> (r: Self)
        ensures
            r@ == Seq::<char>::empty(),
            r.path_view() is None,
            r.version_view() == 0,
            is_host_ending(r.ending()),
    {
        Buffer {
            rope: rope::rope_new(),
            path: None,
            line_ending: LineEnding::default(),
            version: 0,
        }
    }

    /// A buffer with `text` and no associated file. The convention is that of
    /// the text's first line break.
    pub fn from_str(text: &str) -> (r: Self)
        ensures
            r@ == normalized(text@),
            r.path_view() is None,
            r.version_view() == 0,
            is_ending_of(text@, r.ending()),
    {
        let line_ending = LineEnding::detect(text);
        let normalized = normalize_newlines(text.to_owned());
        Buffer { rope: rope::rope_from_str(normalized.as_str()), path: None, line_ending, version: 0 }
    }

    /// A buffer around a rope, with no associated file.
    pub fn from_rope(rope: Rope) -> (r: Self)
        ensures
            r@ == rope::rope_text(rope),
            r.path_view() is None,
            r.version_view() == 0,
            is_host_ending(r.ending()),
    {
        Buffer { rope, path: None, line_ending: LineEnding::default(), version: 0 }
    }

    /// The buffer of a file whose contents were read from `path`.
    pub fn loaded(path: &Path, content: String) -> (r: Self)
        ensures
            r@ == normalized(content@),
            r.path_view() == Some(paths::path_bytes(path)),
            r.version_view() == 0,
            is_ending_of(content@, r.ending()),
    {
        let line_ending = LineEnding::detect(content.as_str());
        let normalized = normalize_newlines(content);
        Buffer {
            rope: rope::rope_from_str(normalized.as_str()),
            path: Some(paths::own_path(path)),
            line_ending,
            version: 0,
        }
    }

    /// An empty buffer for a file that does not exist yet.
    pub fn for_new_file(path: &Path) -> (r: Self)
        ensures
            r@ == Seq::<char>::empty(),
            r.path_view() == Some(paths::path_bytes(path)),
            r.version_view() == 0,
            is_host_ending(r.ending()),
    {
        Buffer {
            rope: rope::rope_new(),
            path: Some(paths::own_path(path)),
            line_ending: LineEnding::default(),
            version: 0,
        }
    }

    /// A buffer rebuilt from a fresh read of its file. Its version follows
    /// `previous_version`, and it keeps the given convention.
    pub fn reload(path: &Path, contents: &str, previous_version: u64, line_ending: LineEnding) -> (r:
        Self)
        ensures
            r@ == normalized(contents@),
            r.path_view() == Some(paths::path_bytes(path)),
            r.ending() == line_ending,
            r.version_view() == previous_version.wrapping_add(1),
    {
        let normalized = normalize_newlines(contents.to_owned());
        Buffer {
            rope: rope::rope_from_str(normalized.as_str()),
            path: Some(paths::own_path(path)),
            line_ending,
            version: previous_version.wrapping_add(1),
        }
    }

    /// What a save writes: the text with the buffer's line breaks.
    pub fn encoded_contents(&self) -> (r: String)
        ensures
            r@ == encoded(self@, self.ending()),
    {
        let contents = self.contents();
        encode_newlines(contents.as_str(), self.line_ending)
    }

    /// Takes `path` as the associated path, as a save to a new path does.
    pub fn set_path(&mut self, path: &Path)
        ensures
            final(self).path_view() == Some(paths::path_bytes(path)),
            final(self)@ == old(self)@,
            final(self).ending() == old(self).ending(),
            final(self).version_view() == old(self).version_view(),
    {
        self.path = Some(paths::own_path(path));
    }

    /// The associated path, if any.
    pub fn path(&self) -> (r: Option<&Path>)
        ensures
            match r {
                Some(p) => self.path_view() == Some(paths::path_bytes(p)),
                None => self.path_view() is None,
            },
    {
        match &self.path {
            Some(p) => Some(paths::borrow_path(p)),
            None => None,
        }
    }

    /// The newline convention that a save writes.
    pub fn line_ending(&self) -> (r: LineEnding)
        ensures
            r == self.ending(),
    {
        self.line_ending
    }

    /// Sets the newline convention of later saves.
    pub fn set_line_ending(&mut self, line_ending: LineEnding)
        ensures
            final(self).ending() == line_ending,
            final(self)@ == old(self)@,
            final(self).path_view() == old(self).path_view(),
            final(self).version_view() == old(self).version_view(),
    {
        self.line_ending = line_ending;
    }

    /// The number of characters.
    pub fn len_chars(&self) -> (n: usize)
        ensures
            n == self@.len(),
    {
        rope::rope_len_chars(&self.rope)
    }

    /// The number of bytes.
    pub fn len_bytes(&self) -> (n: usize)
        ensures
            n == encode_utf8(self@).len(),
    {
        rope::rope_len_bytes(&self.rope)
    }

    /// The number of lines, with an empty last one behind a final line break.
    pub fn line_count(&self) -> (n: usize)
        ensures
            n == rope::line_total(self@),
            n >= 1,
    {
        rope::rope_len_lines(&self.rope)
    }

    /// Line `idx` with its line break, counted from 0; `None` past the last.
    pub fn line(&self, idx: usize) -> (r: Option<String>)
        ensures
            match r {
                Some(s) => idx < rope::line_total(self@) && s@ == self@.subrange(
                    rope::line_begin(self@, idx as int),
                    rope::line_begin(self@, idx + 1),
                ),
                None => idx >= rope::line_total(self@),
            },
    {
        if idx >= rope::rope_len_lines(&self.rope) {
            return None;
        }
        Some(rope::rope_line(&self.rope, idx))
    }

    /// The whole text.
    pub fn contents(&self) -> (r: String)
        ensures
            r@ == self@,
    {
        rope::rope_to_string(&self.rope)
    }

    /// The rope, for reading.
    pub fn rope(&self) -> (r: &Rope)
        ensures
            rope::rope_text(*r) == self@,
    {
        &self.rope
    }

    /// Where line `line_idx` begins.
    pub fn line_to_char(&self, line_idx: usize) -> (i: usize)
        requires
            line_idx <= rope::line_total(self@),
        ensures
            i == rope::line_begin(self@, line_idx as int),
            i <= self@.len(),
    {
        proof {
            rope::lemma_line_begin(self@, line_idx as int);
        }
        rope::rope_line_to_char(&self.rope, line_idx)
    }

    /// The line that holds character `char_idx`.
    pub fn char_to_line(&self, char_idx: usize) -> (n: usize)
        requires
            char_idx <= self@.len(),
        ensures
            n == rope::lines_before(self@, char_idx as int),
            n < rope::line_total(self@),
    {
        proof {
            rope::lemma_line_of(self@, char_idx as int);
        }
        rope::rope_char_to_line(&self.rope, char_idx)
    }

    /// The character that holds byte `byte_idx`.
    pub fn byte_to_char(&self, byte_idx: usize) -> (i: usize)
        requires
            byte_idx <= encode_utf8(self@).len(),
        ensures
            i == rope::char_of_byte(self@, byte_idx as int),
            rope::char_holds_byte(self@, i as int, byte_idx as int),
            i <= self@.len(),
    {
        let i: usize = rope::rope_byte_to_char(&self.rope, byte_idx);
        proof {
            rope::lemma_char_of_byte(self@, i as int, byte_idx as int);
        }
        i
    }

    /// The number of bytes before character `char_idx`.
    pub fn char_to_byte(&self, char_idx: usize) -> (n: usize)
        requires
            char_idx <= self@.len(),
        ensures
            n == rope::byte_offset(self@, char_idx as int),
    {
        rope::rope_char_to_byte(&self.rope, char_idx)
    }

    /// The line that holds byte `byte_idx`.
    pub fn byte_to_line(&self, byte_idx: usize) -> (n: usize)
        requires
            byte_idx <= encode_utf8(self@).len(),
        ensures
            n == rope::lines_before(self@, rope::char_of_byte(self@, byte_idx as int)),
            n < rope::line_total(self@),
    {
        let c: usize = self.byte_to_char(byte_idx);
        self.char_to_line(c)
    }

    /// The buffer line of the line `raw_line_idx` of a block that begins at byte
    /// `block_byte_start`.
    pub fn block_line_to_buffer_line(&self, block_byte_start: usize, raw_line_idx: usize) -> (n:
        usize)
        requires
            block_byte_start <= encode_utf8(self@).len(),
            rope::line_total(self@) + raw_line_idx <= usize::MAX,
        ensures
            n == rope::lines_before(self@, rope::char_of_byte(self@, block_byte_start as int))
                + raw_line_idx,
    {
        self.byte_to_line(block_byte_start) + raw_line_idx
    }

    /// The version counter, which changes with every change of the text.
    pub fn version(&self) -> (n: u64)
        ensures
            n == self.version_view(),
    {
        self.version
    }

    /// The character at `char_idx`.
    pub fn char_at(&self, char_idx: usize) -> (c: char)
        requires
            char_idx < self@.len(),
        ensures
            c == self@[char_idx as int],
    {
        rope::rope_char(&self.rope, char_idx)
    }

    /// Puts `text` in at `char_idx`.
    pub fn insert(&mut self, char_idx: usize, text: &str)
        requires
            char_idx <= old(self)@.len(),
        ensures
            final(self)@ == spliced(old(self)@, char_idx as int, char_idx as int, text@),
            final(self).version_view() == old(self).version_view().wrapping_add(1),
            final(self).same_file(old(self)),
    {
        rope::rope_insert(&mut self.rope, char_idx, text);
        self.version = self.version.wrapping_add(1);
    }

    /// Puts one character in at `char_idx`.
    pub fn insert_char(&mut self, char_idx: usize, ch: char)
        requires
            char_idx <= old(self)@.len(),
        ensures
            final(self)@ == old(self)@.insert(char_idx as int, ch),
            final(self).version_view() == old(self).version_view().wrapping_add(1),
            final(self).same_file(old(self)),
    {
        rope::rope_insert_char(&mut self.rope, char_idx, ch);
        self.version = self.version.wrapping_add(1);
    }

    /// Takes the characters `start..end` out.
    pub fn remove(&mut self, start: usize, end: usize)
        requires
            start <= end <= old(self)@.len(),
        ensures
            final(self)@ == spliced(old(self)@, start as int, end as int, Seq::empty()),
            final(self).version_view() == old(self).version_view().wrapping_add(1),
            final(self).same_file(old(self)),
    {
        rope::rope_remove(&mut self.rope, start, end);
        self.version = self.version.wrapping_add(1);
        assert(self@ =~= spliced(old(self)@, start as int, end as int, Seq::empty()));
    }

    /// Takes the character at `char_idx` out, if there is one.
    pub fn remove_char(&mut self, char_idx: usize)
        ensures
            char_idx < old(self)@.len() ==> final(self)@ == old(self)@.remove(char_idx as int)
                && final(self).version_view() == old(self).version_view().wrapping_add(1),
            char_idx >= old(self)@.len() ==> *final(self) == *old(self),
            final(self).same_file(old(self)),
    {
        if char_idx < rope::rope_len_chars(&self.rope) {
            rope::rope_remove(&mut self.rope, char_idx, char_idx + 1);
            self.version = self.version.wrapping_add(1);
            assert(self@ =~= old(self)@.remove(char_idx as int));
        }
    }

    /// The characters `start..end`.
    pub fn slice_to_string(&self, start: usize, end: usize) -> (r: String)
        requires
            start <= end <= self@.len(),
        ensures
            r@ == self@.subrange(start as int, end as int),
    {
        rope::rope_slice(&self.rope, start, end)
    }

    /// The bytes `start..end`; `None` where that is no range of the text or cuts
    /// a character.
    pub fn byte_slice_to_string(&self, start: usize, end: usize) -> (r: Option<String>)
        ensures
            r is Some <==> text::sliceable(encode_utf8(self@), start as int, end as int),
            r matches Some(s) ==> encode_utf8(s@) == encode_utf8(self@).subrange(
                start as int,
                end as int,
            ),
    {
        rope::rope_byte_slice(&self.rope, start, end)
    }

    /// Replaces the text as a whole and keeps the path.
    pub fn set_rope(&mut self, rope: Rope)
        ensures
            final(self)@ == rope::rope_text(rope),
            final(self).version_view() == old(self).version_view().wrapping_add(1),
            final(self).same_file(old(self)),
    {
        self.rope = rope;
        self.version = self.version.wrapping_add(1);
    }
}

impl Clone for Buffer {
    fn clone(&self) -> (r: Self)
        ensures
            r@ == self@,
            r.same_file(self),
            r.version_view() == self.version_view(),
    {
        let path: Option<PathBuf> = match &self.path {
            Some(p) => Some(paths::own_path(paths::borrow_path(p))),
            None => None,
        };
        Buffer {
            rope: rope::rope_clone(&self.rope),
            path,
            line_ending: self.line_ending,
            version: self.version,
        }
    }
}

impl Default for Buffer {
    fn default() -> (r: Self)
        ensures
            r@ == Seq::<char>::empty(),
            r.path_view() is None,
            r.version_view() == 0,
            is_host_ending(r.ending()),
    {
        Self::new()
    }
}

} // verus!
