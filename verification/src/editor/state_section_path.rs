//! The headings that a place of the document is under.

use crate::document::parsed_doc::{Block, ParsedDoc};
use crate::document::rope;
use crate::document::visual_cache;
use crate::editor::state;
use crate::editor::state::{EditorState, EditorView};
use vstd::prelude::*;

verus! {

/// The level and the text of a heading.
pub struct HeadingView {
    pub level: int,
    pub text: Seq<char>,
}

/// The headings among the blocks from `i` on, up to the first that begins below
/// line `anchor` of `s`.
pub open spec fn headings_from(doc: ParsedDoc, s: Seq<char>, i: int, anchor: int) -> Seq<
    HeadingView,
>
    decreases doc.blocks@.len() - i,
{
    if i < 0 || i >= doc.blocks@.len() {
        Seq::empty()
    } else {
        match doc.blocks@[i] {
            Block::Heading { level, text } => if i < doc.real_ranges@.len() {
                if rope::lines_before(
                    s,
                    state::char_at_byte(s, doc.real_ranges@[i].start as int),
                ) > anchor {
                    Seq::empty()
                } else {
                    seq![HeadingView { level: level as int, text: text@ }] + headings_from(
                        doc,
                        s,
                        i + 1,
                        anchor,
                    )
                }
            } else {
                headings_from(doc, s, i + 1, anchor)
            },
            _ => headings_from(doc, s, i + 1, anchor),
        }
    }
}

/// The last of the first `n` headings that is shallower than `level`, behind those
/// that it is itself under. The outermost level ends the chain.
pub open spec fn ancestors(h: Seq<HeadingView>, n: int, level: int) -> Seq<Seq<char>>
    decreases n,
{
    if n <= 0 {
        Seq::empty()
    } else if h[n - 1].level < level {
        if h[n - 1].level == 1 {
            seq![h[n - 1].text]
        } else {
            ancestors(h, n - 1, h[n - 1].level).push(h[n - 1].text)
        }
    } else {
        ancestors(h, n - 1, level)
    }
}

/// A level below every heading's.
pub open spec fn deepest() -> int {
    256
}

impl EditorView {
    /// The headings that line `anchor` is under, the outermost first.
    pub open spec fn section_chain(self, anchor: int) -> Seq<Seq<char>> {
        let h = headings_from(self.parsed, self.text, 0, anchor);
        ancestors(h, h.len() as int, deepest())
    }

    /// The rendered line at the top of the view: the one that holds the first visual row
    /// on the screen.
    pub open spec fn top_rendered_line(self) -> int {
        visual_cache::line_holding_row(
            self.parsed.rows_at(self.settings.viewport_width)->0,
            self.scroll as int,
            0,
        ).0
    }

    /// The line of the source that is at the top of the view.
    pub open spec fn top_line(self) -> int {
        let map = self.parsed.source_map;
        let n = map.lines().len() as int;
        let last = if n > 0 {
            n - 1
        } else {
            0
        };
        let line = state::least(self.top_rendered_line(), last);
        if line < n && map.lines()[line] < map.original().len() {
            rope::lines_before(
                self.text,
                state::char_at_byte(
                    self.text,
                    map.original()[map.lines()[line] as int].start as int,
                ),
            ) as int
        } else {
            0
        }
    }
}

/// Texts as values.
pub open spec fn texts(v: Seq<String>) -> Seq<Seq<char>> {
    v.map_values(|s: String| s@)
}

/// A heading as a value.
struct Heading {
    level: u8,
    text: String,
}

spec fn heading_views(v: Seq<Heading>) -> Seq<HeadingView> {
    v.map_values(|h: Heading| HeadingView { level: h.level as int, text: h.text@ })
}

/// `v` the other way round.
spec fn reversed(v: Seq<Seq<char>>) -> Seq<Seq<char>> {
    Seq::new(v.len(), |i: int| v[v.len() - 1 - i])
}

/// The chain of ancestors among all headings of `h`.
fn collect_ancestors(h: &Vec<Heading>) -> (r: Vec<String>)
    ensures
        texts(r@) == ancestors(heading_views(h@), h@.len() as int, deepest()),
{
    let ghost hv = heading_views(h@);
    let ghost all = ancestors(hv, h@.len() as int, deepest());
    let mut back: Vec<String> = Vec::new();
    let mut n: usize = h.len();
    let mut level: usize = 256;
    let mut done: bool = false;
    assert(all + reversed(texts(back@)) =~= all);
    while n > 0 && !done
        invariant
            hv == heading_views(h@),
            n <= h@.len(),
            done ==> all == reversed(texts(back@)),
            !done ==> all == ancestors(hv, n as int, level as int) + reversed(texts(back@)),
        decreases n,
    {
        let ghost before = texts(back@);
        let item = &h[n - 1];
        assert(hv[n - 1] == HeadingView { level: item.level as int, text: item.text@ });
        if (item.level as usize) < level {
            back.push(item.text.clone());
            level = item.level as usize;
            proof {
                let t = item.text@;
                assert(texts(back@) =~= before.push(t));
                assert(reversed(texts(back@)) =~= seq![t] + reversed(before));
                let rest = ancestors(hv, n - 1, level as int);
                assert(rest.push(t) + reversed(before) =~= rest + (seq![t] + reversed(before)));
            }
            if level == 1 {
                done = true;
            }
        }
        n -= 1;
    }
    assert(all =~= reversed(texts(back@)));
    let mut out: Vec<String> = Vec::new();
    let ghost total = texts(back@);
    assert(texts(out@) + reversed(total) =~= all);
    while back.len() > 0
        invariant
            texts(out@) + reversed(texts(back@)) == all,
        decreases back@.len(),
    {
        let ghost out0 = texts(out@);
        let ghost back0 = texts(back@);
        let t = back.pop();
        match t {
            Some(x) => {
                proof {
                    assert(back0.last() == x@);
                    assert(texts(back@) =~= back0.drop_last());
                    assert(reversed(back0) =~= seq![x@] + reversed(texts(back@)));
                    assert(out0 + (seq![x@] + reversed(texts(back@))) =~= out0.push(x@) + reversed(
                        texts(back@),
                    ));
                }
                out.push(x);
                assert(texts(out@) =~= out0.push(x@));
            },
            None => {},
        }
    }
    assert(texts(out@) + reversed(texts(back@)) =~= texts(out@));
    out
}

impl EditorState {
    /// The headings that line `anchor_line` is under, the outermost first.
    fn section_chain_for_buffer_line(&self, anchor_line: usize) -> (r: Vec<String>)
        requires
            self.wf(),
        ensures
            texts(r@) == self@.section_chain(anchor_line as int),
    {
        let doc = self.parsed();
        let ghost s = self@.text;
        let mut found: Vec<Heading> = Vec::new();
        let ghost all = headings_from(*doc, s, 0, anchor_line as int);
        let mut i: usize = 0;
        let mut done: bool = false;
        assert(heading_views(found@) + all =~= all);
        while i < doc.blocks.len() && !done
            invariant
                s == self@.text,
                i <= doc.blocks@.len(),
                done ==> heading_views(found@) == all,
                !done ==> heading_views(found@) + headings_from(
                    *doc,
                    s,
                    i as int,
                    anchor_line as int,
                ) == all,
            decreases doc.blocks@.len() - i,
        {
            let ghost before = heading_views(found@);
            match &doc.blocks[i] {
                Block::Heading { level, text } => {
                    if i < doc.real_ranges.len() {
                        let c: usize = self.char_at_byte(doc.real_ranges[i].start);
                        let line: usize = self.buffer().char_to_line(c);
                        if line > anchor_line {
                            done = true;
                            assert(before + Seq::<HeadingView>::empty() =~= before);
                        } else {
                            found.push(Heading { level: *level, text: text.clone() });
                            proof {
                                let h = HeadingView { level: *level as int, text: text@ };
                                let rest = headings_from(*doc, s, i + 1, anchor_line as int);
                                assert(heading_views(found@) =~= before.push(h));
                                assert(before + (seq![h] + rest) =~= before.push(h) + rest);
                            }
                        }
                    }
                },
                _ => {},
            }
            i += 1;
        }
        assert(heading_views(found@) + Seq::<HeadingView>::empty() =~= heading_views(found@));
        collect_ancestors(&found)
    }

    /// The headings that the cursor is under, the outermost first: the last heading
    /// at or above its line, and each one that this is itself under.
    pub fn cursor_section_chain(&self) -> (r: Vec<String>)
        requires
            self.wf(),
        ensures
            texts(r@) == self@.section_chain(
                rope::lines_before(self@.text, self@.cursor.offset as int) as int,
            ),
    {
        let line: usize = self.buffer().char_to_line(self.cursor().offset);
        self.section_chain_for_buffer_line(line)
    }

    /// The headings that the top of the view is under. A scroll position past the
    /// last line counts as the last line. The rows of the document are known at the
    /// width of the view.
    pub fn scroll_section_chain(&self) -> (r: Vec<String>)
        requires
            self.wf(),
            self@.parsed.rows_at(self@.settings.viewport_width) is Some,
        ensures
            texts(r@) == self@.section_chain(self@.top_line()),
    {
        let map = &self.parsed().source_map;
        let n: usize = map.rendered_line_count();
        let last: usize = if n > 0 {
            n - 1
        } else {
            0
        };
        let f = self.facts();
        let (top, _) = self.parsed().line_at_visual_row(f.scroll, f.settings.viewport_width);
        let rendered: usize = if top <= last {
            top
        } else {
            last
        };
        let line: usize = match map.original_byte_for_rendered_line(rendered) {
            Some(byte) => {
                let c: usize = self.char_at_byte(byte);
                self.buffer().char_to_line(c)
            },
            None => 0,
        };
        self.section_chain_for_buffer_line(line)
    }
}

} // verus!
