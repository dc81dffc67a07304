//! Documents put together from parsed and rendered blocks.

use edamame::document::parsed_doc::{
    apply_live_table_widths, content_end_of_block, detect_setext, gfm_slug,
    merge_trailing_tui_columns_comments, settle_blocks, uniquify_slug, Block, DiagramSource,
    ParsedDoc, RenderedLine, SetextKind, Span, SpanStyle,
};
use edamame::document::text_map::TextMap;
use std::ops::Range;

fn line(text: &str) -> RenderedLine {
    RenderedLine { spans: vec![Span { content: text.to_owned(), style: SpanStyle::Plain }] }
}

fn heading(level: u8, text: &str) -> Block {
    Block::Heading { level, text: text.to_owned() }
}

/// A document of the given blocks, each with its source and its rendered lines.
fn doc(source: &str, parts: Vec<(Block, &str, Vec<&str>)>, preserve: bool) -> ParsedDoc {
    let mut blocks: Vec<Block> = Vec::new();
    let mut ranges: Vec<Range<usize>> = Vec::new();
    let mut lines: Vec<RenderedLine> = Vec::new();
    let mut counts: Vec<usize> = Vec::new();
    let mut from = 0;
    for (block, piece, shown) in parts {
        let start = from + source[from..].find(piece).expect("the block's source");
        from = start + piece.len();
        blocks.push(block);
        ranges.push(start..from);
        counts.push(shown.len());
        for text in shown {
            lines.push(line(text));
        }
    }
    ParsedDoc::build(source, blocks, ranges, lines, counts, preserve)
}

fn two_paragraphs() -> ParsedDoc {
    doc(
        "First\n\nSecond\n",
        vec![
            (Block::Paragraph, "First\n", vec!["First"]),
            (Block::Paragraph, "Second\n", vec!["Second"]),
        ],
        true,
    )
}

#[test]
fn build_single_paragraph() {
    let doc = doc("Hello world\n", vec![(Block::Paragraph, "Hello world\n", vec!["Hello world"])], false);
    assert!(!doc.lines.is_empty());
    assert!(doc.source_map.block_count() >= 1);
}

#[test]
fn build_heading_and_paragraph() {
    let src = "# Heading\n\nParagraph text\n";
    let doc = doc(
        src,
        vec![
            (heading(1, "Heading"), "# Heading\n", vec!["Heading"]),
            (Block::Paragraph, "Paragraph text\n", vec!["Paragraph text"]),
        ],
        false,
    );
    assert!(doc.line_count() >= 2);
    let heading_range = doc.source_map.rendered_lines_for_byte(2);
    assert!(!heading_range.is_empty());
    let para_range = doc.source_map.rendered_lines_for_byte(src.len() - 3);
    assert!(!para_range.is_empty());
}

#[test]
fn every_byte_maps_to_some_line() {
    let src = "# Hello\n\nWorld\n\n---\n";
    let doc = doc(
        src,
        vec![
            (heading(1, "Hello"), "# Hello\n", vec!["Hello"]),
            (Block::Paragraph, "World\n", vec!["World"]),
            (Block::HorizontalRule, "---\n", vec!["---"]),
        ],
        false,
    );
    for b in 0..src.len() {
        let range = doc.source_map.rendered_lines_for_byte(b);
        assert!(
            !range.is_empty(),
            "byte {} ('{:?}') did not map to any rendered line",
            b,
            src.as_bytes().get(b)
        );
    }
}

#[test]
fn empty_doc_builds_without_panic() {
    let doc = doc("", vec![], false);
    assert_eq!(doc.line_count(), 0);
}

#[test]
fn detect_setext_recognises_h1_and_h2() {
    assert_eq!(detect_setext("Title\n=====\n"), Some(SetextKind::H1));
    assert_eq!(detect_setext("Title\n-----\n"), Some(SetextKind::H2));
}

#[test]
fn detect_setext_rejects_atx() {
    assert_eq!(detect_setext("# Title\n"), None);
    assert_eq!(detect_setext("## Title\n"), None);
}

#[test]
fn detect_setext_requires_underline() {
    assert_eq!(detect_setext("Only one line"), None);
    assert_eq!(detect_setext("Title\nbody\n"), None);
}

#[test]
fn image_paragraph_promotes_and_reserves_rows() {
    let src = "Above.\n\n![cat](local.png)\n\nBelow.\n";
    let image = Block::ImageBlock {
        alt: "cat".to_owned(),
        url: "local.png".to_owned(),
        diagram: None,
    };
    let doc = doc(
        src,
        vec![
            (Block::Paragraph, "Above.\n", vec!["Above."]),
            (image, "![cat](local.png)\n", vec![""; 10]),
            (Block::Paragraph, "Below.\n", vec!["Below."]),
        ],
        true,
    );
    let image_byte = src.find('!').expect("image exists");
    let image_block = doc.source_map.block_for_byte(image_byte).unwrap();
    assert_eq!(doc.block_own_line_count(image_block), 10);
    assert!(doc.is_image_block(image_block));
    assert!(!doc.is_mermaid_block(image_block));
    assert_eq!(doc.image_blocks.len(), 1);
    assert_eq!(doc.image_blocks[0].block_idx, image_block);
    assert_eq!(doc.image_blocks[0].url, "local.png");
    assert_eq!(doc.image_blocks[0].alt, "cat");
}

#[test]
fn setext_h2_has_two_rendered_lines() {
    let src = "Heading\n-------\n";
    let doc = doc(src, vec![(heading(2, "Heading"), src, vec!["Heading"])], false);
    let block = doc.source_map.block_for_byte(0).unwrap();
    assert_eq!(doc.block_own_line_count(block), 2);
    assert_eq!(doc.lines[1].text(), "\u{2500}".repeat(80));
}

#[test]
fn setext_h1_has_two_rendered_lines() {
    let src = "Heading\n=======\n";
    let doc = doc(src, vec![(heading(1, "Heading"), src, vec!["Heading", ""])], false);
    let block = doc.source_map.block_for_byte(0).unwrap();
    assert_eq!(doc.block_own_line_count(block), 2);
}

#[test]
fn blank_line_is_its_own_block() {
    let doc = two_paragraphs();
    let first_block = doc.source_map.block_for_byte(2);
    let blank_block = doc.source_map.block_for_byte(6);
    let second_block = doc.source_map.block_for_byte(9);
    assert!(first_block.is_some() && blank_block.is_some() && second_block.is_some());
    assert_ne!(
        first_block, blank_block,
        "blank line must not share a block with preceding paragraph"
    );
    assert_ne!(
        blank_block, second_block,
        "blank line must not share a block with following paragraph"
    );
}

#[test]
fn multiple_blank_lines_each_own_block() {
    let src = "A\n\n\n\nB\n";
    let doc = doc(
        src,
        vec![(Block::Paragraph, "A\n", vec!["A"]), (Block::Paragraph, "B\n", vec!["B"])],
        true,
    );
    let b2 = doc.source_map.block_for_byte(2).unwrap();
    let b3 = doc.source_map.block_for_byte(3).unwrap();
    let b4 = doc.source_map.block_for_byte(4).unwrap();
    assert_ne!(b2, b3);
    assert_ne!(b3, b4);
    assert_eq!(doc.line_count(), 5);
}

#[test]
fn only_the_first_blank_line_is_shown_where_they_are_collapsed() {
    let src = "A\n\n\n\nB\n";
    let doc = doc(
        src,
        vec![(Block::Paragraph, "A\n", vec!["A"]), (Block::Paragraph, "B\n", vec!["B"])],
        false,
    );
    let texts: Vec<String> = doc.lines.iter().map(|l| l.text()).collect();
    assert_eq!(texts, ["A", "", "B"]);
    assert_eq!(doc.block_own_line_count(doc.source_map.block_for_byte(2).unwrap()), 1);
    assert_eq!(doc.block_own_line_count(doc.source_map.block_for_byte(3).unwrap()), 0);
}

#[test]
fn blank_line_rendered_range_is_blank_line() {
    let doc = two_paragraphs();
    let first_range = doc.source_map.rendered_lines_for_byte(2);
    let blank_range = doc.source_map.rendered_lines_for_byte(6);
    let second_range = doc.source_map.rendered_lines_for_byte(9);
    assert!(!first_range.is_empty());
    assert!(!blank_range.is_empty());
    assert!(!second_range.is_empty());
    assert!(first_range.end <= blank_range.start);
    assert!(blank_range.end <= second_range.start);
    for idx in blank_range.clone() {
        let text = doc.lines[idx].text();
        assert!(
            text.is_empty(),
            "expected blank rendered line at index {idx}, got {text:?}"
        );
    }
}

/// A table, and the comment below it that names the widths of its columns.
fn table_and_comment(src: &str, widths: (usize, usize)) -> (Vec<Block>, Vec<Range<usize>>) {
    let comment = src.find("<!--").expect("the comment");
    (
        vec![
            Block::Table { user_widths: None },
            Block::HtmlComment { column_widths: Some(vec![Some(widths.0), Some(widths.1)]) },
        ],
        vec![0..comment, comment..src.len()],
    )
}

/// The rows of blocks, drawn from their source: those of a table within its borders and
/// with the widths of its columns on top, without a comment that belongs to it.
fn draw(src: &str, blocks: &[Block], ranges: &[Range<usize>]) -> (Vec<RenderedLine>, Vec<usize>) {
    let mut rows: Vec<RenderedLine> = Vec::new();
    let mut counts: Vec<usize> = Vec::new();
    for (block, range) in blocks.iter().zip(ranges) {
        let from = rows.len();
        let lines = src[range.clone()].lines();
        match block {
            Block::Table { user_widths } => {
                rows.push(line(&format!("{user_widths:?}")));
                rows.extend(lines.filter(|l| l.starts_with('|')).map(line));
                rows.push(line("end"));
            }
            _ => rows.extend(lines.map(line)),
        }
        counts.push(rows.len() - from);
    }
    (rows, counts)
}

/// A table with its comment, as it is shown with these live widths.
fn shown_table(
    src: &str,
    widths: (usize, usize),
    live: Option<&(usize, Vec<Option<usize>>)>,
) -> ParsedDoc {
    let (blocks, ranges) = table_and_comment(src, widths);
    let (blocks, ranges) = settle_blocks(blocks, ranges, live);
    let (rows, counts) = draw(src, &blocks, &ranges);
    ParsedDoc::build(src, blocks, ranges, rows, counts, true)
}

#[test]
fn tui_columns_still_absorbed_through_parsed_doc() {
    let src = "| a | b |\n|---|---|\n| 1 | 2 |\n<!-- tui-columns: [10, 20] -->\n";
    let doc = shown_table(src, (10, 20), None);
    assert!(matches!(
        doc.blocks.first(),
        Some(Block::Table { user_widths: Some(_) })
    ));
    assert!(
        !doc.blocks.iter().any(|b| matches!(b, Block::HtmlComment { .. })),
        "comment should have been absorbed"
    );
}

#[test]
fn live_widths_preview_still_hides_trailing_tui_columns_comment() {
    let src = "| a | b |\n|---|---|\n| 1 | 2 |\n<!-- tui-columns: [5, 6] -->\n";
    let live = (0usize, vec![Some(7), None]);
    let doc = shown_table(src, (5, 6), Some(&live));
    for line in &doc.lines {
        let text = line.text();
        assert!(
            !text.contains("tui-columns"),
            "comment leaked into rendered output: {text:?}"
        );
    }
    assert_eq!(doc.lines[0].text(), "Some([Some(7), None])");
    assert_eq!(doc.real_ranges, vec![0..src.len()]);
}

#[test]
fn live_widths_that_come_before_the_comment_would_show_it() {
    let src = "| a | b |\n|---|---|\n| 1 | 2 |\n<!-- tui-columns: [5, 6] -->\n";
    let (mut blocks, ranges) = table_and_comment(src, (5, 6));
    apply_live_table_widths(&mut blocks, &ranges, 0, &vec![Some(7), None]);
    let (blocks, ranges) = merge_trailing_tui_columns_comments(blocks, ranges);
    let (rows, _) = draw(src, &blocks, &ranges);
    assert!(rows.iter().any(|l| l.text().contains("tui-columns")));
}

#[test]
fn a_drag_of_widths_changes_widths_alone() {
    let src = "| a | b |\n|---|---|\n| 1 | 2 |\n<!-- tui-columns: [5, 6] -->\n";
    let live = (0usize, vec![Some(7), None]);
    let elsewhere = (9usize, vec![Some(7), None]);
    let rest = shown_table(src, (5, 6), None);
    let during = shown_table(src, (5, 6), Some(&live));
    let other = shown_table(src, (5, 6), Some(&elsewhere));
    assert_eq!(during.real_ranges, rest.real_ranges);
    assert_eq!(during.line_count(), rest.line_count());
    assert_eq!(rest.lines[0].text(), "Some([Some(5), Some(6)])");
    assert_eq!(other.blocks, rest.blocks);
}

#[test]
fn live_widths_are_those_of_one_table() {
    let mut blocks =
        vec![Block::Table { user_widths: None }, Block::Table { user_widths: None }];
    apply_live_table_widths(&mut blocks, &vec![0..30, 40..70], 40, &vec![Some(3)]);
    match (&blocks[0], &blocks[1]) {
        (Block::Table { user_widths: first }, Block::Table { user_widths: second }) => {
            assert_eq!(*first, None);
            assert_eq!(*second, Some(vec![Some(3)]));
        }
        _ => panic!("the tables are gone"),
    }
}

#[test]
fn gfm_slug_basic_cases() {
    assert_eq!(gfm_slug("Hello, World!"), "hello-world");
    assert_eq!(gfm_slug("Foo"), "foo");
    assert_eq!(gfm_slug("  spaces   here  "), "-spaces-here-");
    assert_eq!(gfm_slug("α β γ"), "--");
    assert_eq!(gfm_slug("API v2 — Release Notes"), "api-v2--release-notes");
    assert_eq!(gfm_slug("Hello World"), "hello-world");
}

#[test]
fn uniquify_slug_appends_suffix_on_collision() {
    let mut counts = TextMap::new();
    assert_eq!(uniquify_slug("foo", &mut counts), "foo");
    assert_eq!(uniquify_slug("foo", &mut counts), "foo-1");
    assert_eq!(uniquify_slug("foo", &mut counts), "foo-2");
    assert_eq!(uniquify_slug("bar", &mut counts), "bar");
}

#[test]
fn a_slug_that_was_given_out_is_not_given_out_again() {
    let mut counts = TextMap::new();
    assert_eq!(uniquify_slug("foo-1", &mut counts), "foo-1");
    assert_eq!(uniquify_slug("foo", &mut counts), "foo");
    assert_eq!(uniquify_slug("foo", &mut counts), "foo-2");
    assert_eq!(uniquify_slug("foo", &mut counts), "foo-3");
    assert_eq!(uniquify_slug("foo-1", &mut counts), "foo-1-1");
    assert_eq!(uniquify_slug("foo-2", &mut counts), "foo-2-1");
}

#[test]
fn every_heading_keeps_an_anchor_of_its_own() {
    let doc = doc(
        "# Foo\n\n# Foo\n\n# Foo 1\n",
        vec![
            (heading(1, "Foo"), "# Foo\n", vec!["Foo"]),
            (heading(1, "Foo"), "# Foo\n", vec!["Foo"]),
            (heading(1, "Foo 1"), "# Foo 1\n", vec!["Foo 1"]),
        ],
        true,
    );
    assert_eq!(doc.heading_anchors.get("foo"), Some(0));
    assert_eq!(doc.heading_anchors.get("foo-1"), Some(2));
    assert_eq!(doc.heading_anchors.get("foo-1-1"), Some(4));
}

#[test]
fn diagrams_and_formulas_are_told_apart() {
    let image = |url: &str, diagram: Option<DiagramSource>| Block::ImageBlock {
        alt: String::new(),
        url: url.to_owned(),
        diagram,
    };
    let mermaid = Some(DiagramSource::Mermaid("graph".to_owned()));
    let latex = Some(DiagramSource::Latex("x".to_owned()));
    let doc = doc(
        "```mermaid\ngraph\n```\n$$\nx\n$$\n![a](b)\n",
        vec![
            (image("m", mermaid), "```mermaid\ngraph\n```\n", vec!["", ""]),
            (image("l", latex), "$$\nx\n$$\n", vec!["", ""]),
            (image("b", None), "![a](b)\n", vec!["", ""]),
        ],
        true,
    );
    let kinds = |i: usize| {
        (doc.is_mermaid_block(i), doc.is_latex_block(i), doc.is_diagram_reveal_block(i))
    };
    assert_eq!(kinds(0), (true, false, true));
    assert_eq!(kinds(1), (false, true, true));
    assert_eq!(kinds(2), (false, false, false));
    assert!(doc.is_image_block(2));
}

fn two_headings() -> ParsedDoc {
    doc(
        "# First\n\nPara.\n\n## Second Heading\n\nMore.\n",
        vec![
            (heading(1, "First"), "# First\n", vec!["First"]),
            (Block::Paragraph, "Para.\n", vec!["Para."]),
            (heading(2, "Second Heading"), "## Second Heading\n", vec!["Second Heading"]),
            (Block::Paragraph, "More.\n", vec!["More."]),
        ],
        true,
    )
}

#[test]
fn heading_anchors_has_one_entry_per_heading() {
    let doc = two_headings();
    assert!(doc.heading_anchors.get("first").is_some());
    assert!(doc.heading_anchors.get("second-heading").is_some());
    assert!(doc.heading_anchors.get("para").is_none());
    let doc2 = two_headings();
    assert_eq!(doc.heading_anchors.get("first"), doc2.heading_anchors.get("first"));
    assert_eq!(
        doc.heading_anchors.get("second-heading"),
        doc2.heading_anchors.get("second-heading")
    );
}

#[test]
fn heading_anchors_uniquify_on_collision() {
    let doc = doc(
        "# Foo\n\n## Foo\n\n### Foo\n",
        vec![
            (heading(1, "Foo"), "# Foo\n", vec!["Foo"]),
            (heading(2, "Foo"), "## Foo\n", vec!["Foo"]),
            (heading(3, "Foo"), "### Foo\n", vec!["Foo"]),
        ],
        true,
    );
    assert!(doc.heading_anchors.get("foo").is_some());
    assert!(doc.heading_anchors.get("foo-1").is_some());
    assert!(doc.heading_anchors.get("foo-2").is_some());
    assert_eq!(doc.heading_anchors.get("foo-1"), Some(2));
}

#[test]
fn footnote_anchors_map_label_to_definition_line() {
    let doc = doc(
        "Intro.[^1]\n\nMiddle.\n\n[^1]: The note.\n",
        vec![
            (Block::Paragraph, "Intro.[^1]\n", vec!["Intro.1"]),
            (Block::Paragraph, "Middle.\n", vec!["Middle."]),
            (
                Block::FootnoteDefinition { label: "1".to_owned() },
                "[^1]: The note.\n",
                vec!["  1.  The note."],
            ),
        ],
        true,
    );
    let line = doc
        .footnote_anchors
        .get("1")
        .expect("footnote_anchors should contain label '1'");
    let rendered = doc.lines[line].text();
    assert!(
        rendered.contains("The note."),
        "anchor line should be the definition, got: {rendered:?}"
    );
}

#[test]
fn heading_anchor_indexes_point_to_rendered_heading_line() {
    let src = "Intro paragraph.\n\n# Target\n\nBody.\n";
    let doc = doc(
        src,
        vec![
            (Block::Paragraph, "Intro paragraph.\n", vec!["Intro paragraph."]),
            (heading(1, "Target"), "# Target\n", vec!["Target"]),
            (Block::Paragraph, "Body.\n", vec!["Body."]),
        ],
        true,
    );
    let idx = doc.heading_anchors.get("target").expect("heading anchor present");
    let target_byte = src.find("Target").unwrap();
    let heading_lines = doc.source_map.rendered_lines_for_byte(target_byte);
    assert!(
        heading_lines.contains(&idx),
        "anchor {} points to line {} but heading spans {:?}",
        "target",
        idx,
        heading_lines
    );
}

fn rows_at(doc: &ParsedDoc, width: usize) -> Vec<usize> {
    doc.lines.iter().map(|l| l.text().chars().count().div_ceil(width).max(1)).collect()
}

#[test]
fn visual_rows_cache_matches_line_render() {
    let long = "x".repeat(120);
    let src = format!("# Title\n\nshort\n\n{long}\n\nfinal\n");
    let mut doc = doc(
        &src,
        vec![
            (heading(1, "Title"), "# Title\n", vec!["Title"]),
            (Block::Paragraph, "short\n", vec!["short"]),
            (Block::Paragraph, format!("{long}\n").as_str(), vec![long.as_str()]),
            (Block::Paragraph, "final\n", vec!["final"]),
        ],
        true,
    );
    let width = 40;
    let canonical = rows_at(&doc, width);
    doc.ensure_visual_rows(width, &canonical);
    for (i, rows) in canonical.iter().enumerate() {
        assert_eq!(
            doc.visual_rows_for_line_at(i, width),
            *rows,
            "cache mismatch at line {i}",
        );
    }
    assert_eq!(doc.visual_rows_for_line_at(4, width), 3);
    assert_eq!(doc.line_at_visual_row(5, width), (4, 1));
}

#[test]
fn visual_rows_before_is_prefix_sum() {
    let src = "Para one.\n\n```\ncode\nblock\n```\n\n| a | b |\n|---|---|\n| 1 | 2 |\n";
    let mut doc = doc(
        src,
        vec![
            (Block::Paragraph, "Para one.\n", vec!["Para one."]),
            (Block::CodeBlock { fenced: true }, "```\ncode\nblock\n```\n", vec!["code", "block"]),
            (
                Block::Table { user_widths: None },
                "| a | b |\n|---|---|\n| 1 | 2 |\n",
                vec!["top", "a b", "mid", "1 2", "end"],
            ),
        ],
        true,
    );
    let width = 30;
    let counts = rows_at(&doc, width);
    doc.ensure_visual_rows(width, &counts);
    for i in 0..doc.lines.len() {
        assert_eq!(
            doc.visual_rows_before(i + 1, width),
            doc.visual_rows_before(i, width) + doc.visual_rows_for_line_at(i, width),
            "prefix-sum invariant broken at line {i}",
        );
    }
    assert_eq!(doc.total_visual_rows(width), doc.lines.len());
}

#[test]
fn visual_rows_cache_invalidates_on_width_change() {
    let long = "y".repeat(80);
    let src = format!("Hello\n\n{long}\n");
    let mut doc = doc(
        &src,
        vec![
            (Block::Paragraph, "Hello\n", vec!["Hello"]),
            (Block::Paragraph, format!("{long}\n").as_str(), vec![long.as_str()]),
        ],
        true,
    );
    let at_40 = rows_at(&doc, 40);
    let at_60 = rows_at(&doc, 60);
    doc.ensure_visual_rows(40, &at_40);
    for (i, want) in at_40.iter().enumerate() {
        assert_eq!(doc.visual_rows_for_line_at(i, 40), *want);
    }
    doc.ensure_visual_rows(60, &at_60);
    for (i, want) in at_60.iter().enumerate() {
        assert_eq!(doc.visual_rows_for_line_at(i, 60), *want);
    }
    for (i, want) in at_40.iter().enumerate() {
        assert_eq!(doc.visual_rows_for_line_at(i, 40), *want);
    }
}

#[test]
fn visual_rows_between_matches_manual_sum() {
    let src = "alpha\n\nbeta\n\ngamma\n\ndelta\n";
    let mut doc = doc(
        src,
        vec![
            (Block::Paragraph, "alpha\n", vec!["alpha"]),
            (Block::Paragraph, "beta\n", vec!["beta"]),
            (Block::Paragraph, "gamma\n", vec!["gamma"]),
            (Block::Paragraph, "delta\n", vec!["delta"]),
        ],
        true,
    );
    let width = 50;
    let counts: Vec<usize> = (0..doc.lines.len()).map(|i| i + 1).collect();
    doc.ensure_visual_rows(width, &counts);
    let n = doc.lines.len();
    for first in 0..n {
        for last in first..n {
            let expected: usize =
                (first..=last).map(|i| doc.visual_rows_for_line_at(i, width)).sum();
            assert_eq!(
                doc.visual_rows_between(first, last, width),
                expected,
                "between({first}, {last}) mismatch",
            );
        }
    }
}

#[test]
fn html_comment_block_owns_zero_rendered_lines() {
    let src = "Alpha.\n\n<!-- hidden -->\n\nBeta.\n";
    let doc = doc(
        src,
        vec![
            (Block::Paragraph, "Alpha.\n", vec!["Alpha."]),
            (Block::HtmlComment { column_widths: None }, "<!-- hidden -->\n", vec![]),
            (Block::Paragraph, "Beta.\n", vec!["Beta."]),
        ],
        true,
    );
    assert!(doc.blocks.iter().any(|b| matches!(b, Block::HtmlComment { .. })));
    let comment_byte = src.find("<!--").unwrap();
    let block_idx = doc
        .source_map
        .block_for_byte(comment_byte)
        .expect("comment bytes must map to a block");
    assert_eq!(doc.block_own_line_count(block_idx), 0);
    for line in &doc.lines {
        let text = line.text();
        assert!(
            !text.contains("<!--"),
            "comment leaked into rendered output: {text:?}"
        );
    }
}

#[test]
fn a_blocks_content_ends_before_its_trailing_line_feeds() {
    let src = "ab\ncd\n\nrest";
    assert_eq!(content_end_of_block(src, &(0..7)), 5);
    assert_eq!(content_end_of_block(src, &(0..2)), 2);
}

#[test]
fn a_byte_belongs_to_the_block_that_is_written_there() {
    let doc = two_paragraphs();
    assert_eq!(doc.real_block_for_byte(0), Some(0));
    assert_eq!(doc.real_block_for_byte(8), Some(1));
    assert_eq!(doc.real_block_for_byte(6), None);
}
