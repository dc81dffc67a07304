//! The editor's state: movement by rows, settings, reviews, images and sections.

use edamame::document::buffer::Buffer;
use edamame::document::parsed_doc::{
    Block, DiagramSource, ParsedDoc, RenderedLine, Span, SpanStyle,
};
use edamame::document::selection::Selection;
use edamame::editor::mode::Mode;
use edamame::editor::state::{EditorState, ImageReveal, SearchFlow};
use edamame::editor::state_rows::{count_rows_above, sub_lines_in_block, RawBlock};
use edamame::editor::table_edit::TableInfo;
use edamame::editor::wrap::{Layout, LineWrap, WrapRow};
use std::ops::Range;

fn shown(text: &str) -> RenderedLine {
    RenderedLine { spans: vec![Span { content: text.to_owned(), style: SpanStyle::Plain }] }
}

/// A document of the given blocks, each with its source and its rendered lines.
fn doc(source: &str, parts: Vec<(Block, &str, Vec<&str>)>) -> ParsedDoc {
    let mut blocks: Vec<Block> = Vec::new();
    let mut ranges: Vec<Range<usize>> = Vec::new();
    let mut lines: Vec<RenderedLine> = Vec::new();
    let mut counts: Vec<usize> = Vec::new();
    let mut from = 0;
    for (block, piece, texts) in parts {
        let start = from + source[from..].find(piece).expect("the block's source");
        from = start + piece.len();
        blocks.push(block);
        ranges.push(start..from);
        counts.push(texts.len());
        for text in texts {
            lines.push(shown(text));
        }
    }
    ParsedDoc::build(source, blocks, ranges, lines, counts, true)
}

/// A document of one paragraph that is rendered line by line.
fn paragraph(source: &str) -> ParsedDoc {
    doc(source, vec![(Block::Paragraph, source, source.lines().collect())])
}

fn state_of(source: &str, parsed: ParsedDoc) -> EditorState {
    EditorState::new(Buffer::from_str(source), parsed, 0, 4)
}

/// Hands a document in, with one row for each of its lines.
fn install(state: &mut EditorState, parsed: ParsedDoc) {
    let rows = parsed.line_count();
    state.install_parsed(parsed, rows);
}

/// The rows of a line at a width, broken at spaces; rows but the first are `indent`
/// cells narrower.
fn wrap_line(text: &str, width: usize, indent: usize) -> LineWrap {
    let chars: Vec<char> = text.chars().collect();
    let mut rows: Vec<WrapRow> = Vec::new();
    let mut start = 0;
    loop {
        let room = if rows.is_empty() { width } else { width - indent };
        if chars.len() - start <= room {
            rows.push(WrapRow { start, end: chars.len(), next: chars.len() });
            return LineWrap { rows, indent };
        }
        let space = (start + 1..=start + room).rev().find(|i| chars[*i] == ' ');
        let (end, next) = match space {
            Some(i) => (i, i + 1),
            None => (start + room, start + room),
        };
        rows.push(WrapRow { start, end, next });
        start = next;
    }
}

/// How a text is laid out, with the given indentation of wrapped rows.
fn layout_with(text: &str, width: usize, indent: impl Fn(&str) -> usize) -> Layout {
    let wraps: Vec<LineWrap> =
        text.split('\n').map(|l| wrap_line(l, width, indent(l))).collect();
    let alignment = vec![false; wraps.len()];
    Layout { width, wraps, alignment }
}

fn layout(text: &str, width: usize) -> Layout {
    layout_with(text, width, |l| if l.starts_with("- ") { 2 } else { 0 })
}

#[test]
fn move_down_visual_honours_word_wrap_boundaries() {
    let text = "hello world foo bar baz quux wibble wobble";
    let mut state = state_of(text, paragraph(text));
    state.cursor.offset = 3;
    state.cursor.preferred_col = 3;
    let layout = layout(text, 20);
    let rows = layout.wraps[0].rows.clone();

    state.move_down_visual(&layout);

    assert!(rows.len() >= 2, "expected wrap into at least 2 rows");
    assert_eq!(state.cursor.offset, rows[1].start + 3);
}

#[test]
fn move_up_visual_crosses_to_last_subline_of_previous_line() {
    let long = "aaaaa bbbbb ccccc ddddd eeeee fffff ggggg hhhhh";
    let text = format!("{}\nshort\n", long);
    let mut state = state_of(&text, paragraph(&text));
    let line1_start = state.buffer.line_to_char(1);
    state.cursor.offset = line1_start + 3;
    state.cursor.preferred_col = 3;
    let layout = layout(&text, 20);
    let last = *layout.wraps[0].rows.last().unwrap();

    state.move_up_visual(&layout);

    let expected_raw_col = last.start + 3;
    assert_eq!(
        state.cursor.offset,
        state.buffer.line_to_char(0) + expected_raw_col
    );
}

#[test]
fn move_up_visual_clamps_within_target_subrow_not_on_wrap_boundary() {
    let text = format!("Super long line of inline code ` {}`", "a".repeat(150));
    let mut state = state_of(&text, paragraph(&text));
    let width = 40;
    let layout = layout(&text, width);
    let wrap = &layout.wraps[0];
    assert!(wrap.rows.len() >= 2);
    let row0_width = wrap.rows[0].end - wrap.rows[0].start;
    let row1_start = wrap.rows[1].start;

    let visual_col_on_row1 = row0_width + 3;
    state.cursor.offset = row1_start + visual_col_on_row1;
    state.cursor.preferred_col = visual_col_on_row1;

    state.move_up_visual(&layout);

    let sub_idx = wrap.sub_line_of_col(state.cursor.offset);
    assert_eq!(
        sub_idx, 0,
        "cursor at offset {} should be visually on row 0, not row {}",
        state.cursor.offset, sub_idx
    );

    let before = state.cursor.offset;
    state.move_up_visual(&layout);
    assert_ne!(
        state.cursor.offset, before,
        "Up from row 0 must not stall at offset {before}",
    );
}

#[test]
fn move_up_visual_never_lands_on_a_space_absorbed_by_the_wrap() {
    let text = "abcdefghij klmnopqrst uvwxyzabcd";
    let width = 10;
    let mut state = state_of(text, paragraph(text));
    let layout = layout(text, width);
    let wrap = &layout.wraps[0];
    assert_eq!(
        wrap.rows[1],
        WrapRow { start: 11, end: 21, next: 22 },
        "fixture stopped absorbing its space"
    );

    state.cursor.offset = text.chars().count();
    state.cursor.preferred_col = state.current_visual_col(&layout);

    state.move_up_visual(&layout);
    let sub = wrap.sub_line_of_col(state.cursor.offset);
    assert_eq!(
        sub, 1,
        "Up from row 2 should render on row 1, not row {sub} (offset {})",
        state.cursor.offset,
    );

    let before = state.cursor.offset;
    state.move_up_visual(&layout);
    assert_ne!(
        state.cursor.offset, before,
        "Up from row 1 must not stall at offset {before}",
    );
}

#[test]
fn move_down_visual_preserves_screen_cell_across_indent_boundary() {
    let text = "- list item content that wraps to a second row\nplain paragraph here";
    let mut state = state_of(text, paragraph(text));
    let layout = layout(text, 30);
    let rows = layout.wraps[0].rows.clone();
    assert!(rows.len() >= 2, "list item must wrap");
    state.cursor.offset = rows[1].start + 3usize.min(rows[1].end - rows[1].start);
    state.cursor.preferred_col = state.current_visual_col(&layout);
    assert_eq!(state.cursor.preferred_col, 5);

    state.move_down_visual(&layout);

    let line1_start = state.buffer.line_to_char(1);
    assert_eq!(state.cursor.offset, line1_start + 5);
}

#[test]
fn move_down_visual_on_list_item_without_offset_bug() {
    let text = "- hello world foo bar baz quux wibble";
    let mut state = state_of(text, paragraph(text));
    state.cursor.offset = 5;
    state.cursor.preferred_col = 5;
    let layout = layout(text, 20);
    let rows = layout.wraps[0].rows.clone();

    state.move_down_visual(&layout);

    assert!(rows.len() >= 2);
    assert_eq!(state.cursor.offset, rows[1].start + 3);
}

#[test]
fn move_down_visual_in_raw_mode_wraps_flat() {
    let text = "- hello world foo bar baz quux wibble";
    let mut state = state_of(text, paragraph(text));
    state.mode = Mode::Raw;
    state.cursor.offset = 5;
    state.cursor.preferred_col = 5;
    let layout = layout_with(text, 20, |_| 0);
    let rows = layout.wraps[0].rows.clone();

    state.move_down_visual(&layout);

    assert!(rows.len() >= 2);
    assert_eq!(state.cursor.offset, rows[1].start + 5);
}

#[test]
fn current_visual_col_in_raw_mode_takes_no_hanging_indent() {
    let text = "- hello world foo bar baz quux wibble";
    let mut state = state_of(text, paragraph(text));
    state.mode = Mode::Raw;
    let layout = layout(text, 20);
    let rows = layout.wraps[0].rows.clone();
    assert!(rows.len() >= 2);
    state.cursor.offset = rows[1].start + 3usize.min(rows[1].end - rows[1].start);
    assert_eq!(state.current_visual_col(&layout), 3);
    state.mode = Mode::Rendered;
    assert_eq!(state.current_visual_col(&layout), 5);
}

fn flat(text: &str) -> LineWrap {
    wrap_line(text, 40, 0)
}

#[test]
fn cursor_screen_row_round_trips_across_mode_switch() {
    let mut src = String::new();
    for i in 0..20 {
        src.push_str(&format!("line {i}\n"));
    }
    let vp_w = 40;
    let mut state = state_of(&src, paragraph(&src));
    state.mode = Mode::Rendered;
    state.cursor.offset = state.buffer.line_to_char(12);
    state.update_cursor_block();
    state.scroll = 9;

    let row_before = state.cursor_screen_row(vp_w, 12, &flat("line 12"));
    assert_eq!(row_before, 3);

    state.mode = Mode::Raw;
    state.scroll = 0;

    state.set_scroll_for_cursor_screen_row(row_before, vp_w, 12, &flat("line 12"));
    let row_after = state.cursor_screen_row(vp_w, 12, &flat("line 12"));
    assert_eq!(row_after, row_before);
}

#[test]
fn set_scroll_for_cursor_screen_row_clamps_at_top() {
    let src = "line 0\nline 1\nline 2\n";
    let mut state = state_of(src, paragraph(src));
    state.mode = Mode::Raw;
    state.cursor.offset = state.buffer.line_to_char(1);
    state.scroll = 0;
    let above = count_rows_above(&layout(src, 40), 1);
    state.set_scroll_for_cursor_screen_row(50, 40, above, &flat("line 1"));
    assert_eq!(state.scroll, 0);
    assert_eq!(state.cursor_screen_row(40, above, &flat("line 1")), 1);
}

/// Renders the document anew where the state asks for it, the paragraph as one flow
/// or line by line.
fn render(state: &mut EditorState) {
    if state.reparse_due {
        let source = state.contents();
        let flow = source.lines().collect::<Vec<&str>>().join(" ");
        let parsed = if state.want_reflow() {
            doc(&source, vec![(Block::Paragraph, source.as_str(), vec![flow.as_str()])])
        } else {
            paragraph(&source)
        };
        install(state, parsed);
    }
}

fn line_texts(state: &EditorState) -> Vec<String> {
    state
        .parsed
        .lines
        .iter()
        .map(|l| l.text().trim_end().to_string())
        .filter(|s| !s.is_empty())
        .collect()
}

#[test]
fn reflow_is_default_on_in_preview_and_rendered_off_in_raw() {
    let flow = vec!["one two three".to_string()];
    let split = vec!["one".to_string(), "two".to_string(), "three".to_string()];

    let src = "one\ntwo\nthree\n";
    let mut state = state_of(src, paragraph(src));
    assert_eq!(state.mode, Mode::Preview);
    state.sync_reflow_for_mode();
    render(&mut state);
    assert_eq!(line_texts(&state), flow, "Preview reflows by default");

    state.mode = Mode::Rendered;
    state.sync_reflow_for_mode();
    render(&mut state);
    assert_eq!(line_texts(&state), flow, "Rendered reflows by default too");

    state.mode = Mode::Raw;
    state.sync_reflow_for_mode();
    render(&mut state);
    assert_eq!(line_texts(&state), split, "Raw never reflows");

    state.mode = Mode::Rendered;
    state.set_reflow(false);
    render(&mut state);
    assert_eq!(
        line_texts(&state),
        split,
        "disabling reflow splits the flow back"
    );
}

#[test]
fn reflow_reveal_keeps_block_top_and_content_above_put() {
    let src = "a\n\nb\n\nc\n\none\ntwo\nthree\nfour\nfive\n\nafter\n";
    let parsed = doc(
        src,
        vec![
            (Block::Paragraph, "a\n", vec!["a"]),
            (Block::Paragraph, "b\n", vec!["b"]),
            (Block::Paragraph, "c\n", vec!["c"]),
            (
                Block::Paragraph,
                "one\ntwo\nthree\nfour\nfive\n",
                vec!["one two three four five"],
            ),
            (Block::Paragraph, "after\n", vec!["after"]),
        ],
    );
    let mut state = state_of(src, parsed);
    state.mode = Mode::Rendered;
    state.set_viewport_width(20);
    let w = 20usize;
    let byte = src.find("one").unwrap();
    state.cursor.offset = state.buffer.byte_to_char(byte);
    state.update_cursor_block();

    state.track.entered_at = Some(state.now);
    assert!(!state.cursor_block_revealed());
    state.scroll = 6;
    state.anchor_reflow_reveal(w, false);
    let scroll_before = state.scroll;

    state.track.entered_at = None;
    assert!(
        state.reflow_reveal_target(true).is_some(),
        "the block must now be reflow-revealed"
    );
    assert!(state.anchor_reflow_reveal(w, true));
    assert_eq!(
        state.scroll, scroll_before,
        "revealing a paragraph while the cursor stays visible must not move the document",
    );
}

#[test]
fn images_enabled_false_collapses_blocks_to_placeholder() {
    let src = "![cat](cat.png)\n\n![dog](dog.png)\n";
    let render = |state: &EditorState| {
        let rows = |url: &str, ordinal: usize| {
            state
                .reserved_rows(url, ordinal, false, None)
                .unwrap_or(state.settings.image_max_height)
        };
        let cat = rows("cat.png", 0);
        let dog = rows("dog.png", 1);
        let image = |url: &str| Block::ImageBlock {
            alt: String::new(),
            url: url.to_owned(),
            diagram: None,
        };
        let lines: Vec<RenderedLine> = (0..cat + dog + 1).map(|_| RenderedLine::blank()).collect();
        ParsedDoc::build(
            src,
            vec![image("cat.png"), image("dog.png")],
            vec![0..16, 17..33],
            lines,
            vec![cat, dog],
            true,
        )
    };
    let mut state = EditorState::new_with_config(
        Buffer::from_str(src),
        doc(src, vec![]),
        0,
        true,
        true,
        10,
        4,
    );
    let parsed = render(&state);
    install(&mut state, parsed);
    let expanded = state.parsed.line_count();
    assert!(
        expanded >= 20,
        "expected ≥ 20 rendered lines with images expanded, got {expanded}",
    );

    state.settings.images_enabled = false;
    state.refresh_parsed();
    let parsed = render(&state);
    install(&mut state, parsed);

    assert_eq!(state.parsed.line_count(), 4);
}

#[test]
fn disabling_images_does_not_collapse_a_rendered_math_block() {
    let src = "Above.\n\n$$\nE = mc^2\n$$\n\nBelow.\n";
    let mut state = state_of(src, paragraph(src));
    state.mode = Mode::Rendered;
    state.settings.diagrams_enabled = true;
    state.settings.images_enabled = false;
    assert_eq!(state.reserved_rows("diagram-latex-1", 0, true, None), None);
    assert_eq!(state.reserved_rows("diagram-latex-1", 0, true, Some(7)), Some(7));
    assert_eq!(state.reserved_rows("cat.png", 0, false, Some(7)), Some(1));
}

#[test]
fn set_theme_swaps_reference_and_refreshes_parsed() {
    let src = "# heading\n";
    let heading = || {
        let block = Block::Heading { level: 1, text: "heading".to_owned() };
        doc(src, vec![(block, src, vec!["heading"])])
    };
    let mut state = state_of(src, heading());
    let v_before = state.parsed_version;

    state.set_theme(0);
    assert!(!state.reparse_due);
    assert_eq!(state.parsed_version, v_before);

    state.set_theme(1);
    assert_eq!(state.theme(), 1);
    assert!(state.reparse_due);
    install(&mut state, heading());
    assert!(!state.reparse_due);
    assert_ne!(state.parsed_version, v_before);
}

#[test]
fn scroll_focused_hunk_into_view_scrolls_offscreen_hunk_up() {
    let mut old = String::new();
    for i in 0..20 {
        old.push_str(&format!("ctx{i}\n"));
    }
    old.push_str("before\n");
    let mut state = state_of(&old, paragraph(&old));
    state.scroll = 0;
    state.enter_diff_mode();
    assert!(state.pending_focus_scroll);
    assert_eq!(state.scroll, 0);

    state.scroll_focused_hunk_into_view(20, 22, 5);
    assert_eq!(state.scroll, 17);

    state.scroll_focused_hunk_into_view(20, 22, 5);
    assert_eq!(state.scroll, 17);
}

#[test]
fn scroll_focused_hunk_into_view_noop_when_already_visible() {
    let src = "a\nB\nc\n";
    let mut state = state_of(src, paragraph(src));
    state.enter_diff_mode();
    state.scroll_focused_hunk_into_view(1, 4, 20);
    assert_eq!(state.scroll, 0);
}

#[test]
fn enter_diff_mode_defers_the_rendered_parse_by_one_frame() {
    let src = "# T\n\nbee\n";
    let mut state = state_of(src, paragraph(src));
    state.enter_diff_mode();
    assert!(state.diff_parse_dirty);

    assert!(state.flush_diff_parse_if_dirty());
    assert!(!state.diff_parse_dirty);
    assert!(!state.flush_diff_parse_if_dirty());
}

#[test]
fn a_mid_review_render_setting_change_rebuilds_the_diff_parse() {
    let src = "| a |\n|---|\n| 1 |\n";
    let mut state = state_of(src, paragraph(src));
    state.enter_diff_mode();
    assert!(state.flush_diff_parse_if_dirty());
    let before = state.parsed_version;
    state.set_row_striping(true);
    assert!(state.reparse_due);
    install(&mut state, paragraph(src));
    assert!(state.parsed_version > before);
    assert!(state.flush_diff_parse_if_dirty());
}

#[test]
fn the_view_is_brought_back_into_a_shorter_document() {
    let mut state = state_of("a\nb\nc\n", paragraph("a\nb\nc\n"));
    state.scroll = 7;
    state.clamp_scroll_to_document(3);
    assert_eq!(state.scroll, 2);
    state.clamp_scroll_to_document(30);
    assert_eq!(state.scroll, 2);
    state.clamp_scroll_to_document(0);
    assert_eq!(state.scroll, 0);
}

#[test]
fn a_shorter_document_brings_the_view_back() {
    let src = "a\nb\nc\nd\ne\n";
    let mut state = state_of(src, paragraph(src));
    state.scroll = 4;
    state.refresh_parsed();
    state.install_parsed(paragraph(src), 9);
    assert_eq!(state.scroll, 4);
    state.refresh_parsed();
    state.install_parsed(paragraph(src), 2);
    assert_eq!(state.scroll, 1);
    state.refresh_parsed();
    state.install_parsed(paragraph(src), 0);
    assert_eq!(state.scroll, 0);
}

#[test]
fn a_comment_behind_a_table_is_known_by_its_widths() {
    let src = "| a |\n|---|\n<!-- tui-columns: [4] -->\n";
    let state = state_of(src, doc(src, vec![]));
    let table = |end: usize| TableInfo { start: 0, end, col_count: 1, rows: Vec::new() };
    let widths = Some(vec![Some(4)]);
    assert!(state.table_has_tui_columns_comment(Some(&table(12)), &widths));
    assert!(!state.table_has_tui_columns_comment(Some(&table(12)), &None));
    assert!(!state.table_has_tui_columns_comment(Some(&table(src.len())), &widths));
    assert!(!state.table_has_tui_columns_comment(None, &widths));
}

#[test]
fn images_off_are_one_row_in_a_review() {
    let mut state = state_of("a\n", paragraph("a\n"));
    assert_eq!(state.reserved_rows_in_review(Some(9)), Some(9));
    assert_eq!(state.reserved_rows_in_review(None), None);
    state.settings.images_enabled = false;
    assert_eq!(state.reserved_rows_in_review(Some(9)), Some(1));
}

#[test]
fn refresh_diff_parse_is_inert_without_a_review() {
    let mut state = state_of("hello\n", paragraph("hello\n"));
    state.refresh_parsed();
    install(&mut state, paragraph("hello\n"));
    assert_ne!(state.mode, Mode::Diff);
    assert!(!state.diff_parse_dirty);
}

#[test]
fn leaving_a_review_restores_the_view() {
    let src = "a\nb\nc\nd\ne\n";
    let mut state = state_of(src, paragraph(src));
    state.scroll = 3;
    state.enter_diff_mode();
    assert_eq!(state.mode, Mode::Diff);
    state.scroll_focused_hunk_into_view(0, 5, 2);
    state.exit_diff_mode();
    assert_ne!(state.mode, Mode::Diff);
    assert_eq!(state.scroll, 3);
}

const FORMULA: &str = "$$\nE = mc^2\n$$\n";

fn formula_doc() -> ParsedDoc {
    let block = Block::ImageBlock {
        alt: String::new(),
        url: "diagram-latex-1".to_owned(),
        diagram: Some(DiagramSource::Latex("E = mc^2".to_owned())),
    };
    doc(FORMULA, vec![(block, FORMULA, vec![""; 24])])
}

/// A formula with the cursor at rest in it.
fn formula_state(math_preview: bool) -> EditorState {
    let mut state = state_of(FORMULA, formula_doc());
    state.mode = Mode::Rendered;
    state.settings.math_preview = math_preview;
    let latex_idx = state.parsed.image_blocks[0].block_idx;
    state.cursor.offset = "$$\n".chars().count() + 1;
    state.update_cursor_block();
    state.track.entered_at = None;
    assert_eq!(state.track.block_idx, Some(latex_idx));
    assert!(state.cursor_block_revealed());
    state
}

fn latex_reveal_with(math_preview: bool) -> ImageReveal {
    let mut state = formula_state(math_preview);
    assert!(state.sync_image_reveal(3, None));
    assert!(state.reparse_due);
    state.image_reveal.take().expect("reveal active")
}

#[test]
fn latex_reveal_without_preview_reserves_only_source_rows() {
    let reveal = latex_reveal_with(false);
    assert_eq!(reveal.rows, 3);
    assert_eq!(reveal.preview_rows, 0);
}

#[test]
fn latex_reveal_with_preview_reserves_a_band_above_the_source() {
    let reveal = latex_reveal_with(true);
    assert_eq!(reveal.rows, 3);
    assert_eq!(reveal.preview_rows, 24);
}

#[test]
fn math_preview_offsets_source_rows_below_the_formula_band() {
    let with = latex_reveal_with(true);
    let mut state = formula_state(true);
    assert!(state.sync_image_reveal(3, None));
    let latex_idx = state.parsed.image_blocks[0].block_idx;
    let rows = state
        .reserved_rows("diagram-latex-1", 0, true, None)
        .expect("rows for the source and the band");
    assert_eq!(rows, 27);
    let raw = RawBlock {
        table: None,
        offset: with.preview_rows,
        lines: vec!["$$".to_owned(), "E = mc^2".to_owned(), "$$".to_owned()],
        markers: vec![false, false, false],
    };
    let subs = sub_lines_in_block(&state.parsed, state.cursor_byte(), latex_idx, rows, &raw);
    assert_eq!(
        subs[0], with.preview_rows,
        "first source line sits below the band"
    );
    assert_eq!(subs[2], 26);
}

#[test]
fn plain_image_reveal_reserves_one_source_row() {
    let src = "![logo](logo.png)\n";
    let block = Block::ImageBlock {
        alt: "logo".to_owned(),
        url: "logo.png".to_owned(),
        diagram: None,
    };
    let mut state = state_of(src, doc(src, vec![(block, src, vec![""; 24])]));
    state.mode = Mode::Rendered;
    state.settings.math_preview = true;
    state.cursor.offset = 2;
    state.update_cursor_block();
    state.track.entered_at = None;
    assert!(state.cursor_block_revealed());
    assert!(state.sync_image_reveal(1, None));
    let reveal = state.image_reveal.as_ref().expect("reveal active");
    assert_eq!(reveal.rows, 1, "single source line");
    assert_eq!(reveal.preview_rows, 0, "plain image: no preview band");
}

#[test]
fn invalid_formula_holds_the_last_preview_band() {
    let mut state = formula_state(true);
    assert!(state.sync_image_reveal(3, Some(5)));
    let band = state.image_reveal.as_ref().expect("reveal").preview_rows;
    assert!(
        band > 1,
        "a decoded formula reserves a multi-row band, got {band}"
    );

    state.sync_image_reveal(3, None);
    assert_eq!(
        state.image_reveal.as_ref().expect("reveal").preview_rows,
        band,
        "an invalid formula holds the last resolved band, not the 1-row placeholder",
    );
}

#[test]
fn turning_the_formula_preview_on_shows_the_band_at_once() {
    let mut state = formula_state(false);
    assert!(state.sync_image_reveal(3, Some(5)));
    state.set_math_preview(true, 3, Some(5));
    assert_eq!(state.image_reveal.as_ref().map(|r| r.preview_rows), Some(5));
    state.set_math_preview(false, 3, Some(5));
    assert_eq!(state.image_reveal.as_ref().map(|r| r.preview_rows), Some(0));
}

const DIAGRAM: &str = "```mermaid\ngraph TD\nA-->B\n```\n\nbelow\n";

/// A diagram with a paragraph below it, and the cursor on the diagram's first line.
fn diagram_state() -> EditorState {
    let block = Block::ImageBlock {
        alt: String::new(),
        url: "diagram-mermaid-1".to_owned(),
        diagram: Some(DiagramSource::Mermaid("graph TD\nA-->B".to_owned())),
    };
    let parsed = doc(
        DIAGRAM,
        vec![
            (block, "```mermaid\ngraph TD\nA-->B\n```\n", vec![""; 6]),
            (Block::Paragraph, "below\n", vec!["below"]),
        ],
    );
    let mut state = state_of(DIAGRAM, parsed);
    state.mode = Mode::Rendered;
    state.now = 1000;
    state.cursor.offset = 0;
    state.track.line_idx = None;
    state.update_cursor_block();
    state
}

#[test]
fn a_diagram_is_revealed_by_its_source_and_a_formula_is_not() {
    let mut state = diagram_state();
    state.track.entered_at = None;
    assert!(state.sync_diagram_reveal(4));
    assert_eq!(state.image_reveal.as_ref().map(|r| r.rows), Some(4));
    assert!(!state.sync_diagram_reveal(4), "nothing changed");
    state.mode = Mode::Preview;
    assert!(state.sync_diagram_reveal(4), "the preview shows no source");
    assert!(state.image_reveal.is_none());
    let mut state = formula_state(false);
    assert!(!state.sync_diagram_reveal(3));
    assert!(state.image_reveal.is_none());
}

/// Moves the cursor to `text` after `ms` milliseconds.
fn step_to(state: &mut EditorState, text: &str, ms: u64) {
    state.now += ms;
    state.latch_cursor_reveal(false);
    let byte = state.contents().find(text).expect("the text");
    state.cursor.offset = state.buffer.byte_to_char(byte);
    state.update_cursor_block();
}

#[test]
fn a_cursor_that_passes_through_a_diagram_reveals_nothing() {
    let mut state = diagram_state();
    assert!(!state.cursor_block_revealed());
    step_to(&mut state, "graph TD", 80);
    assert!(!state.cursor_block_revealed());
    step_to(&mut state, "A-->B", 80);
    assert!(!state.cursor_block_revealed(), "the delay begins anew with each line");
    assert!(!state.track.reveal_latched);
}

#[test]
fn a_revealed_diagram_stays_so_until_the_cursor_leaves_it() {
    let mut state = diagram_state();
    step_to(&mut state, "graph TD", 200);
    assert!(state.track.reveal_latched);
    assert!(state.cursor_block_revealed());
    step_to(&mut state, "A-->B", 10);
    assert!(state.cursor_block_revealed(), "no collapse between two lines");
    state.drag_in_progress = true;
    assert!(!state.cursor_block_revealed());
    state.drag_in_progress = false;
    step_to(&mut state, "below", 10);
    assert!(!state.track.reveal_latched);
    assert!(!state.cursor_block_revealed());
    step_to(&mut state, "A-->B", 10);
    assert!(!state.cursor_block_revealed());
}

#[test]
fn a_reflowed_paragraph_latches_and_a_plain_one_does_not() {
    let src = "one\ntwo\n";
    let mut state = state_of(src, paragraph(src));
    state.mode = Mode::Rendered;
    state.track.entered_at = None;
    state.latch_cursor_reveal(false);
    assert!(!state.track.reveal_latched);
    state.latch_cursor_reveal(true);
    assert!(state.track.reveal_latched);
}

#[test]
fn the_state_hands_its_live_widths_to_the_blocks() {
    let src = "| a |\n|---|\n";
    let mut state = state_of(src, doc(src, vec![]));
    state.live_table_widths = Some((0, vec![Some(4)]));
    let blocks = vec![Block::Table { user_widths: None }];
    let (blocks, ranges) = state.blocks_to_render(blocks, vec![0..src.len()]);
    assert_eq!(blocks, vec![Block::Table { user_widths: Some(vec![Some(4)]) }]);
    assert_eq!(ranges, vec![0..src.len()]);
}

fn heading(level: u8, text: &str) -> Block {
    Block::Heading { level, text: text.to_owned() }
}

/// A document of headings and paragraphs.
fn sections(src: &str, cursor_offset: usize) -> EditorState {
    let mut blocks: Vec<Block> = Vec::new();
    let mut ranges: Vec<Range<usize>> = Vec::new();
    let mut lines: Vec<RenderedLine> = Vec::new();
    let mut at = 0;
    for line in src.split_inclusive('\n') {
        let text = line.trim_end();
        if !text.is_empty() {
            let level = text.chars().take_while(|c| *c == '#').count();
            let plain: String =
                text[level..].trim_start().chars().filter(|c| *c != '*' && *c != '`').collect();
            blocks.push(if level > 0 { heading(level as u8, &plain) } else { Block::Paragraph });
            ranges.push(at..at + line.len());
            lines.push(shown(&plain));
        }
        at += line.len();
    }
    let counts = vec![1; blocks.len()];
    let mut st = state_of(src, ParsedDoc::build(src, blocks, ranges, lines, counts, true));
    st.cursor.offset = cursor_offset;
    st
}

#[test]
fn empty_when_no_headings() {
    let st = sections("just a paragraph\n", 0);
    assert!(st.cursor_section_chain().is_empty());
}

#[test]
fn empty_when_cursor_precedes_first_heading() {
    let st = sections("prelude\n\n# Top\n", 0);
    assert!(st.cursor_section_chain().is_empty());
}

#[test]
fn returns_only_heading_when_under_single_h1() {
    let src = "# Top\n\nbody text\n";
    let cursor = src.find("body").unwrap();
    let st = sections(src, cursor);
    assert_eq!(st.cursor_section_chain(), vec!["Top".to_string()]);
}

#[test]
fn returns_full_chain_in_document_order() {
    let src = "# A\n\n## B\n\n### C\n\nbody\n";
    let cursor = src.find("body").unwrap();
    let st = sections(src, cursor);
    assert_eq!(
        st.cursor_section_chain(),
        vec!["A".to_string(), "B".to_string(), "C".to_string()]
    );
}

#[test]
fn skips_earlier_sibling_at_same_level() {
    let src = "# Top\n\n## A1\n\nfirst body\n\n## A2\n\n### B\n\nsecond body\n";
    let cursor = src.find("second body").unwrap();
    let st = sections(src, cursor);
    assert_eq!(
        st.cursor_section_chain(),
        vec!["Top".to_string(), "A2".to_string(), "B".to_string()]
    );
}

#[test]
fn cursor_on_heading_line_includes_that_heading() {
    let src = "# A\n\n## B\n\nbody\n";
    let cursor = src.find("## B").unwrap();
    let st = sections(src, cursor);
    assert_eq!(
        st.cursor_section_chain(),
        vec!["A".to_string(), "B".to_string()]
    );
}

#[test]
fn skipped_heading_levels_are_handled() {
    let src = "# Top\n\n### Deep\n\nbody\n";
    let cursor = src.find("body").unwrap();
    let st = sections(src, cursor);
    assert_eq!(
        st.cursor_section_chain(),
        vec!["Top".to_string(), "Deep".to_string()]
    );
}

#[test]
fn scroll_chain_follows_viewport_top() {
    let src = "# A\n\n## B\n\nbody\n";
    let st = sections(src, 0);
    assert_eq!(st.cursor_section_chain(), vec!["A".to_string()]);

    let body_byte = src.find("body").unwrap();
    let body_line = st.parsed.source_map.rendered_lines_for_byte(body_byte).start;
    let mut st = st;
    st.scroll = body_line;
    let rows = vec![1; st.parsed.line_count()];
    st.parsed.ensure_visual_rows(st.settings.viewport_width, &rows);
    assert_eq!(
        st.scroll_section_chain(),
        vec!["A".to_string(), "B".to_string()]
    );
}

#[test]
fn scroll_chain_counts_visual_rows() {
    let src = "# A\n\nlong\n\n## B\n\nbody\n";
    let mut st = sections(src, 0);
    // The paragraph under the first heading takes five rows.
    let rows = vec![1, 1, 5, 1, 1, 1, 1];
    assert_eq!(st.parsed.line_count(), rows.len());
    st.parsed.ensure_visual_rows(st.settings.viewport_width, &rows);
    st.scroll = 4;
    assert_eq!(st.scroll_section_chain(), vec!["A".to_string()]);
    st.scroll = 7;
    assert_eq!(st.scroll_section_chain(), vec!["A".to_string()]);
    st.scroll = 8;
    assert_eq!(st.scroll_section_chain(), vec!["A".to_string(), "B".to_string()]);
    st.scroll = 99;
    assert_eq!(st.scroll_section_chain(), vec!["A".to_string(), "B".to_string()]);
}

#[test]
fn formatted_heading_text_is_flattened() {
    let src = "## **Bold** and `code`\n\nbody\n";
    let cursor = src.find("body").unwrap();
    let st = sections(src, cursor);
    assert_eq!(st.cursor_section_chain(), vec!["Bold and code".to_string()]);
}

#[test]
fn the_cursor_does_not_stop_on_a_hidden_comment() {
    let src = "Alpha.\n<!-- hidden -->\nBeta.\n";
    let parsed = doc(
        src,
        vec![
            (Block::Paragraph, "Alpha.\n", vec!["Alpha."]),
            (Block::HtmlComment { column_widths: None }, "<!-- hidden -->\n", vec![]),
            (Block::Paragraph, "Beta.\n", vec!["Beta."]),
        ],
    );
    let mut state = state_of(src, parsed);
    state.mode = Mode::Rendered;
    state.move_cursor_line(true, true, &layout(src, 40));
    assert_eq!(state.cursor.offset, src.find("Beta").unwrap());
    state.move_cursor_line(false, true, &layout(src, 40));
    assert_eq!(state.cursor.offset, 0);
}

#[test]
fn a_search_moves_the_cursor_and_gives_way_to_the_view() {
    let src = "one two\n";
    let mut state = state_of(src, paragraph(src));
    state.enter_search(SearchFlow { version: state.buffer.version(), focused: Some(4) });
    assert_eq!(state.ensure_search_fresh(), None);
    state.sync_cursor_to_search_focus();
    assert_eq!(state.cursor.offset, 4);
    assert!(!state.cursor_block_revealed());
    state.exit_search();
    assert!(state.search.is_none());
}

#[test]
fn a_replaced_buffer_keeps_the_place_and_drops_the_history() {
    let src = "one two\n";
    let mut state = state_of(src, paragraph(src));
    state.put_cursor(5);
    state.splice(0, 3, "ONE".to_owned());
    assert!(state.dirty);
    state.replace_buffer(Buffer::from_str("ab"));
    assert_eq!(state.contents(), "ab");
    assert_eq!(state.cursor.offset, 2);
    assert!(!state.dirty);
    assert!(!state.history.can_undo());
    assert!(state.reparse_due);
}

#[test]
fn a_selection_is_counted_in_characters_and_lines() {
    let src = "one\ntwo\n";
    let mut state = state_of(src, paragraph(src));
    state.mode = Mode::Rendered;
    assert_eq!(state.selection_size(), None);
    state.select(Some(Selection { anchor: 1, active: 6 }));
    assert_eq!(state.selection_size(), Some((5, 2)));
}

#[test]
fn the_cursor_blinks_only_where_it_is_shown() {
    let mut state = state_of("x", paragraph("x"));
    assert!(!state.cursor_visible(), "the preview shows no cursor");
    state.mode = Mode::Rendered;
    assert!(state.cursor_visible());
    assert!(state.cursor_blink.tick(530));
    assert!(!state.cursor_visible());
    state.settings.modal_open = true;
    assert!(state.cursor_visible());
    state.settings.terminal_focused = false;
    assert!(!state.cursor_visible());
}
