//! The mouse: clicks, drags, selections, tables and links.

use edamame::document::buffer::Buffer;
use edamame::document::history::EditDelta;
use edamame::document::parsed_doc::{
    Block, DiagramSource, ParsedDoc, RenderedLine, Span, SpanStyle,
};
use edamame::document::selection::{CellBand, Selection, VisualSelection};
use edamame::editor::link::LinkTarget;
use edamame::editor::mode::Mode;
use edamame::editor::mouse_ops::checkbox::is_on_checkbox;
use edamame::editor::mouse_ops::click::{rendered_sub_line_to_offset, LineFacts, SourceLine};
use edamame::editor::mouse_ops::coord::{
    table_click_to_raw_col, CellChunk, CellMap, InlineMap, LineMapping, MarkerMap,
};
use edamame::editor::mouse_ops::drag_commit::drag_path;
use edamame::editor::mouse_ops::events::{DragTarget, MouseAction, Pointer};
use edamame::editor::mouse_ops::hits::{hit_test_clickable, hovered_link_url, LinkRun};
use edamame::editor::mouse_ops::links::{is_link_style, link_run_ranges};
use edamame::editor::mouse_ops::mouse;
use edamame::editor::mouse_ops::pick::{scroll_by_mouse, set_scroll_absolute};
use edamame::editor::mouse_ops::point::Drawn;
use edamame::editor::mouse_ops::screen::RevealedBlock;
use edamame::editor::mouse_ops::selection::{
    expand_selection_to_inline_markers, visual_selection_to_rendered_text, word_range_around,
};
use edamame::editor::mouse_ops::table_drag::{
    current_widths_for_table, longest_word_cells, natural_widths, resize_widths,
};
use edamame::editor::state::EditorState;
use edamame::editor::state_rows::TableSubLineKind;
use edamame::editor::table_edit::{RowKind, TableCell, TableInfo, TableMetrics, TableRow};
use edamame::editor::wrap::{Layout, LineWrap, WrapRow};
use std::ops::Range;
use std::path::Path;

fn shown(text: &str) -> RenderedLine {
    RenderedLine { spans: vec![Span { content: text.to_owned(), style: SpanStyle::Plain }] }
}

/// A document of the given blocks, each with its source and its rendered lines.
fn doc(source: &str, parts: Vec<(Block, &str, Vec<&str>)>) -> ParsedDoc {
    let mut blocks: Vec<Block> = Vec::new();
    let mut ranges: Vec<Range<usize>> = Vec::new();
    let mut lines: Vec<RenderedLine> = Vec::new();
    let mut counts: Vec<usize> = Vec::new();
    let mut from = 0;
    for (block, piece, texts) in parts {
        let start = from + source[from..].find(piece).expect("the block's source");
        from = start + piece.len();
        blocks.push(block);
        ranges.push(start..from);
        counts.push(texts.len());
        for text in texts {
            lines.push(shown(text));
        }
    }
    ParsedDoc::build(source, blocks, ranges, lines, counts, true)
}

/// A document of one paragraph that is rendered line by line.
fn paragraph(source: &str) -> ParsedDoc {
    doc(source, vec![(Block::Paragraph, source, source.lines().collect())])
}

fn state_of(source: &str, parsed: ParsedDoc) -> EditorState {
    EditorState::new(Buffer::from_str(source), parsed, 0, 4)
}

/// The rows of a line at a width, broken at spaces; rows but the first are `indent`
/// cells narrower.
fn wrap_line(text: &str, width: usize, indent: usize) -> LineWrap {
    let chars: Vec<char> = text.chars().collect();
    let mut rows: Vec<WrapRow> = Vec::new();
    let mut start = 0;
    loop {
        let room = if rows.is_empty() { width } else { width - indent };
        if chars.len() - start <= room {
            rows.push(WrapRow { start, end: chars.len(), next: chars.len() });
            return LineWrap { rows, indent };
        }
        let space = (start + 1..=start + room).rev().find(|i| chars[*i] == ' ');
        let (end, next) = match space {
            Some(i) => (i, i + 1),
            None => (start + room, start + room),
        };
        rows.push(WrapRow { start, end, next });
        start = next;
    }
}

/// How a text is laid out, with the given indentation of wrapped rows.
fn layout_with(text: &str, width: usize, indent: impl Fn(&str) -> usize) -> Layout {
    let wraps: Vec<LineWrap> =
        text.split('\n').map(|l| wrap_line(l, width, indent(l))).collect();
    let alignment = vec![false; wraps.len()];
    Layout { width, wraps, alignment }
}

fn layout(text: &str, width: usize) -> Layout {
    layout_with(text, width, |l| if l.starts_with("- ") { 2 } else { 0 })
}

/// A map of columns that hides nothing.
fn straight(len: usize) -> InlineMap {
    InlineMap { to_raw: (0..=len).collect() }
}

/// What is known of a plain rendered line.
fn facts(text: &str, source: &str, width: usize) -> LineFacts {
    LineFacts {
        wrap: wrap_line(text, width, 0),
        is_table: false,
        kinds: Vec::new(),
        band: 0,
        reflowed: false,
        source: Vec::new(),
        flow: straight(0),
        reveals: true,
        cursor_line: 0,
        raw_wrap: wrap_line(source, width, 0),
        code: None,
        map: straight(text.chars().count()),
        mapping: LineMapping::Generic,
        marker: None,
        raw_pipes: Vec::new(),
        shown_pipes: Vec::new(),
        cells: Vec::new(),
    }
}

/// A pointer over the text, with nothing special below it.
fn pointer(state: &EditorState, col: u16, offset: usize, shown_at: Option<(usize, usize)>) -> Pointer {
    Pointer {
        col,
        offset: Some(offset),
        shown: shown_at,
        band: None,
        link: None,
        back: None,
        table: None,
        image: None,
        cell: None,
        cell_source: None,
        in_table: false,
        hover: None,
        swaps: Vec::new(),
        layout: layout(&state.contents(), 80),
        total_rows: state.parsed.line_count(),
    }
}

const METRICS: TableMetrics =
    TableMetrics { min_col_width: 3, per_col_overhead: 3, row_end_overhead: 1 };

fn act(state: &mut EditorState, action: MouseAction, p: Pointer, drag: &mut Option<DragTarget>) -> bool {
    mouse::apply(state, action, p, drag, None, &METRICS)
}

fn click(state: &mut EditorState, col: u16, offset: usize, drag: &mut Option<DragTarget>) -> bool {
    let p = pointer(state, col, offset, None);
    act(state, MouseAction::Click { ctrl: false }, p, drag)
}

#[test]
fn scroll_down_mouse_respects_max() {
    let src = "a\nb\nc\nd\n";
    let mut state = state_of(src, paragraph(src));
    state.mode = Mode::Rendered;
    let total = state.parsed.line_count();
    scroll_by_mouse(&mut state, 100, total);
    assert_eq!(state.scroll, state.parsed.line_count().saturating_sub(1));
}

#[test]
fn scroll_up_clamps_at_zero() {
    let src = "hello\nworld\n";
    let mut state = state_of(src, paragraph(src));
    state.mode = Mode::Rendered;
    state.scroll = 1;
    let total = state.parsed.line_count();
    scroll_by_mouse(&mut state, -5, total);
    assert_eq!(state.scroll, 0);
}

#[test]
fn click_places_cursor_on_paragraph() {
    let text = "Hello world\n";
    let mut state = state_of(text, paragraph(text));
    state.mode = Mode::Rendered;
    let mut target: Option<DragTarget> = None;
    let offset = rendered_sub_line_to_offset(
        &state,
        0,
        0,
        6,
        &facts("Hello world", "Hello world", 80),
    );
    click(&mut state, 6, offset, &mut target);
    assert_eq!(state.cursor.offset, 6);
    assert_eq!(state.selection, None);
    assert_eq!(
        target,
        Some(DragTarget::TextSelection {
            anchor: 6,
            cell: None
        })
    );
}

#[test]
fn double_click_selects_word() {
    let text = "hello world";
    let mut state = state_of(text, paragraph(text));
    state.mode = Mode::Rendered;
    state.cursor.offset = 7;
    state.select_word_at_cursor();
    assert_eq!(
        state.selection,
        Some(Selection {
            anchor: 6,
            active: 11
        })
    );
}

#[test]
fn triple_click_selects_line() {
    let text = "first line\nsecond\n";
    let mut state = state_of(text, paragraph(text));
    state.mode = Mode::Rendered;
    state.cursor.offset = 3;
    state.select_line_at_cursor(&None);
    let sel = state.selection.expect("selection set");
    assert_eq!(sel.anchor, 0);
    assert_eq!(sel.active, 11);
}

#[test]
fn click_target_lands_inside_a_latex_block_at_eof() {
    let text = "intro\n\n$$\nE = mc^2\n$$";
    let formula = Block::ImageBlock {
        alt: String::new(),
        url: "diagram-latex-1".to_owned(),
        diagram: Some(DiagramSource::Latex("E = mc^2".to_owned())),
    };
    let parsed = doc(
        text,
        vec![
            (Block::Paragraph, "intro\n", vec!["intro"]),
            (formula, "$$\nE = mc^2\n$$", vec!["", "", ""]),
        ],
    );
    let state = state_of(text, parsed);
    let block_idx = state.parsed.image_blocks[0].block_idx;
    let target = state
        .image_block_cursor_target(block_idx)
        .expect("resolvable target");
    let byte = state.buffer.char_to_byte(target);
    assert!(
        byte < text.len(),
        "target must land before the block's end, got byte {byte} of {}",
        text.len()
    );
    assert_eq!(
        state.parsed.source_map.block_for_byte(byte),
        Some(block_idx),
        "target must resolve back to the latex block so the reveal opens"
    );
}

#[test]
fn drag_extends_selection() {
    let text = "hello world";
    let mut state = state_of(text, paragraph(text));
    state.mode = Mode::Rendered;
    let mut target: Option<DragTarget> = None;
    click(&mut state, 0, 0, &mut target);
    let p = pointer(&state, 5, 5, None);
    act(&mut state, MouseAction::Drag, p, &mut target);
    let sel = state.selection.expect("drag selects");
    assert_eq!(sel.anchor, 0);
    assert_eq!(sel.active, 5);
}

#[test]
fn a_drag_that_begins_in_a_cell_stays_there() {
    let text = "| ab | cd |\n";
    let mut state = state_of(text, paragraph(text));
    state.mode = Mode::Rendered;
    let mut target: Option<DragTarget> = None;
    let mut p = pointer(&state, 2, 2, None);
    p.cell = Some((2, 4));
    act(&mut state, MouseAction::Click { ctrl: false }, p, &mut target);
    let p = pointer(&state, 9, 9, None);
    act(&mut state, MouseAction::Drag, p, &mut target);
    let sel = state.selection.expect("drag selects");
    assert_eq!((sel.anchor, sel.active), (2, 4));
}

#[test]
fn click_in_preview_stays_in_preview_and_seeds_visual_selection() {
    let mut state = state_of("hello", paragraph("hello"));
    assert_eq!(state.mode, Mode::Preview);
    let mut target: Option<DragTarget> = None;
    let at = state.rendered_click_to_line_col(Some((0, 0)), 1, &wrap_line("hello", 80, 0));
    let p = pointer(&state, 1, 1, at);
    act(&mut state, MouseAction::Click { ctrl: false }, p, &mut target);
    assert_eq!(state.mode, Mode::Preview);
    let vs = state.visual_selection.expect("visual selection seeded");
    assert_eq!(vs.anchor, (0, 1));
    assert_eq!(vs.active, (0, 1));
}

#[test]
fn dragging_in_the_preview_leaves_the_text_alone() {
    let src = "hello world\n";
    let mut state = state_of(src, paragraph(src));
    let mut target: Option<DragTarget> = None;
    let p = pointer(&state, 1, 1, Some((0, 1)));
    act(&mut state, MouseAction::Click { ctrl: false }, p, &mut target);
    let p = pointer(&state, 7, 7, Some((0, 7)));
    act(&mut state, MouseAction::Drag, p, &mut target);
    let p = pointer(&state, 7, 7, Some((0, 7)));
    act(&mut state, MouseAction::Release, p, &mut target);
    assert_eq!(state.contents(), src);
    let vs = state.visual_selection.expect("a selection of what is shown");
    assert_eq!(
        visual_selection_to_rendered_text(vs, None, &state.parsed.lines),
        "ello w"
    );
    let p = pointer(&state, 7, 7, Some((0, 7)));
    act(&mut state, MouseAction::DoubleClick, p, &mut target);
    let vs = state.visual_selection.expect("a word of what is shown");
    assert_eq!(
        visual_selection_to_rendered_text(vs, None, &state.parsed.lines),
        "world"
    );
}

#[test]
fn click_on_checkbox_toggles_it() {
    let text = "- [ ] todo\n";
    let mut state = state_of(text, doc(text, vec![(Block::List, text, vec!["• [ ] todo"])]));
    state.mode = Mode::Rendered;
    let mut target: Option<DragTarget> = None;
    click(&mut state, 0, 0, &mut target);
    assert!(state.buffer.contents().contains("[x]"));
}

#[test]
fn click_past_end_of_line_clamps_to_line_end() {
    let text = "hi\n";
    let mut state = state_of(text, paragraph(text));
    state.mode = Mode::Rendered;
    let mut target: Option<DragTarget> = None;
    let offset = rendered_sub_line_to_offset(&state, 0, 0, 50, &facts("hi", "hi", 80));
    click(&mut state, 50, offset, &mut target);
    assert!(state.cursor.offset <= 2);
}

#[test]
fn raw_mode_click_places_cursor_on_line() {
    let text = "first\nsecond\nthird\n";
    let mut state = state_of(text, paragraph(text));
    state.mode = Mode::Raw;
    let mut target: Option<DragTarget> = None;
    let offset = state.raw_click_to_offset(2, 1, (0, 0), &layout(text, 80));
    click(&mut state, 2, offset, &mut target);
    assert_eq!(state.cursor.offset, 8);
}

#[test]
fn click_in_highlight_places_cursor_correctly() {
    let text = "x\nalpha ==beta== gamma\n";
    let parsed = doc(text, vec![(Block::Paragraph, text, vec!["x", "alpha beta gamma"])]);
    let mut state = state_of(text, parsed);
    state.mode = Mode::Rendered;
    let mut target: Option<DragTarget> = None;
    let mut f = facts("alpha beta gamma", "alpha ==beta== gamma", 80);
    f.map = InlineMap {
        to_raw: vec![0, 1, 2, 3, 4, 5, 8, 9, 10, 11, 14, 15, 16, 17, 18, 19, 20],
    };
    let offset = rendered_sub_line_to_offset(&state, 1, 0, 8, &f);
    click(&mut state, 8, offset, &mut target);
    assert_eq!(state.cursor.offset, 2 + 10);
}

/// The columns of `bold text` behind a marker of `width` characters and two stars.
fn bold_map(width: usize) -> InlineMap {
    let mut to_raw: Vec<usize> = (width + 2..width + 6).collect();
    to_raw.extend(width + 8..=width + 13);
    InlineMap { to_raw }
}

#[test]
fn click_in_bold_inside_list_item_places_cursor_correctly() {
    let text = "x\n- **bold** text\n";
    let parsed = doc(
        text,
        vec![
            (Block::Paragraph, "x\n", vec!["x"]),
            (Block::List, "- **bold** text\n", vec!["• bold text"]),
        ],
    );
    let mut state = state_of(text, parsed);
    state.mode = Mode::Rendered;
    let mut target: Option<DragTarget> = None;
    let mut f = facts("• bold text", "- **bold** text", 80);
    f.map = bold_map(2);
    f.mapping = LineMapping::List;
    f.marker = Some(MarkerMap { raw_width: 2, cols: vec![0, 1] });
    let offset = rendered_sub_line_to_offset(&state, 1, 0, 3, &f);
    click(&mut state, 3, offset, &mut target);
    assert_eq!(state.cursor.offset, 2 + 5);
}

#[test]
fn click_in_bold_inside_ordered_list_item_places_cursor_correctly() {
    let text = "x\n1. **bold** text\n";
    let parsed = doc(
        text,
        vec![
            (Block::Paragraph, "x\n", vec!["x"]),
            (Block::List, "1. **bold** text\n", vec!["1. bold text"]),
        ],
    );
    let mut state = state_of(text, parsed);
    state.mode = Mode::Rendered;
    let mut target: Option<DragTarget> = None;
    let mut f = facts("1. bold text", "1. **bold** text", 80);
    f.map = bold_map(3);
    f.mapping = LineMapping::List;
    f.marker = Some(MarkerMap { raw_width: 3, cols: vec![0, 1, 2] });
    let offset = rendered_sub_line_to_offset(&state, 1, 0, 4, &f);
    click(&mut state, 4, offset, &mut target);
    assert_eq!(state.cursor.offset, 2 + 6);
}

#[test]
fn click_in_bold_inside_blockquote_places_cursor_correctly() {
    let text = "x\n> **bold** text\n";
    let parsed = doc(
        text,
        vec![
            (Block::Paragraph, "x\n", vec!["x"]),
            (Block::Other, "> **bold** text\n", vec!["▎ bold text"]),
        ],
    );
    let mut state = state_of(text, parsed);
    state.mode = Mode::Rendered;
    let mut target: Option<DragTarget> = None;
    let mut f = facts("▎ bold text", "> **bold** text", 80);
    f.map = bold_map(2);
    let offset = rendered_sub_line_to_offset(&state, 1, 0, 3, &f);
    click(&mut state, 3, offset, &mut target);
    assert_eq!(state.cursor.offset, 2 + 5);
}

#[test]
fn click_on_wrapped_continuation_row_seeds_preferred_col_from_screen() {
    let text = "the quick brown fox jumps over the lazy dog one more time";
    let mut state = state_of(text, paragraph(text));
    state.mode = Mode::Rendered;
    let viewport_w: usize = 20;
    let narrow = layout(text, viewport_w);
    let rows = narrow.wraps[0].rows.clone();
    assert!(rows.len() >= 3);
    let target_offset = rows[2].start + 4usize.min(rows[2].end - rows[2].start);
    let mut anchor: Option<DragTarget> = None;
    let offset = rendered_sub_line_to_offset(&state, 0, 2, 4, &facts(text, text, viewport_w));
    let mut p = pointer(&state, 4, offset, None);
    p.layout = narrow;
    act(&mut state, MouseAction::Click { ctrl: false }, p, &mut anchor);
    assert_eq!(state.cursor.offset, target_offset);
    assert_eq!(state.cursor.preferred_col, 4);
}

fn kinds() -> Option<Vec<TableSubLineKind>> {
    Some(vec![
        TableSubLineKind::TopBorder,
        TableSubLineKind::Header { sub: 0 },
        TableSubLineKind::ThickSeparator,
        TableSubLineKind::DataRow { row: 0, sub: 0 },
        TableSubLineKind::BottomBorder,
    ])
}

fn table_state(header: &str) -> EditorState {
    let src = "| 日本 | ab |\n|---|---|\n| x | y |\n";
    let block = Block::Table { user_widths: None };
    state_of(src, doc(src, vec![(block, src, vec!["┌", header, "╞", "│ x    │ y  │", "└"])]))
}

#[test]
fn preview_table_cell_band_is_in_cells() {
    let st = table_state("│ 日本 │ ab  │");
    let band = st
        .preview_table_cell_band(1, 8, &kinds(), &[0, 5, 11], &[0, 7, 13])
        .expect("inside a cell");
    assert_eq!(band.cols, (9, 12));
}

#[test]
fn preview_click_maps_screen_cells_past_wide_glyphs() {
    let header = "│ 日本 │ ab │";
    let st = table_state(header);
    let wrap = wrap_line(header, 40, 0);
    let click = |col| st.rendered_click_to_line_col(Some((1, 0)), col, &wrap);
    assert_eq!(click(10), Some((1, 8)));
    assert_eq!(click(2), Some((1, 2)), "left half of 日");
    assert_eq!(click(3), Some((1, 3)), "right half of 日 lands after it");
    let (_, pad) = click(6).unwrap();
    let band = st
        .preview_table_cell_band(1, pad, &kinds(), &[0, 5, 10], &[0, 7, 12])
        .expect("inside a cell");
    assert_eq!(band.cols, (2, 6), "the first cell's content area");
}

#[test]
fn preview_hit_test_covers_both_halves_of_a_wide_glyph() {
    let st = state_of("日本x\n", paragraph("日本x\n"));
    let wrap = wrap_line("日本x", 40, 0);
    let hit = |col| st.rendered_click_to_line_col_on_text(Some((0, 0)), col, &wrap);
    assert_eq!(hit(0), Some((0, 0)));
    assert_eq!(hit(1), Some((0, 0)), "right half of 日");
    assert_eq!(hit(3), Some((0, 1)), "right half of 本");
    assert_eq!(hit(4), Some((0, 2)));
    assert_eq!(hit(5), None, "past the text");
}

#[test]
fn table_click_maps_screen_cells_past_wide_glyphs() {
    let raw: Vec<char> = "| 日本 | ab |".chars().collect();
    let cells = vec![
        CellMap {
            map: straight(2),
            chunks: vec![CellChunk { start: 0, text: "日本".to_owned() }],
        },
        CellMap {
            map: straight(2),
            chunks: vec![CellChunk { start: 0, text: "ab".to_owned() }],
        },
    ];
    let at = |col| table_click_to_raw_col(&raw, &[0, 5, 10], &[0, 7, 12], &cells, col, 0);
    let raw_col = |c: char| raw.iter().position(|x| *x == c).unwrap();
    assert_eq!(at(10), Some(raw_col('b')));
    assert_eq!(at(9), Some(raw_col('a')));
    assert_eq!(at(2), Some(raw_col('日')));
    assert_eq!(at(3), Some(raw_col('本')));
}

/// What is known of a paragraph that is shown as one flow.
fn flow_facts(flow: &str, lines: &[&str]) -> LineFacts {
    let mut f = facts(flow, lines[0], 80);
    f.reflowed = true;
    f.flow = straight(flow.chars().count());
    f.source = lines
        .iter()
        .map(|l| SourceLine { text: l.chars().collect(), wrap: wrap_line(l, 80, 0) })
        .collect();
    f
}

fn flow_state() -> EditorState {
    let src = "one\ntwo\nthree\n";
    state_of(src, doc(src, vec![(Block::Paragraph, src, vec!["one two three"])]))
}

#[test]
fn click_in_reflowed_paragraph_maps_across_source_lines() {
    let state = flow_state();
    let f = flow_facts("one two three", &["one", "two", "three"]);
    let off = rendered_sub_line_to_offset(&state, 0, 0, 8, &f);
    assert_eq!(off, 8);
    assert_eq!(state.buffer.contents().chars().nth(off), Some('t'));

    let off_two = rendered_sub_line_to_offset(&state, 0, 0, 5, &f);
    assert_eq!(off_two, 5);
    assert_eq!(state.buffer.contents().chars().nth(off_two), Some('w'));
}

#[test]
fn click_in_revealed_reflowed_block_maps_to_stacked_raw_line() {
    let mut st = flow_state();
    st.mode = Mode::Rendered;
    st.cursor.offset = 0;
    st.update_cursor_block();
    st.track.entered_at = None;
    assert!(
        st.cursor_block_revealed(),
        "block must reveal (no delay pending)"
    );
    let f = flow_facts("one two three", &["one", "two", "three"]);
    let off = rendered_sub_line_to_offset(&st, 0, 2, 0, &f);
    assert_eq!(off, 8);
    assert!(st.buffer.contents()[st.buffer.char_to_byte(off)..].starts_with("three"));
    let off_col = rendered_sub_line_to_offset(&st, 0, 2, 2, &f);
    assert_eq!(off_col, 10);
}

#[test]
fn click_in_hard_break_paragraph_stays_per_source_line() {
    let src = "one two  \nthree\n";
    let state = state_of(src, doc(src, vec![(Block::Paragraph, src, vec!["one two", "three"])]));
    let mut f = facts("three", "three", 80);
    f.cursor_line = 0;
    let off = rendered_sub_line_to_offset(&state, 1, 0, 0, &f);
    assert_eq!(
        state.buffer.contents().chars().nth(off),
        Some('t'),
        "click on the second segment must land on 'three', got offset {off}",
    );
}

#[test]
fn banded_copy_takes_the_cell_from_every_sub_line() {
    let lines = [shown("│ 日本 │ ab │"), shown("│ 語   │ cd │")];
    let sel = VisualSelection { anchor: (0, 7), active: (1, 10) };
    let band = Some(CellBand { lines: (0, 1), cols: (9, 11) });
    assert_eq!(visual_selection_to_rendered_text(sel, band, &lines), "ab cd");
}

#[test]
fn no_panic_on_multibyte_char_adjacent_to_selection() {
    let buffer = Buffer::from_str("—bc");
    let sel = Selection {
        anchor: 1,
        active: 2,
    };
    let out = expand_selection_to_inline_markers(&buffer, sel);
    assert_eq!((out.anchor, out.active), (1, 2));
}

#[test]
fn still_expands_real_markers() {
    let buffer = Buffer::from_str("a *foo* b");
    let sel = Selection {
        anchor: 3,
        active: 6,
    };
    let out = expand_selection_to_inline_markers(&buffer, sel);
    assert_eq!((out.anchor, out.active), (2, 7));
}

/// The edit that swaps two adjacent parts of a text.
fn swap(source: &str, first: &str, second: &str) -> EditDelta {
    let offset = source.find(first).unwrap();
    EditDelta {
        offset,
        removed: format!("{first}{second}"),
        inserted: format!("{second}{first}"),
    }
}

#[test]
fn a_chain_refused_partway_commits_the_partial_move_as_one_undo_step() {
    let src = "| a | b |\n|---|---|\n| 1 | 2 |\n| 3 | 4 |\n| 5 | 6 |\n";
    let mut state = state_of(src, paragraph(src));
    let one = swap(src, "| 1 | 2 |\n", "| 3 | 4 |\n");
    let after = one.apply_to_string(src);
    let two = swap(&after, "| 1 | 2 |\n", "| 5 | 6 |\n");

    assert_eq!(drag_path(2, 6), vec![(2, 3), (3, 4), (4, 5), (5, 6)]);
    state.commit_row_drag(2, 6, &[one, two]);

    let moved = state.buffer.contents();
    let rows: Vec<&str> = moved.lines().skip(2).collect();
    assert_eq!(
        rows,
        ["| 3 | 4 |", "| 5 | 6 |", "| 1 | 2 |"],
        "the two legal steps should have applied"
    );
    assert_eq!(state.history.undo_depth(), 1, "partial chain is one entry");

    state.history.undo(&mut state.buffer).expect("one undo");
    assert_eq!(state.buffer.contents(), src);
}

#[test]
fn a_chain_refused_outright_records_nothing() {
    let src = "| a | b |\n|---|---|\n| 1 | 2 |\n";
    let mut state = state_of(src, paragraph(src));

    state.commit_row_drag(2, 3, &[]);

    assert_eq!(state.buffer.contents(), src);
    assert_eq!(state.history.undo_depth(), 0);
    assert!(!state.dirty, "a refused chain must not dirty the buffer");
}

#[test]
fn longest_word_cells_splits_cjk_like_the_renderer() {
    assert_eq!(longest_word_cells("日本語日本語"), 2);
    assert_eq!(longest_word_cells("日本 hello"), 5);
}

fn cell(raw: &str) -> TableCell {
    TableCell { raw: raw.to_owned(), content_start: 0, content_end: 0 }
}

#[test]
fn natural_widths_measure_wide_glyphs_in_cells() {
    let wide = "哈".repeat(10);
    let info = TableInfo {
        start: 0,
        end: 0,
        col_count: 1,
        rows: vec![
            TableRow { start: 0, kind: RowKind::Header, cells: vec![cell(&format!(" {wide} "))] },
            TableRow { start: 0, kind: RowKind::Alignment, cells: vec![cell(" --- ")] },
            TableRow { start: 0, kind: RowKind::Data, cells: vec![cell(" 值 ")] },
        ],
    };

    assert_eq!(natural_widths(&info, &METRICS), vec![20]);
    let (widths, user) =
        current_widths_for_table(&info, &Some((0, vec![Some(7)])), &None, &METRICS);
    assert_eq!(widths, vec![7]);
    assert_eq!(user, vec![Some(7)]);
}

#[test]
fn a_dragged_border_gives_its_column_the_new_width() {
    assert_eq!(
        resize_widths(&[10, 10], &[None, None], 1, 4, 80, &METRICS),
        Some(vec![Some(14), None])
    );
    assert_eq!(
        resize_widths(&[10, 10], &[None, None], 1, -20, 80, &METRICS),
        Some(vec![Some(3), None]),
        "not below the smallest width"
    );
    assert_eq!(resize_widths(&[10], &[None], 0, 1, 80, &METRICS), None);
    assert_eq!(resize_widths(&[10], &[None], 5, 1, 80, &METRICS), None);
    assert_eq!(
        resize_widths(&[10, 10], &[None, None], 2, 100, 40, &METRICS),
        Some(vec![None, Some(23)]),
        "not past the view"
    );
}

#[test]
fn a_row_is_not_deleted_twice_in_a_moment() {
    let src = "a\nb\nc\n";
    let mut state = state_of(src, paragraph(src));
    let cut = |line: &str| EditDelta {
        offset: 0,
        removed: line.to_owned(),
        inserted: String::new(),
    };
    state.set_now(1000);
    state.delete_table_row_at(Some(cut("a\n")));
    assert_eq!(state.contents(), "b\nc\n");
    state.set_now(1100);
    assert!(!state.table_delete_allowed());
    state.set_now(1250);
    assert!(state.table_delete_allowed());
    state.delete_table_column_at(Some(cut("b\n")));
    assert_eq!(state.contents(), "c\n");
}

#[test]
fn a_click_with_control_follows_the_link_in_the_source() {
    let src = "see [docs](other.md#part)\n";
    let mut state = state_of(src, paragraph(src));
    state.mode = Mode::Rendered;
    assert!(state.follow_link_at_click(Some(6), None, None, Some(Path::new("/base"))));
    match &state.pending_link_follow {
        Some(LinkTarget::LocalFile { path, fragment }) => {
            assert_eq!(path, Path::new("/base/other.md"));
            assert_eq!(fragment.as_deref(), Some("part"));
        }
        other => panic!("not a file: {other:?}"),
    }
    assert!(!state.follow_link_at_click(Some(0), None, None, None));
}

#[test]
fn a_click_on_a_footnote_asks_for_its_definition() {
    let src = "note[^1]\n\n[^1]: text\n";
    let mut state = state_of(src, paragraph(src));
    assert!(state.follow_footnote_at_click(Some(5), None));
    assert_eq!(state.pending_link_follow, Some(LinkTarget::Footnote("1".to_owned())));
}

#[test]
fn link_runs_are_found_on_a_rendered_line() {
    let line = RenderedLine {
        spans: vec![
            Span { content: "see ".to_owned(), style: SpanStyle::Plain },
            Span { content: "the ".to_owned(), style: SpanStyle::Link },
            Span { content: "docs".to_owned(), style: SpanStyle::Link },
            Span { content: "!".to_owned(), style: SpanStyle::Plain },
        ],
    };
    assert_eq!(link_run_ranges(&line), vec![(4, 12)]);
    assert!(is_link_style(Some(3), true, &[Some(3)]));
    assert!(!is_link_style(Some(4), true, &[Some(3)]));
    assert!(!is_link_style(None, true, &[Some(3), None]));
    assert!(is_link_style(None, true, &[None]), "without colours the underline tells");
    assert!(!is_link_style(None, false, &[None]));
}

#[test]
fn the_link_under_the_pointer_is_named() {
    let src = "[a](u) and [b](v)\n";
    let line = RenderedLine {
        spans: vec![
            Span { content: "a".to_owned(), style: SpanStyle::Link },
            Span { content: " and ".to_owned(), style: SpanStyle::Plain },
            Span { content: "b".to_owned(), style: SpanStyle::Link },
        ],
    };
    let parsed =
        ParsedDoc::build(src, vec![Block::Paragraph], vec![0..18], vec![line], vec![1], true);
    let state = state_of(src, parsed);
    let runs = [
        LinkRun::Link { url: "u".to_owned(), title: None },
        LinkRun::Link { url: "v".to_owned(), title: Some("t".to_owned()) },
    ];
    assert_eq!(hovered_link_url(&state, Some((0, 6)), &runs).as_deref(), Some("v"));
    assert_eq!(hovered_link_url(&state, Some((0, 0)), &runs).as_deref(), Some("u"));
    assert_eq!(hovered_link_url(&state, Some((0, 3)), &runs), None);
    assert!(hit_test_clickable(&state, &[], Some(0), 6, Some(12), Some((0, 6)), &runs));
    assert!(!hit_test_clickable(&state, &[], Some(0), 3, Some(8), Some((0, 3)), &runs));
}

#[test]
fn words_are_found_around_a_column() {
    let chars: Vec<char> = "ab cd_e".chars().collect();
    assert_eq!(word_range_around(&chars, 4), Some((3, 7)));
    assert_eq!(word_range_around(&chars, 0), Some((0, 2)));
}

#[test]
fn the_scrollbar_puts_the_view_to_a_row() {
    let src = "a\nb\nc\nd\ne\nf\n";
    let mut state = state_of(src, paragraph(src));
    set_scroll_absolute(&mut state, 3, 6, 2);
    assert_eq!(state.scroll, 3);
    set_scroll_absolute(&mut state, 99, 6, 2);
    assert_eq!(state.scroll, 4);
}

#[test]
fn a_toggled_checkbox_comes_back() {
    let src = "- [ ] a\n- [x] b\n";
    let mut state = state_of(src, doc(src, vec![(Block::List, src, vec!["• [ ] a", "• [x] b"])]));
    state.mode = Mode::Rendered;
    assert!(is_on_checkbox(src, 3));
    assert!(!is_on_checkbox(src, 6));
    assert!(state.toggle_checkbox_at(3));
    assert_eq!(state.contents(), "- [x] a\n- [x] b\n");
    assert!(state.toggle_checkbox_at(3));
    assert_eq!(state.contents(), src);
}

#[test]
fn inline_map_for_does_not_poison_cache_with_noncanonical_text() {
    let src = "hello **world**\nsecond line\n";
    let state = state_of(src, paragraph(src));
    let kept = [straight(15), straight(11), straight(0)];
    let raw_len = |map: &InlineMap| map.to_raw.len() - 1;

    let made = straight(15);
    let wrong = state.inline_map_for(1, "hello **world**", &kept, &made);
    assert_eq!(raw_len(wrong), 15);

    let made = straight(99);
    let right = state.inline_map_for(1, "second line", &kept, &made);
    assert_eq!(raw_len(right), 11);

    let made = straight(8);
    let oob = state.inline_map_for(99, "anything", &kept, &made);
    assert_eq!(raw_len(oob), 8);
}

/// What is drawn on a screen whose top is the top of the text.
fn drawn(state: &EditorState, line: LineFacts, named: usize) -> Drawn {
    Drawn {
        top: (0, 0),
        raw_top: (0, 0),
        width: 80,
        revealed: RevealedBlock {
            is_table: false,
            band: 0,
            reflowed: false,
            reveals: true,
            cursor_line: 0,
            rows: Vec::new(),
        },
        line,
        named: (named, 0),
        runs: Vec::new(),
        kinds: None,
        pipes: Vec::new(),
        pipe_cells: Vec::new(),
        cell: None,
        cell_source: None,
        table: None,
        in_table: false,
        hover: None,
        swaps: Vec::new(),
        layout: layout(&state.contents(), 80),
        total_rows: state.parsed.line_count(),
    }
}

#[test]
fn the_pointer_is_made_from_the_cell_of_the_screen() {
    let src = "first\n\n[a](u) and [b](v)\n";
    let line = RenderedLine {
        spans: vec![
            Span { content: "a".to_owned(), style: SpanStyle::Link },
            Span { content: " and ".to_owned(), style: SpanStyle::Plain },
            Span { content: "b".to_owned(), style: SpanStyle::Link },
        ],
    };
    let blocks = vec![Block::Paragraph, Block::Paragraph];
    let parsed =
        ParsedDoc::build(src, blocks, vec![0..6, 7..25], vec![shown("first"), line], vec![1, 1], true);
    let mut state = state_of(src, parsed);
    state.mode = Mode::Preview;
    state.parsed.ensure_visual_rows(80, &vec![1, 1, 1]);
    let mut f = facts("a and b", "[a](u) and [b](v)", 80);
    f.cursor_line = 9;
    f.map = InlineMap { to_raw: vec![1, 6, 7, 8, 9, 10, 12, 17] };
    let mut d = drawn(&state, f, 2);
    d.runs = vec![
        LinkRun::Link { url: "#u".to_owned(), title: None },
        LinkRun::Link { url: "https://v".to_owned(), title: None },
    ];
    let p = state.pointer_at(6, 2, d, None);
    assert_eq!(p.shown, Some((2, 6)));
    assert_eq!(p.offset, Some(7 + 12));
    assert_eq!(p.link, Some(LinkTarget::Url("https://v".to_owned())));
    assert_eq!((p.image, p.cell, p.band), (None, None, None));

    let d = drawn(&state, facts("first", "first", 80), 0);
    let p = state.pointer_at(2, 0, d, None);
    assert_eq!((p.shown, p.offset, p.link), (Some((0, 2)), Some(2), None));

    let d = drawn(&state, facts("", "", 80), 9);
    let p = state.pointer_at(0, 7, d, None);
    assert_eq!((p.shown, p.offset), (None, Some(src.chars().count())), "below the text");

    state.mode = Mode::Raw;
    let d = drawn(&state, facts("a and b", "[a](u) and [b](v)", 80), 2);
    let p = state.pointer_at(3, 2, d, None);
    assert_eq!(p.offset, Some(10));

    state.enter_diff_mode();
    let d = drawn(&state, facts("a and b", "[a](u) and [b](v)", 80), 2);
    let p = state.pointer_at(3, 2, d, None);
    assert_eq!(p.offset, None, "a review answers to clicks by itself");
}

#[test]
fn a_click_in_a_review_leaves_the_text_alone() {
    let src = "hello world\n";
    let mut state = state_of(src, paragraph(src));
    state.mode = Mode::Rendered;
    state.enter_diff_mode();
    assert_eq!(state.mode, Mode::Diff);
    let mut target: Option<DragTarget> = None;
    for action in [
        MouseAction::Click { ctrl: false },
        MouseAction::Click { ctrl: true },
        MouseAction::DoubleClick,
        MouseAction::TripleClick,
    ] {
        let mut p = pointer(&state, 3, 3, None);
        p.offset = None;
        assert!(!act(&mut state, action, p, &mut target));
        assert_eq!(state.cursor.offset, 0);
        assert!(state.selection.is_none() && !state.drag_in_progress);
        assert!(target.is_none());
    }
    assert!(!hit_test_clickable(&state, &[], Some(0), 3, None, None, &[]));
}

#[test]
fn a_pointer_on_a_formula_knows_the_image() {
    let src = "$$\nx\n$$\n";
    let formula = Block::ImageBlock {
        alt: String::new(),
        url: "diagram-latex-1".to_owned(),
        diagram: Some(DiagramSource::Latex("x".to_owned())),
    };
    let mut state = state_of(src, doc(src, vec![(formula, src, vec!["", "", ""])]));
    state.mode = Mode::Rendered;
    state.parsed.ensure_visual_rows(80, &vec![1, 1, 1]);
    let d = drawn(&state, facts("", "x", 80), 1);
    let p = state.pointer_at(0, 1, d, None);
    assert_eq!(p.image, Some((0, Some(4))));
}

#[test]
fn a_click_within_a_formula_does_not_hide_its_source() {
    let src = "$$\nx\ny\n$$\n\nbelow\n";
    let formula = Block::ImageBlock {
        alt: String::new(),
        url: "diagram-latex-1".to_owned(),
        diagram: Some(DiagramSource::Latex("x".to_owned())),
    };
    let parsed = doc(
        src,
        vec![
            (formula, "$$\nx\ny\n$$\n", vec!["", "", "", ""]),
            (Block::Paragraph, "below\n", vec!["below"]),
        ],
    );
    let mut state = state_of(src, parsed);
    state.mode = Mode::Rendered;
    state.cursor.offset = 3;
    state.update_cursor_block();
    let mut target: Option<DragTarget> = None;
    click(&mut state, 0, 5, &mut target);
    assert_eq!(state.cursor.offset, 5);
    assert!(!state.drag_in_progress, "another line of the same block");
    click(&mut state, 0, 11, &mut target);
    assert!(state.drag_in_progress, "another block");
}
