//! Editing: typing, deleting, the clipboard, lists, markup and history.

use edamame::cells::{char_cells, text_cells};
use edamame::document::buffer::Buffer;
use edamame::document::history::EditDelta;
use edamame::document::parsed_doc::{Block, ParsedDoc, RenderedLine, Span, SpanStyle};
use edamame::document::selection::Selection;
use edamame::editor::blink::CursorBlink;
use edamame::editor::edit_ops::action::{Action, Near, Outcome, Scrolling, TableCommand};
use edamame::editor::edit_ops::apply::{apply, apply_delete_run, apply_insert_run, paste_text};
use edamame::editor::edit_ops::edits::text_for_char;
use edamame::editor::edit_ops::emphasis::{is_marker_wrapped, outside_wrapped};
use edamame::editor::edit_ops::snippets::{
    cursor_block_allows_inline_markdown, delete_footnote_at_cursor, fix_list_numbering,
    insert_footnote_at_cursor, insert_image_at_cursor, insert_link_at_cursor, renumber_footnotes,
    FixListNumbering,
};
use edamame::editor::footnote_edit::scan;
use edamame::editor::mode::Mode;
use edamame::editor::state::EditorState;
use edamame::editor::wrap::{Layout, LineWrap, WrapRow};
use std::ops::Range;
use std::path::Path;

fn shown(text: &str) -> RenderedLine {
    RenderedLine { spans: vec![Span { content: text.to_owned(), style: SpanStyle::Plain }] }
}

/// A document of the given blocks, each with its source and its rendered lines.
fn doc(source: &str, parts: Vec<(Block, &str, Vec<&str>)>) -> ParsedDoc {
    let mut blocks: Vec<Block> = Vec::new();
    let mut ranges: Vec<Range<usize>> = Vec::new();
    let mut lines: Vec<RenderedLine> = Vec::new();
    let mut counts: Vec<usize> = Vec::new();
    let mut from = 0;
    for (block, piece, texts) in parts {
        let start = from + source[from..].find(piece).expect("the block's source");
        from = start + piece.len();
        blocks.push(block);
        ranges.push(start..from);
        counts.push(texts.len());
        for text in texts {
            lines.push(shown(text));
        }
    }
    ParsedDoc::build(source, blocks, ranges, lines, counts, true)
}

/// A document of one paragraph that is rendered line by line.
fn paragraph(source: &str) -> ParsedDoc {
    doc(source, vec![(Block::Paragraph, source, source.lines().collect())])
}

fn state_of(source: &str, parsed: ParsedDoc) -> EditorState {
    EditorState::new(Buffer::from_str(source), parsed, 0, 4)
}

/// The rows of a line at a width, broken at spaces; rows but the first are `indent`
/// cells narrower.
fn wrap_line(text: &str, width: usize, indent: usize) -> LineWrap {
    let chars: Vec<char> = text.chars().collect();
    let mut rows: Vec<WrapRow> = Vec::new();
    let mut start = 0;
    loop {
        let room = if rows.is_empty() { width } else { width - indent };
        if chars.len() - start <= room {
            rows.push(WrapRow { start, end: chars.len(), next: chars.len() });
            return LineWrap { rows, indent };
        }
        let space = (start + 1..=start + room).rev().find(|i| chars[*i] == ' ');
        let (end, next) = match space {
            Some(i) => (i, i + 1),
            None => (start + room, start + room),
        };
        rows.push(WrapRow { start, end, next });
        start = next;
    }
}

/// How a text is laid out, with the given indentation of wrapped rows.
fn layout_with(text: &str, width: usize, indent: impl Fn(&str) -> usize) -> Layout {
    let wraps: Vec<LineWrap> =
        text.split('\n').map(|l| wrap_line(l, width, indent(l))).collect();
    let alignment = vec![false; wraps.len()];
    Layout { width, wraps, alignment }
}

fn layout(text: &str, width: usize) -> Layout {
    layout_with(text, width, |l| if l.starts_with("- ") { 2 } else { 0 })
}

/// What is known around the cursor of a state.
fn near(state: &EditorState) -> Near {
    let text = state.contents();
    Near {
        height: 24,
        in_table: false,
        cell: None,
        layout: layout(&text, 80),
        above: state.cursor.line_col(&state.buffer).0,
        flat: wrap_line("", 80, 0),
        clipboard: None,
    }
}

/// Renders the document anew, as one paragraph, where the state asks for it.
fn render(state: &mut EditorState) {
    if state.reparse_due {
        let source = state.contents();
        let parsed = paragraph(&source);
        let rows = parsed.line_count();
        state.install_parsed(parsed, rows);
    }
}

fn act(state: &mut EditorState, action: Action) -> Outcome {
    render(state);
    let n = near(state);
    let out = apply(state, action, &n);
    render(state);
    out
}

fn editing(source: &str, offset: usize) -> EditorState {
    let mut state = state_of(source, paragraph(source));
    state.mode = Mode::Rendered;
    state.put_cursor(offset);
    state
}

#[test]
fn paste_normalizes_crlf_to_lf() {
    let mut state = state_of("", paragraph(""));
    state.mode = Mode::Raw;
    paste_text(&mut state, "one\r\ntwo\r\n", 24);
    let contents = state.buffer.contents();
    assert!(
        !contents.contains('\r'),
        "rope must hold no CR: {contents:?}"
    );
    assert_eq!(contents, "one\ntwo\n");
}

#[test]
fn paste_into_crlf_buffer_does_not_double_cr_on_save() {
    let buffer = Buffer::loaded(Path::new("crlf.md"), "a\r\nb\r\n".to_owned());
    let parsed = paragraph(&buffer.contents());
    let mut state = EditorState::new(buffer, parsed, 0, 4);
    state.mode = Mode::Raw;
    state.cursor.offset = 0;

    paste_text(&mut state, "X\r\n", 24);
    assert_eq!(state.buffer.encoded_contents(), "X\r\na\r\nb\r\n");
}

#[test]
fn typed_characters_are_undone_at_once_and_redone() {
    let mut state = editing("ac\n", 1);
    act(&mut state, Action::InsertChar('b'));
    act(&mut state, Action::InsertChar('!'));
    assert_eq!(state.contents(), "ab!c\n");
    assert_eq!(state.cursor.offset, 3);
    assert!(state.dirty);
    act(&mut state, Action::Undo);
    assert_eq!(state.contents(), "ac\n");
    assert_eq!(state.cursor.offset, 1);
    act(&mut state, Action::Redo);
    assert_eq!(state.contents(), "ab!c\n");
}

#[test]
fn typing_in_the_preview_begins_to_edit() {
    let mut state = state_of("ac\n", paragraph("ac\n"));
    act(&mut state, Action::InsertChar('b'));
    assert_eq!(state.mode, Mode::Rendered);
    assert_eq!(state.contents(), "ac\n", "the first key only begins");
    act(&mut state, Action::InsertChar('b'));
    assert_eq!(state.contents(), "bac\n");
}

#[test]
fn a_readonly_document_is_not_changed() {
    let src = "- a\n- b\n";
    let mut state = state_of(src, paragraph(src));
    state.readonly = true;
    for action in [
        Action::InsertChar('x'),
        Action::Newline,
        Action::InsertTab,
        Action::DeleteCharBack,
        Action::DeleteLine,
        Action::Paste,
        Action::BoldSelection,
        Action::ToggleCheckbox,
    ] {
        act(&mut state, action);
        assert_eq!(state.contents(), src);
    }
}

#[test]
fn moving_leaves_the_text_alone() {
    let src = "one two\nthree\n";
    let mut state = editing(src, 5);
    for action in [
        Action::MoveLeft,
        Action::MoveRight,
        Action::MoveUp,
        Action::MoveDown,
        Action::MoveWordLeft,
        Action::MoveWordRight,
        Action::MoveLineStart,
        Action::MoveLineEnd,
        Action::SelectRight,
        Action::SelectDown,
        Action::SelectAll,
        Action::MoveDocEnd,
    ] {
        act(&mut state, action);
        assert_eq!(state.contents(), src);
        assert!(!state.dirty);
    }
    assert_eq!(state.cursor.offset, src.len());
}

#[test]
fn selecting_grows_from_where_it_began() {
    let mut state = editing("hello\n", 1);
    act(&mut state, Action::SelectRight);
    act(&mut state, Action::SelectRight);
    assert_eq!(state.selection, Some(Selection { anchor: 1, active: 3 }));
    act(&mut state, Action::SelectLeft);
    assert_eq!(state.selection, Some(Selection { anchor: 1, active: 2 }));
    act(&mut state, Action::MoveRight);
    assert_eq!(state.selection, None);
}

#[test]
fn a_new_line_continues_the_list() {
    let mut state = editing("1. a\n2. b\n", 4);
    act(&mut state, Action::Newline);
    assert_eq!(state.contents(), "1. a\n2. \n3. b\n");
    assert_eq!(state.cursor.offset, 8);
}

#[test]
fn three_new_lines_leave_the_list() {
    let mut state = editing("- a", 3);
    act(&mut state, Action::Newline);
    assert_eq!(state.contents(), "- a\n- ");
    act(&mut state, Action::Newline);
    assert_eq!(state.contents(), "- a\n\n- ");
    act(&mut state, Action::Newline);
    assert_eq!(state.contents(), "- a\n\n");
    assert_eq!(state.cursor.offset, 5);
}

#[test]
fn a_tab_nests_an_item_and_its_reverse_brings_it_back() {
    let mut state = editing("- a\n- b\n", 6);
    act(&mut state, Action::InsertTab);
    assert_eq!(state.contents(), "- a\n    - b\n");
    render(&mut state);
    assert!(state.list_outdent());
    assert_eq!(state.contents(), "- a\n- b\n");
}

#[test]
fn a_tab_outside_a_list_is_blanks() {
    let mut state = editing("ab\n", 1);
    act(&mut state, Action::InsertTab);
    assert_eq!(state.contents(), "a    b\n");
}

#[test]
fn deleting_takes_whole_characters_words_and_lines() {
    let mut state = editing("one two\nthree\n", 7);
    act(&mut state, Action::DeleteCharBack);
    assert_eq!(state.contents(), "one tw\nthree\n");
    act(&mut state, Action::DeleteWordBack);
    assert_eq!(state.contents(), "one \nthree\n");
    act(&mut state, Action::DeleteCharForward);
    assert_eq!(state.contents(), "one three\n");
    act(&mut state, Action::DeleteWordForward);
    assert_eq!(state.contents(), "one ");
    act(&mut state, Action::DeleteLine);
    assert_eq!(state.contents(), "");
}

#[test]
fn a_family_of_faces_is_deleted_as_one() {
    let mut state = editing("a👨\u{200D}👩\u{200D}👧\u{200D}👦", 8);
    act(&mut state, Action::DeleteCharBack);
    assert_eq!(state.contents(), "a");
}

#[test]
fn deleting_back_at_an_items_text_takes_the_marker() {
    let mut state = editing("- [ ] a\n", 6);
    act(&mut state, Action::DeleteCharBack);
    assert_eq!(state.contents(), "- a\n");
    act(&mut state, Action::DeleteCharBack);
    assert_eq!(state.contents(), "a\n");
}

#[test]
fn what_is_copied_is_pasted() {
    let mut state = editing("hello world\n", 0);
    state.select(Some(Selection { anchor: 0, active: 5 }));
    let out = act(&mut state, Action::Copy);
    assert_eq!(out.copy.as_deref(), Some("hello"));
    assert_eq!(state.kill_ring, "hello");
    state.select(None);
    state.put_cursor(11);
    act(&mut state, Action::Paste);
    assert_eq!(state.contents(), "hello worldhello\n");
}

#[test]
fn the_clipboard_of_the_system_comes_first() {
    let mut state = editing("ab\n", 1);
    let mut n = near(&state);
    n.clipboard = Some("X\r\nY".to_owned());
    apply(&mut state, Action::Paste, &n);
    assert_eq!(state.contents(), "aX\nYb\n");
}

#[test]
fn what_is_cut_is_gone_and_kept() {
    let mut state = editing("hello world\n", 0);
    state.select(Some(Selection { anchor: 5, active: 11 }));
    let out = act(&mut state, Action::Cut);
    assert_eq!(out.copy.as_deref(), Some(" world"));
    assert_eq!(state.contents(), "hello\n");
    assert_eq!(state.selection, None);
}

#[test]
fn a_copy_from_a_crlf_document_has_its_line_ends() {
    let buffer = Buffer::from_str("a\r\nb\r\n");
    let parsed = paragraph(&buffer.contents());
    let mut state = EditorState::new(buffer, parsed, 0, 4);
    state.mode = Mode::Rendered;
    state.select(Some(Selection { anchor: 0, active: 4 }));
    let out = act(&mut state, Action::Copy);
    assert_eq!(out.copy.as_deref(), Some("a\r\nb\r\n"));
    assert_eq!(state.kill_ring, "a\nb\n");
}

#[test]
fn a_wrapped_selection_is_unwrapped_by_the_same_command() {
    let src = "say hello now\n";
    let mut state = editing(src, 0);
    state.select(Some(Selection { anchor: 4, active: 9 }));
    act(&mut state, Action::BoldSelection);
    assert_eq!(state.contents(), "say **hello** now\n");
    act(&mut state, Action::BoldSelection);
    assert_eq!(state.contents(), src);
    act(&mut state, Action::ItalicizeSelection);
    assert_eq!(state.contents(), "say *hello* now\n");
}

#[test]
fn markers_are_told_from_longer_ones() {
    let star = ['*'];
    let stars = ['*', '*'];
    let text = |t: &str| t.chars().collect::<Vec<char>>();
    assert!(is_marker_wrapped(&text("*a*"), &star));
    assert!(!is_marker_wrapped(&text("**a**"), &star));
    assert!(is_marker_wrapped(&text("**a**"), &stars));
    assert!(outside_wrapped(&Buffer::from_str("*a*"), 1, 2, &star));
    assert!(!outside_wrapped(&Buffer::from_str("**a**"), 2, 3, &star));
}

#[test]
fn a_run_of_keys_is_one_edit() {
    let mut state = editing("ad\n", 1);
    assert!(apply_insert_run(&mut state, &['b', 'c'], false));
    assert_eq!(state.contents(), "abcd\n");
    render(&mut state);
    assert!(apply_delete_run(&mut state, 2, true));
    assert_eq!(state.contents(), "ad\n");
    render(&mut state);
    assert!(!apply_insert_run(&mut state, &[], false));
    assert!(state.undo());
    assert_eq!(state.contents(), "abcd\n");
}

#[test]
fn a_pipe_typed_in_a_table_is_escaped() {
    assert_eq!(text_for_char('|', true), "\\|");
    assert_eq!(text_for_char('|', false), "|");
}

#[test]
fn leaving_and_entering_the_views() {
    let mut state = editing("a\nb\n", 2);
    let out = act(&mut state, Action::ToggleRawMode);
    assert_eq!(state.mode, Mode::Raw);
    assert_eq!(out.keep_row, Some(1));
    act(&mut state, Action::ToggleRawMode);
    assert_eq!(state.mode, Mode::Rendered);
    act(&mut state, Action::ExitToPreview);
    assert_eq!(state.mode, Mode::Preview);
    act(&mut state, Action::EnterEditMode);
    assert_eq!(state.mode, Mode::Rendered);
    assert!(act(&mut state, Action::Quit).quit);
}

#[test]
fn the_key_for_the_source_does_nothing_in_a_review() {
    let mut state = editing("one\ntwo\n", 0);
    state.enter_diff_mode();
    state.scroll = 1;
    let out = act(&mut state, Action::ToggleRawMode);
    assert_eq!(state.mode, Mode::Diff);
    assert_eq!(state.scroll, 1);
    assert_eq!(out.keep_row, None);
    state.exit_diff_mode();
    assert_eq!(state.mode, Mode::Rendered);
}

#[test]
fn scrolling_is_asked_for() {
    let mut state = editing("a\n", 0);
    assert_eq!(act(&mut state, Action::ScrollDown).scrolling, Scrolling::Down(1));
    assert_eq!(act(&mut state, Action::ScrollPageUp).scrolling, Scrolling::Up(24));
    assert_eq!(act(&mut state, Action::ScrollToBottom).scrolling, Scrolling::ToBottom);
}

#[test]
fn commands_for_tables_are_passed_on() {
    let src = "| a |\n|---|\n| b |\n";
    let mut state = editing(src, 2);
    let mut n = near(&state);
    n.in_table = true;
    let out = apply(&mut state, Action::TableInsertRowBelow, &n);
    assert_eq!(out.table, Some(TableCommand::InsertRowBelow));
    assert_eq!(state.contents(), src);
}

#[test]
fn a_link_is_inserted_with_its_url_selected() {
    let mut state = editing("see \n", 4);
    assert!(insert_link_at_cursor(&mut state, 24));
    assert_eq!(state.contents(), "see [link text](file path or URL)\n");
    let sel = state.selection.expect("a placeholder is selected");
    let chosen = sel.selected_text(&state.buffer);
    assert!(chosen == "link text" || chosen == "file path or URL");
}

#[test]
fn an_image_takes_the_selected_text_for_its_name() {
    let mut state = editing("cat\n", 0);
    state.select(Some(Selection { anchor: 0, active: 3 }));
    assert!(insert_image_at_cursor(&mut state, 24));
    assert!(state.contents().contains("![cat](file path or URL)"));
}

#[test]
fn code_takes_no_links() {
    let src = "```\ncode\n```\n";
    let block = Block::CodeBlock { fenced: true };
    let mut state = state_of(src, doc(src, vec![(block, src, vec!["code"])]));
    state.mode = Mode::Rendered;
    state.put_cursor(5);
    assert!(!cursor_block_allows_inline_markdown(&state));
    assert!(!insert_link_at_cursor(&mut state, 24));
    assert_eq!(state.contents(), src);
}

#[test]
fn numbers_of_a_list_are_put_right() {
    let mut state = editing("1. a\n1. b\n5. c\n", 3);
    assert_eq!(fix_list_numbering(&mut state), FixListNumbering::Fixed);
    assert_eq!(state.contents(), "1. a\n2. b\n3. c\n");
    assert_eq!(fix_list_numbering(&mut state), FixListNumbering::AlreadyCorrect);
    let mut plain = editing("text\n", 0);
    assert_eq!(fix_list_numbering(&mut plain), FixListNumbering::NotOrdered);
}

#[test]
fn edits_of_footnotes_and_tables_are_taken_over() {
    let mut state = editing("text\n", 4);
    let note = EditDelta { offset: 4, removed: String::new(), inserted: "[^1]".to_owned() };
    insert_footnote_at_cursor(&mut state, note, 8, 24);
    assert_eq!(state.contents(), "text[^1]\n");
    assert_eq!(state.cursor.offset, 8);
    render(&mut state);
    let gone = EditDelta { offset: 4, removed: "[^1]".to_owned(), inserted: String::new() };
    assert!(delete_footnote_at_cursor(&mut state, Some(gone)));
    assert_eq!(state.contents(), "text\n");
    assert!(!delete_footnote_at_cursor(&mut state, None));
    let swapped = EditDelta { offset: 0, removed: "text".to_owned(), inserted: "TEXT".to_owned() };
    assert!(renumber_footnotes(&mut state, Some(swapped)));
    assert_eq!(state.contents(), "TEXT\n");
}

#[test]
fn the_cursor_does_not_rest_on_a_marker() {
    let mut state = editing("- one\n", 0);
    state.clamp_cursor_out_of_marker();
    assert_eq!(state.cursor.offset, 2);
    state.clamp_cursor_out_of_marker();
    assert_eq!(state.cursor.offset, 2);
    state.put_cursor(4);
    state.clamp_cursor_out_of_marker();
    assert_eq!(state.cursor.offset, 4);
}

#[test]
fn stepping_in_a_list_passes_over_markers() {
    let mut state = editing("- a\n- b\n", 3);
    assert!(state.list_move_horizontal(true));
    assert_eq!(state.cursor.offset, 6);
    assert!(state.list_move_horizontal(false));
    assert_eq!(state.cursor.offset, 3);
}

#[test]
fn footnotes_are_found_in_order() {
    let spans = scan("a[^1]\n\n[^1]: note\n");
    assert_eq!(spans.len(), 2);
    assert_eq!((spans[0].start, spans[0].end), (1, 5));
    assert_eq!(spans[0].label, "1");
    assert!(!spans[0].is_definition);
    assert!(spans[1].is_definition);
    assert_eq!(spans[1].start, 7);
}

#[test]
fn widths_are_those_of_the_terminal() {
    assert_eq!(char_cells('a'), 1);
    assert_eq!(char_cells('日'), 2);
    assert_eq!(char_cells('\u{301}'), 0);
    assert_eq!(text_cells("a日"), 3);
}

#[test]
fn the_blink_starts_anew_when_settings_come() {
    let mut blink = CursorBlink::from_config(true, 0, 10);
    assert!(blink.is_visible());
    assert_eq!(blink.next_toggle(), Some(540));
    assert!(!blink.tick(539));
    assert!(blink.tick(540));
    assert!(!blink.is_visible());
    blink.reset(600);
    assert!(blink.is_visible());
    blink.apply_config(false, 100, 700);
    assert!(!blink.is_blinking());
    assert_eq!(blink.next_toggle(), None);
}
