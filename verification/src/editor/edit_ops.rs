//! What keys do.

pub mod action;
pub mod apply;
pub mod base64;
pub mod basic;
pub mod command_laws;
pub mod edits;
pub mod emphasis;
pub mod history_laws;
pub mod list_laws;
pub mod list_ops;
pub mod moves;
pub mod rendered_laws;
pub mod snippets;
pub mod move_laws;
pub mod typing_laws;

pub use action::{Action, Near, Outcome};
pub use apply::{apply, apply_delete_run, apply_insert_run, paste_text};
pub use edits::clipboard_text;
pub use snippets::{
    cursor_block_allows_inline_markdown, delete_footnote_at_cursor, fix_list_numbering,
    insert_footnote_at_cursor, insert_image_at_cursor, insert_image_reference_at_cursor,
    insert_link_at_cursor, insert_table_at_cursor, renumber_footnotes, FixListNumbering,
};
