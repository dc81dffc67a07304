//! Lists in the source: finding them, editing them, and what holds of both.

pub mod edit;
pub mod edit_laws;
pub mod growth;
pub mod laws;
pub mod nest;
pub mod parse;
pub mod renumber;
pub mod room;
pub mod toggle;

pub use edit::{
    continue_item, exit_list, indent_item, is_blank_line_above, outdent_item, renumber_list_block,
    space_out_empty_item, toggle_checkbox,
};
pub use parse::{cursor_item_idx, find_list_at, ListInfo, ListItemInfo, MarkerKind};
