//! The editor: its state, and what changes it.

pub mod blink;
pub mod byte_edit;
pub mod edit_ops;
pub mod footnote_edit;
pub mod laws;
pub mod link;
pub mod list_edit;
pub mod mode;
pub mod motion;
pub mod mouse_ops;
pub mod state;
pub mod state_cursor_block;
pub mod state_cursor_visual;
pub mod state_flow;
pub mod state_rows;
pub mod state_section_path;
pub mod state_settings;
pub mod table_edit;
pub mod view_laws;
pub mod wrap;

pub use link::LinkTarget;
pub use mode::Mode;
pub use state::EditorState;
