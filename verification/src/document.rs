//! Texts, and the documents that are rendered of them.

pub mod buffer;
pub mod cursor;
pub mod graphemes;
pub mod history;
pub mod laws;
pub mod parsed_doc;
pub mod paths;
pub mod rope;
pub mod selection;
pub mod source_map;
pub mod text_map;
pub mod visual_cache;

pub use buffer::{Buffer, LineEnding};
pub use cursor::Cursor;
pub use history::{EditDelta, History};
pub use parsed_doc::ParsedDoc;
pub use selection::{CellBand, Selection, VisualSelection};
pub use source_map::SourceMap;
