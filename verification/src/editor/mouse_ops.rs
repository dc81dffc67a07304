//! What the mouse does.

pub mod checkbox;
pub mod click;
pub mod click_laws;
pub mod coord;
pub mod drag_commit;
pub mod events;
pub mod follow;
pub mod footnotes;
pub mod hits;
pub mod laws;
pub mod links;
pub mod mouse;
pub mod pick;
pub mod place_laws;
pub mod point;
pub mod preview;
pub mod screen;
pub mod selection;
pub mod table_drag;

pub use events::{DragTarget, MouseAction, Pointer};
pub use hits::{hit_test_clickable, hit_test_clickable_non_link, hovered_link_url};
pub use mouse::apply;
pub use pick::{scroll_by_mouse, set_scroll_absolute};
pub use point::Drawn;
