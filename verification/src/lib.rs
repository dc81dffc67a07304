//! The core of a Markdown editor for the terminal.
//!
//! [`document`] holds texts and what is rendered of them, [`editor`] the editor's state and
//! what keys and the mouse do to it.

pub mod cells;
pub mod document;
pub mod editor;
pub mod text;
