//! The editor's modes.

use vstd::prelude::*;
use vstd::string::*;

verus! {

/// The editor's rendering and interaction mode.
#[derive(Debug, Clone, Copy, PartialEq, Eq, Structural)]
pub enum Mode {
    /// Read-only preview, without a cursor. Files open in it.
    Preview,
    /// Rendered text with the line of the cursor shown raw.
    Rendered,
    /// The whole document as plain text.
    Raw,
    /// A review of differences, which takes the clicks and keys on itself.
    Diff,
}

impl Default for Mode {
    fn default() -> (r: Self)
        ensures
            r == Mode::Preview,
    {
        Mode::Preview
    }
}

impl Mode {
    /// The name that the status bar shows.
    pub open spec fn label_view(self) -> Seq<char> {
        match self {
            Mode::Preview => "PREVIEW"@,
            Mode::Rendered => "EDIT"@,
            Mode::Raw => "RAW"@,
            Mode::Diff => "DIFF"@,
        }
    }

    /// The name that the status bar shows.
    pub fn label(&self) -> (r: String)
        ensures
            r@ == self.label_view(),
    {
        match self {
            Mode::Preview => "PREVIEW".to_owned(),
            Mode::Rendered => "EDIT".to_owned(),
            Mode::Raw => "RAW".to_owned(),
            Mode::Diff => "DIFF".to_owned(),
        }
    }
}

} // verus!
