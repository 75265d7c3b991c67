//! Configuration of file preview panes.
use vstd::prelude::*;

verus! {

/// Which files a side-by-side preview shows; either pane may be absent.
pub struct FilePreviewSpec {
    /// The left pane, if any.
    pub left_pane: Option<FilePreviewPaneSpec>,
    /// The right pane, if any.
    pub right_pane: Option<FilePreviewPaneSpec>,
}

/// One preview pane: the file it shows.
pub struct FilePreviewPaneSpec {
    /// Path of the file to display.
    pub file: String,
}

} // verus!
