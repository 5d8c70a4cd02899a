//! Text model of a single-panel editor: the document's logical lines, the
//! cursor that anchors edits, and the reflow of logical lines into
//! width-bounded physical lines.

pub mod cursor;
pub mod measure;
pub mod wrap;
pub mod document;
pub mod panel;
