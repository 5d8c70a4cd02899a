use vstd::prelude::*;

verus! {

/// Where the next edit lands.
pub struct Cursor {
    pub position: CursorPosition,
}

/// A (logical line, column) address into a document.
///
/// `col_num` is carried along but no edit reads it yet: edits go to the end
/// of the line that `line_num` selects.
#[derive(Clone, Copy, Debug, PartialEq, Eq, Structural)]
pub struct CursorPosition {
    pub line_num: u32,
    pub col_num: u32,
}

impl Cursor {
    pub fn new() -> (r: Cursor)
        ensures
            r.position.line_num == 0,
            r.position.col_num == 0,
    {
        Cursor { position: CursorPosition::new() }
    }
}

impl CursorPosition {
    pub fn new() -> (r: CursorPosition)
        ensures
            r.line_num == 0,
            r.col_num == 0,
    {
        CursorPosition { line_num: 0, col_num: 0 }
    }
}

} // verus!
