//! Cursor movements of the renderer of the first screen model.

use vstd::prelude::*;

verus! {

/// A movement of the cursor by one step, or to an end of the line.
#[derive(Debug, Clone, Copy, PartialEq, Eq, Structural)]
pub enum CursorMove {
    Up,
    Down,
    Left,
    Right,
    Next,
    Prev,
    LeftMost,
    RightMost,
}

} // verus!
