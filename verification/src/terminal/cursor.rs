//! The cursor: a cell of the screen, and whether it has moved past the last column.

use vstd::prelude::*;

use super::{CursorStyle, TerminalSize};

verus! {

/// Where the next character goes.  `end` means the last character written
/// filled the last column, so that the next one wraps.
#[derive(Debug, Clone, Copy, PartialEq, Eq, Structural)]
pub struct Cursor {
    pub sz: TerminalSize,
    pub row: usize,
    pub col: usize,
    pub end: bool,
    pub style: CursorStyle,
}

/// The block cursor at the top left corner of a screen of size `sz`.
pub open spec fn origin(sz: TerminalSize) -> Cursor {
    Cursor { sz, row: 0, col: 0, end: false, style: CursorStyle::Block }
}

impl Cursor {
    /// The cursor lies on the screen, which has at least one row and column,
    /// and `end` is only set in the last column.
    pub open spec fn wf(self) -> bool {
        &&& self.sz.rows >= 1
        &&& self.sz.cols >= 1
        &&& self.row < self.sz.rows
        &&& self.col < self.sz.cols
        &&& (self.end ==> self.col == self.sz.cols - 1)
    }

    /// A cursor at the top left corner of a screen of size `sz`.
    pub fn new(sz: TerminalSize) -> (c: Self)
        ensures
            c == origin(sz),
    {
        Cursor { sz, row: 0, col: 0, end: false, style: CursorStyle::Block }
    }

    /// Row and column.
    pub fn pos(&self) -> (p: (usize, usize))
        ensures
            p == (self.row, self.col),
    {
        (self.row, self.col)
    }

    /// Columns left for a character: none past the last column.
    pub fn right_space(&self) -> (n: usize)
        requires
            self.wf(),
        ensures
            n == if self.end { 0 } else { self.sz.cols - self.col },
    {
        if self.end {
            0
        } else {
            self.sz.cols - self.col
        }
    }

    /// The cursor at the first column of its row.
    pub open spec fn first_col_spec(self) -> Cursor {
        Cursor { end: false, col: 0, ..self }
    }

    /// The cursor one column to the right, or past the last column.
    pub open spec fn next_col_spec(self) -> Cursor {
        if self.col + 1 < self.sz.cols {
            Cursor { col: (self.col + 1) as usize, ..self }
        } else {
            Cursor { end: true, ..self }
        }
    }

    /// The cursor one column to the left.
    pub open spec fn prev_col_spec(self) -> Cursor {
        if self.end {
            Cursor { end: false, ..self }
        } else if 0 < self.col {
            Cursor { col: (self.col - 1) as usize, ..self }
        } else {
            self
        }
    }

    /// The cursor one row down, unchanged at the last row.
    pub open spec fn next_row_spec(self) -> Cursor {
        if self.row + 1 < self.sz.rows {
            Cursor { end: false, row: (self.row + 1) as usize, ..self }
        } else {
            Cursor { end: false, ..self }
        }
    }

    /// The cursor one row up, unchanged at the first row.
    pub open spec fn prev_row_spec(self) -> Cursor {
        if self.row > 0 {
            Cursor { end: false, row: (self.row - 1) as usize, ..self }
        } else {
            Cursor { end: false, ..self }
        }
    }

    /// The cursor at `row`, `col`, each cut to the screen.
    pub open spec fn exact_spec(self, row: usize, col: usize) -> Cursor {
        Cursor {
            row: if row < self.sz.rows { row } else { (self.sz.rows - 1) as usize },
            col: if col < self.sz.cols { col } else { (self.sz.cols - 1) as usize },
            end: false,
            ..self
        }
    }

    /// The cursor at `row`, `col`, each cut to the screen.
    pub fn exact(self, row: usize, col: usize) -> (c: Self)
        requires
            self.sz.rows >= 1,
            self.sz.cols >= 1,
        ensures
            c == self.exact_spec(row, col),
            c.wf(),
    {
        let mut c = self;
        c.row = if row < self.sz.rows {
            row
        } else {
            self.sz.rows - 1
        };
        c.col = if col < self.sz.cols {
            col
        } else {
            self.sz.cols - 1
        };
        c.end = false;
        c
    }

    /// The cursor at the first column of its row.
    pub fn first_col(self) -> (c: Self)
        requires
            self.wf(),
        ensures
            c == self.first_col_spec(),
            c.wf(),
    {
        let mut c = self;
        c.end = false;
        c.col = 0;
        c
    }

    /// The cursor one column to the right, or past the last column.
    pub fn next_col(self) -> (c: Self)
        requires
            self.wf(),
        ensures
            c == self.next_col_spec(),
            c.wf(),
    {
        let mut c = self;
        if c.col + 1 < c.sz.cols {
            c.col += 1;
        } else {
            c.end = true;
        }
        c
    }

    /// The cursor one column to the left: back onto the last column if it
    /// was past it, unchanged at the first column.
    pub fn prev_col(self) -> (c: Self)
        requires
            self.wf(),
        ensures
            c == self.prev_col_spec(),
            c.wf(),
    {
        let mut c = self;
        if c.end {
            c.end = false;
        } else if 0 < c.col {
            c.col -= 1;
        }
        c
    }

    /// The cursor one row down, unchanged at the last row; no longer past the last column.
    pub fn next_row(self) -> (c: Self)
        requires
            self.wf(),
        ensures
            c == self.next_row_spec(),
            c.wf(),
    {
        let mut c = self;
        c.end = false;
        if c.row + 1 < c.sz.rows {
            c.row += 1;
        }
        c
    }

    /// The cursor one row up, unchanged at the first row; no longer past the last column.
    pub fn prev_row(self) -> (c: Self)
        requires
            self.wf(),
        ensures
            c == self.prev_row_spec(),
            c.wf(),
    {
        let mut c = self;
        c.end = false;
        if c.row > 0 {
            c.row -= 1;
        }
        c
    }
}

} // verus!
