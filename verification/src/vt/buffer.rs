//! A growing grid of characters with a cursor.

use vstd::prelude::*;

verus! {

/// A position in the buffer: column `x` of line `y`.
#[derive(Debug, Clone, Copy, PartialEq, Eq, Structural)]
pub struct Position {
    pub x: usize,
    pub y: usize,
}

impl Position {
    pub fn new(x: usize, y: usize) -> (p: Self)
        ensures
            p == (Position { x, y }),
    {
        Position { x, y }
    }
}

/// Lines of `width` characters; a line is added whenever the cursor moves below the last.
pub struct Buffer {
    pub width: usize,
    pub cursor: Position,
    pub data: Vec<Vec<char>>,
}

/// A cursor movement inside the buffer.
#[derive(Debug, Clone, Copy, PartialEq, Eq, Structural)]
pub enum CursorMove {
    Up,
    Down,
    Left,
    Right,
    Next,
    Prev,
    LeftMost,
    RightMost,
}

impl Buffer {
    /// The lines as sequences of characters.
    pub open spec fn lines(&self) -> Seq<Seq<char>> {
        self.data@.map_values(|l: Vec<char>| l@)
    }

    /// A line of `width` blanks.
    pub open spec fn blank_line(width: usize) -> Seq<char> {
        Seq::new(width as nat, |i: int| ' ')
    }

    /// A buffer of one blank line with the cursor at its start.
    pub fn new(width: usize) -> (b: Self)
        ensures
            b.width == width,
            b.cursor == (Position { x: 0, y: 0 }),
            b.lines() == seq![Self::blank_line(width)],
    {
        let mut b = Buffer { width, cursor: Position::new(0, 0), data: Vec::new() };
        b.add_newline();
        assert(b.lines() =~= seq![Self::blank_line(width)]);
        b
    }

    /// Writes `c` under the cursor.
    pub fn put_char(&mut self, c: char)
        requires
            old(self).cursor.y < old(self).data@.len(),
            old(self).cursor.x < old(self).data@[old(self).cursor.y as int]@.len(),
        ensures
            final(self).width == old(self).width,
            final(self).cursor == old(self).cursor,
            final(self).lines() == old(self).lines().update(
                old(self).cursor.y as int,
                old(self).lines()[old(self).cursor.y as int].update(old(self).cursor.x as int, c),
            ),
    {
        let y = self.cursor.y;
        let x = self.cursor.x;
        let ghost before = self.lines();
        let mut line = self.data[y].clone();
        assert(line@ =~= before[y as int]);
        line.set(x, c);
        self.data.set(y, line);
        assert(self.lines() =~= before.update(y as int, before[y as int].update(x as int, c)));
    }

    /// Moves the cursor to `p`.
    pub fn set_cursor_pos(&mut self, p: Position)
        ensures
            final(self).cursor == p,
            final(self).width == old(self).width,
            final(self).data@ == old(self).data@,
    {
        self.cursor = p;
    }

    /// Moves the cursor; `false` where an edge stops a single step.
    ///
    /// `Next` and `Prev` wrap to the neighbouring line; moving below the last
    /// line adds blank lines.
    pub fn move_cursor(&mut self, m: CursorMove) -> (moved: bool)
        requires
            (m is Right || m is RightMost || m is Next || m is Prev) ==> old(self).width > 0,
            (m is Down || m is Next) ==> old(self).cursor.y < usize::MAX,
        ensures
            final(self).width == old(self).width,
            move_result(old(self).cursor, old(self).width, m) == (final(self).cursor, moved),
            final(self).lines().len() == if (m is Down || (m is Next && old(self).cursor.x + 1 >= old(self).width))
                && old(self).lines().len() <= final(self).cursor.y {
                final(self).cursor.y + 1
            } else {
                old(self).lines().len() as int
            },
            forall|i: int| 0 <= i < old(self).lines().len() ==> #[trigger] final(self).lines()[i] == old(self).lines()[i],
            forall|i: int|
                old(self).lines().len() <= i < final(self).lines().len() ==> #[trigger] final(self).lines()[i]
                    == Self::blank_line(old(self).width),
        decreases (if m is Next || m is Prev { 1int } else { 0int }),
    {
        match m {
            CursorMove::Up => {
                if self.cursor.y > 0 {
                    self.cursor.y = self.cursor.y - 1;
                    true
                } else {
                    false
                }
            },
            CursorMove::Down => {
                self.cursor.y = self.cursor.y + 1;
                self.add_newline();
                true
            },
            CursorMove::Left => {
                if self.cursor.x > 0 {
                    self.cursor.x = self.cursor.x - 1;
                    true
                } else {
                    false
                }
            },
            CursorMove::LeftMost => {
                self.cursor.x = 0;
                true
            },
            CursorMove::RightMost => {
                self.cursor.x = self.width - 1;
                true
            },
            CursorMove::Right => {
                if self.cursor.x < self.width - 1 {
                    self.cursor.x = self.cursor.x + 1;
                    true
                } else {
                    false
                }
            },
            CursorMove::Next => {
                if !self.move_cursor(CursorMove::Right) {
                    self.move_cursor(CursorMove::LeftMost);
                    self.move_cursor(CursorMove::Down);
                }
                true
            },
            CursorMove::Prev => {
                if !self.move_cursor(CursorMove::Left) {
                    self.move_cursor(CursorMove::RightMost);
                    self.move_cursor(CursorMove::Up);
                }
                true
            },
        }
    }

    /// Adds blank lines until the cursor's line exists.
    fn add_newline(&mut self)
        ensures
            final(self).width == old(self).width,
            final(self).cursor == old(self).cursor,
            final(self).lines().len() == if old(self).cursor.y < old(self).lines().len() {
                old(self).lines().len() as int
            } else {
                old(self).cursor.y + 1
            },
            forall|i: int| 0 <= i < old(self).lines().len() ==> #[trigger] final(self).lines()[i] == old(self).lines()[i],
            forall|i: int|
                old(self).lines().len() <= i < final(self).lines().len() ==> #[trigger] final(self).lines()[i]
                    == Self::blank_line(old(self).width),
    {
        let ghost before = self.lines();
        while self.cursor.y >= self.data.len()
            invariant
                self.width == old(self).width,
                self.cursor == old(self).cursor,
                self.data@.len() >= before.len(),
                self.data@.len() <= self.cursor.y + 1 || self.data@.len() == before.len(),
                forall|i: int| 0 <= i < before.len() ==> #[trigger] self.lines()[i] == before[i],
                forall|i: int|
                    before.len() <= i < self.data@.len() ==> #[trigger] self.lines()[i] == Self::blank_line(
                        self.width,
                    ),
                before == old(self).lines(),
            decreases self.cursor.y + 1 - self.data@.len(),
        {
            let line = vec![' '; self.width];
            assert(line@ =~= Self::blank_line(self.width));
            let ghost prev = self.lines();
            self.data.push(line);
            assert(self.lines() =~= prev.push(Self::blank_line(self.width)));
        }
    }
}

/// Where a movement takes the cursor and whether it moved, in a buffer of
/// lines `width` characters long.
pub open spec fn move_result(c: Position, width: usize, m: CursorMove) -> (Position, bool) {
    match m {
        CursorMove::Up => if c.y > 0 {
            (Position { y: (c.y - 1) as usize, ..c }, true)
        } else {
            (c, false)
        },
        CursorMove::Down => (Position { y: (c.y + 1) as usize, ..c }, true),
        CursorMove::Left => if c.x > 0 {
            (Position { x: (c.x - 1) as usize, ..c }, true)
        } else {
            (c, false)
        },
        CursorMove::LeftMost => (Position { x: 0, ..c }, true),
        CursorMove::RightMost => (Position { x: (width - 1) as usize, ..c }, true),
        CursorMove::Right => if c.x < width - 1 {
            (Position { x: (c.x + 1) as usize, ..c }, true)
        } else {
            (c, false)
        },
        CursorMove::Next => if c.x < width - 1 {
            (Position { x: (c.x + 1) as usize, ..c }, true)
        } else {
            (Position { x: 0, y: (c.y + 1) as usize }, true)
        },
        CursorMove::Prev => if c.x > 0 {
            (Position { x: (c.x - 1) as usize, ..c }, true)
        } else if c.y > 0 {
            (Position { x: (width - 1) as usize, y: (c.y - 1) as usize }, true)
        } else {
            (Position { x: (width - 1) as usize, ..c }, true)
        },
    }
}

} // verus!
