//! Screen model of the SDL front end: cells, attributes and cursor movement.

use vstd::prelude::*;

use crate::basics::{Point, Range2d, ScreenCell};
use ucd::tables::misc::EastAsianWidth;
use ucd::Codepoint;

pub mod buffer;
pub mod cell_style;
pub mod control;
pub mod emulator;
pub mod parser;
pub mod term;

verus! {

/// A cell color.
#[derive(Debug, Clone, Copy, PartialEq, Eq, Hash, Structural)]
pub enum Color {
    Black,
    Red,
    Green,
    Yellow,
    Blue,
    Magenta,
    Cyan,
    White,
    Gray,
    LightRed,
    LightGreen,
    LightYellow,
    LightBlue,
    LightMagenta,
    LightCyan,
    LightWhite,
    RGB(u8, u8, u8),
}

/// A cell rendition.
#[derive(Debug, Clone, Copy, PartialEq, Eq, Hash, Structural)]
pub enum Style {
    Normal,
    Bold,
    UnderLine,
    Blink,
    Reverse,
}

/// How a cell is drawn.
#[derive(Debug, Clone, Copy, PartialEq, Eq, Hash, Structural)]
pub struct CellAttribute {
    pub style: Style,
    pub fg: Color,
    pub bg: Color,
}

/// The attribute of a blank cell: normal light white on black.
pub open spec fn default_attribute() -> CellAttribute {
    CellAttribute { style: Style::Normal, fg: Color::LightWhite, bg: Color::Black }
}

impl Default for CellAttribute {
    fn default() -> (a: Self)
        ensures
            a == default_attribute(),
    {
        CellAttribute { style: Style::Normal, fg: Color::LightWhite, bg: Color::Black }
    }
}

/// A character on the screen with its attribute.
#[derive(Debug, Clone, Copy, PartialEq, Eq, Hash, Structural)]
pub struct Cell {
    pub c: char,
    pub attr: CellAttribute,
}

impl Default for Cell {
    fn default() -> (cell: Self)
        ensures
            cell == (Cell { c: ' ', attr: default_attribute() }),
    {
        Cell { c: ' ', attr: CellAttribute::default() }
    }
}

/// East Asian width class of a character (Unicode Standard Annex #11).
#[derive(Debug, Clone, Copy, PartialEq, Eq, Structural)]
pub enum EastAsianWidthClass {
    Narrow,
    Wide,
    Neutral,
    Ambiguous,
    FullWidth,
    HalfWidth,
}

/// The East Asian width class that the `ucd` crate's tables give `c`.
pub uninterp spec fn east_asian_width_of(c: char) -> EastAsianWidthClass;

/// The East Asian width class of `c`, looked up by `ucd::Codepoint::east_asian_width`.
/// Trusted: the result is the table's class for `c`; printable ASCII
/// (`U+0020`..`U+007E`) is narrow, as the first row of the table says.
#[verifier::external_body]
fn east_asian_width(c: char) -> (w: EastAsianWidthClass)
    ensures
        w == east_asian_width_of(c),
        ' ' <= c <= '~' ==> w == EastAsianWidthClass::Narrow,
{
    match c.east_asian_width() {
        EastAsianWidth::Narrow => EastAsianWidthClass::Narrow,
        EastAsianWidth::Wide => EastAsianWidthClass::Wide,
        EastAsianWidth::Neutral => EastAsianWidthClass::Neutral,
        EastAsianWidth::Ambiguous => EastAsianWidthClass::Ambiguous,
        EastAsianWidth::FullWidth => EastAsianWidthClass::FullWidth,
        EastAsianWidth::HalfWidth => EastAsianWidthClass::HalfWidth,
    }
}

/// Number of columns a character takes.
#[derive(Debug, Clone, Copy, PartialEq, Eq, Hash, Structural)]
pub enum CharWidth {
    Half,
    Full,
}

/// Wide and full-width characters take two columns; all others, ambiguous ones
/// included, take one.
pub open spec fn width_of_class(w: EastAsianWidthClass) -> CharWidth {
    match w {
        EastAsianWidthClass::FullWidth | EastAsianWidthClass::Wide => CharWidth::Full,
        _ => CharWidth::Half,
    }
}

impl CharWidth {
    /// The width class of `c`.
    pub fn from_char(c: char) -> (w: Self)
        ensures
            w == width_of_class(east_asian_width_of(c)),
            ' ' <= c <= '~' ==> w == CharWidth::Half,
    {
        match east_asian_width(c) {
            EastAsianWidthClass::Ambiguous => CharWidth::Half,
            EastAsianWidthClass::Neutral | EastAsianWidthClass::HalfWidth
            | EastAsianWidthClass::Narrow => CharWidth::Half,
            EastAsianWidthClass::FullWidth | EastAsianWidthClass::Wide => CharWidth::Full,
        }
    }

    /// Number of columns: one for half width, two for full width.
    pub fn columns(self) -> (n: usize)
        ensures
            n == match self {
                CharWidth::Half => 1usize,
                CharWidth::Full => 2usize,
            },
    {
        match self {
            CharWidth::Half => 1,
            CharWidth::Full => 2,
        }
    }
}

/// A cursor movement.
#[derive(Debug, Clone, Copy)]
pub enum CursorMove {
    Exact(Point<ScreenCell>),
    Up(usize),
    Down(usize),
    Left(usize),
    Right(usize),
    Top,
    Bottom,
    LeftMost,
    RightMost,
}

/// An operation decoded from the output of the program in the terminal.
#[derive(Debug)]
pub enum ControlOp {
    InsertChar(char),
    Bell,
    Tab,
    LineFeed,
    CarriageReturn,
    CursorMove(CursorMove),
    SaveCursor,
    RestoreCursor,
    HideCursor,
    ShowCursor,
    ScrollDown,
    ScrollUp,
    EraseEndOfLine,
    EraseStartOfLine,
    EraseLine,
    EraseDown,
    EraseUp,
    EraseScreen,
    SetScrollRange(std::ops::Range<i32>),
    Reset,
    ChangeCellAttribute(Option<Style>, Option<Color>, Option<Color>),
    SetCursorMode(bool),
    Sixel(crate::sixel_codec::Image),
    Unknown(Vec<char>),
    Ignore,
}

/// The cursor: position, attribute of the characters it writes, visibility.
#[derive(Debug, Clone, Copy)]
pub struct Cursor {
    pub pos: Point<ScreenCell>,
    pub attr: CellAttribute,
    pub visible: bool,
}

impl Default for Cursor {
    fn default() -> (c: Self)
        ensures
            c.pos.x == 0,
            c.pos.y == 0,
            c.attr == default_attribute(),
            c.visible,
    {
        Cursor { pos: Point { x: 0, y: 0 }, attr: CellAttribute::default(), visible: true }
    }
}

/// The position a movement leads to before any range check: `None` where the
/// arithmetic leaves `i32`.
pub open spec fn moved_position(
    pos: Point<ScreenCell>,
    m: CursorMove,
    range: Range2d<ScreenCell>,
) -> Option<(i32, i32)> {
    match m {
        CursorMove::Exact(p) => Some((p.x, p.y)),
        CursorMove::Up(a) => {
            let v = pos.y - (a as i32);
            if i32::MIN <= v <= i32::MAX { Some((pos.x, v as i32)) } else { None }
        },
        CursorMove::Down(a) => {
            let v = pos.y + (a as i32);
            if i32::MIN <= v <= i32::MAX { Some((pos.x, v as i32)) } else { None }
        },
        CursorMove::Left(a) => {
            let v = pos.x - (a as i32);
            if i32::MIN <= v <= i32::MAX { Some((v as i32, pos.y)) } else { None }
        },
        CursorMove::Right(a) => {
            let v = pos.x + (a as i32);
            if i32::MIN <= v <= i32::MAX { Some((v as i32, pos.y)) } else { None }
        },
        CursorMove::LeftMost => Some((range.h.start, pos.y)),
        CursorMove::RightMost => Some(((range.h.end - 1) as i32, pos.y)),
        CursorMove::Top => Some((pos.x, range.v.start)),
        CursorMove::Bottom => Some((pos.x, (range.v.end - 1) as i32)),
    }
}

/// `(x, y)` lies in `range`.
pub open spec fn in_range(range: Range2d<ScreenCell>, x: i32, y: i32) -> bool {
    range.h.start <= x < range.h.end && range.v.start <= y < range.v.end
}

/// `v` clamped to `lo..=hi` (to `hi` when the interval is empty).
pub open spec fn clamp(v: int, lo: int, hi: int) -> int {
    let a = if lo >= v { lo } else { v };
    if a <= hi { a } else { hi }
}

/// `v` clamped to the range of `i32`.
pub open spec fn saturate_i32(v: int) -> int {
    if v > i32::MAX { i32::MAX as int } else if v < i32::MIN { i32::MIN as int } else { v }
}

/// The cursor moved by `m`, if the new position lies inside `range`.
pub open spec fn tried_move(c: Cursor, m: CursorMove, range: Range2d<ScreenCell>) -> Option<Cursor> {
    match moved_position(c.pos, m, range) {
        Some((x, y)) => if in_range(range, x, y) {
            Some(Cursor { pos: Point { x, y }, ..c })
        } else {
            None
        },
        None => None,
    }
}

/// The cursor moved by `m` and clamped into `range`.
pub open spec fn saturating_moved(c: Cursor, m: CursorMove, range: Range2d<ScreenCell>) -> Cursor {
    if m is LeftMost || m is RightMost || m is Top || m is Bottom {
        let (x, y) = moved_position(c.pos, m, range)->0;
        Cursor { pos: Point { x, y }, ..c }
    } else {
        let (x, y) = match m {
            CursorMove::Exact(p) => (p.x as int, p.y as int),
            CursorMove::Up(a) => (c.pos.x as int, saturate_i32(c.pos.y - (a as i32))),
            CursorMove::Down(a) => (c.pos.x as int, saturate_i32(c.pos.y + (a as i32))),
            CursorMove::Left(a) => (saturate_i32(c.pos.x - (a as i32)), c.pos.y as int),
            CursorMove::Right(a) => (saturate_i32(c.pos.x + (a as i32)), c.pos.y as int),
            _ => (0, 0),
        };
        Cursor {
            pos: Point {
                x: clamp(x, range.h.start as int, range.h.end - 1) as i32,
                y: clamp(y, range.v.start as int, range.v.end - 1) as i32,
            },
            ..c
        }
    }
}

impl Cursor {
    /// The cursor moved by `m`, if the new position lies inside `range`.
    pub fn try_move(&self, m: CursorMove, range: &Range2d<ScreenCell>) -> (r: Option<Cursor>)
        requires
            m is RightMost ==> range.h.end > i32::MIN,
            m is Bottom ==> range.v.end > i32::MIN,
        ensures
            match moved_position(self.pos, m, *range) {
                Some((x, y)) => if in_range(*range, x, y) {
                    r matches Some(c) && c.pos.x == x && c.pos.y == y && c.attr == self.attr
                        && c.visible == self.visible
                } else {
                    r is None
                },
                None => r is None,
            },
            r == tried_move(*self, m, *range),
    {
        let mut new_pos = self.pos;
        match m {
            CursorMove::Exact(p) => new_pos = p,
            CursorMove::Up(a) => {
                match self.pos.y.checked_sub(a as i32) {
                    Some(v) => new_pos.y = v,
                    None => return None,
                }
            },
            CursorMove::Down(a) => {
                match self.pos.y.checked_add(a as i32) {
                    Some(v) => new_pos.y = v,
                    None => return None,
                }
            },
            CursorMove::Left(a) => {
                match self.pos.x.checked_sub(a as i32) {
                    Some(v) => new_pos.x = v,
                    None => return None,
                }
            },
            CursorMove::Right(a) => {
                match self.pos.x.checked_add(a as i32) {
                    Some(v) => new_pos.x = v,
                    None => return None,
                }
            },
            CursorMove::LeftMost => new_pos.x = range.left(),
            CursorMove::RightMost => new_pos.x = range.right(),
            CursorMove::Top => new_pos.y = range.top(),
            CursorMove::Bottom => new_pos.y = range.bottom(),
        }
        if range.contains(&new_pos) {
            Some(Cursor { pos: new_pos, attr: self.attr, visible: self.visible })
        } else {
            None
        }
    }

    /// The cursor moved by `m` and then clamped into `range`; a move to an edge
    /// of the range must land inside it.  The last column and row of the range
    /// are computed only where the move needs them.
    pub fn try_saturating_move(&self, m: CursorMove, range: &Range2d<ScreenCell>) -> (c: Cursor)
        requires
            m is RightMost ==> range.h.end > i32::MIN,
            m is Bottom ==> range.v.end > i32::MIN,
            !(m is LeftMost || m is RightMost || m is Top || m is Bottom) ==> range.h.end > i32::MIN
                && range.v.end > i32::MIN,
            (m is LeftMost || m is RightMost || m is Top || m is Bottom) ==> ({
                let (x, y) = moved_position(self.pos, m, *range)->0;
                in_range(*range, x, y)
            }),
        ensures
            c.attr == self.attr,
            c.visible == self.visible,
            (m is LeftMost || m is RightMost || m is Top || m is Bottom) ==> ({
                let (x, y) = moved_position(self.pos, m, *range)->0;
                c.pos.x == x && c.pos.y == y
            }),
            !(m is LeftMost || m is RightMost || m is Top || m is Bottom) ==> ({
                let (x, y) = match m {
                    CursorMove::Exact(p) => (p.x as int, p.y as int),
                    CursorMove::Up(a) => (self.pos.x as int, saturate_i32(self.pos.y - (a as i32))),
                    CursorMove::Down(a) => (self.pos.x as int, saturate_i32(self.pos.y + (a as i32))),
                    CursorMove::Left(a) => (saturate_i32(self.pos.x - (a as i32)), self.pos.y as int),
                    CursorMove::Right(a) => (saturate_i32(self.pos.x + (a as i32)), self.pos.y as int),
                    _ => (0, 0),
                };
                &&& c.pos.x == clamp(x, range.h.start as int, range.h.end - 1)
                &&& c.pos.y == clamp(y, range.v.start as int, range.v.end - 1)
            }),
            c == saturating_moved(*self, m, *range),
    {
        let mut new_pos = self.pos;
        match m {
            CursorMove::LeftMost | CursorMove::RightMost | CursorMove::Top | CursorMove::Bottom => {
                match self.try_move(m, range) {
                    Some(c) => return c,
                    None => {
                        assert(false);
                        return *self;
                    },
                }
            },
            CursorMove::Exact(p) => new_pos = p,
            CursorMove::Up(a) => new_pos.y = sat_sub_i32(self.pos.y, a as i32),
            CursorMove::Down(a) => new_pos.y = sat_add_i32(self.pos.y, a as i32),
            CursorMove::Left(a) => new_pos.x = sat_sub_i32(self.pos.x, a as i32),
            CursorMove::Right(a) => new_pos.x = sat_add_i32(self.pos.x, a as i32),
        }
        let lx = range.left();
        let rx = range.right();
        let ty = range.top();
        let by = range.bottom();
        let x0 = if lx >= new_pos.x { lx } else { new_pos.x };
        let x = if x0 <= rx { x0 } else { rx };
        let y0 = if ty >= new_pos.y { ty } else { new_pos.y };
        let y = if y0 <= by { y0 } else { by };
        Cursor { pos: Point { x, y }, attr: self.attr, visible: self.visible }
    }
}

/// `a - b`, saturating at the bounds of `i32`.
fn sat_sub_i32(a: i32, b: i32) -> (r: i32)
    ensures
        r == saturate_i32(a - b),
{
    let v = a as i64 - b as i64;
    if v > i32::MAX as i64 {
        i32::MAX
    } else if v < i32::MIN as i64 {
        i32::MIN
    } else {
        v as i32
    }
}

/// `a + b`, saturating at the bounds of `i32`.
fn sat_add_i32(a: i32, b: i32) -> (r: i32)
    ensures
        r == saturate_i32(a + b),
{
    let v = a as i64 + b as i64;
    if v > i32::MAX as i64 {
        i32::MAX
    } else if v < i32::MIN as i64 {
        i32::MIN
    } else {
        v as i32
    }
}

} // verus!
