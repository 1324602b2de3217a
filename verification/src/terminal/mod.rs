//! The screen model of the terminal: cells, lines, the cursor, the screen
//! state with its scroll-back history, and the engine that applies control
//! functions to it.

use vstd::prelude::*;

pub mod line;
pub mod cursor;
pub mod screen;
pub mod engine;




verus! {

/// A sixel image placed on the screen, its top left corner at a cell.
#[derive(Debug, Clone)]
pub struct PositionedImage {
    pub row: i64,
    pub col: i64,
    pub height: u64,
    pub width: u64,
    pub data: Vec<u8>,
}

/// A placed image as a value.
pub struct ImageView {
    pub row: i64,
    pub col: i64,
    pub height: u64,
    pub width: u64,
    pub data: Seq<u8>,
}

impl View for PositionedImage {
    type V = ImageView;

    open spec fn view(&self) -> ImageView {
        ImageView { row: self.row, col: self.col, height: self.height, width: self.width, data: self.data@ }
    }
}

/// `outer` covers `inner`: adding to its row its height in pixels and to its
/// column its width in pixels, `inner`'s extent lies within `outer`'s.
pub open spec fn covers(outer: ImageView, inner: ImageView) -> bool {
    &&& outer.row <= inner.row
    &&& outer.col <= inner.col
    &&& inner.row + inner.height <= outer.row + outer.height
    &&& inner.col + inner.width <= outer.col + outer.width
}

/// The placements and sizes of `a` and `b` can be compared in `i64`.
pub open spec fn comparable(a: &PositionedImage, b: &PositionedImage) -> bool {
    &&& a.height <= i64::MAX
    &&& a.width <= i64::MAX
    &&& b.height <= i64::MAX
    &&& b.width <= i64::MAX
    &&& i64::MIN <= a.row + a.height <= i64::MAX
    &&& i64::MIN <= a.col + a.width <= i64::MAX
    &&& i64::MIN <= b.row + b.height <= i64::MAX
    &&& i64::MIN <= b.col + b.width <= i64::MAX
}

/// Whether `inner` lies within `outer`, so that placing `outer` hides it.
pub fn overwrap(outer: &PositionedImage, inner: &PositionedImage) -> (r: bool)
    requires
        comparable(outer, inner),
    ensures
        r == covers(outer@, inner@),
{
    let a = outer;
    let b = inner;
    a.row <= b.row && a.col <= b.col && b.row + b.height as i64 <= a.row + a.height as i64
        && b.col + b.width as i64 <= a.col + a.width as i64
}

/// The size of the screen in cells.
#[derive(Debug, Clone, Copy, PartialEq, Eq, Default, Structural)]
pub struct TerminalSize {
    pub rows: usize,
    pub cols: usize,
}

/// The size of a cell in pixels.
#[derive(Debug, Clone, Copy, PartialEq, Eq, Default, Structural)]
pub struct CellSize {
    pub w: u32,
    pub h: u32,
}

/// A color of text or background.
#[derive(Debug, Clone, Copy, PartialEq, Eq, Structural)]
pub enum Color {
    Black,
    Red,
    Green,
    Yellow,
    Blue,
    Magenta,
    Cyan,
    White,
    BrightBlack,
    BrightRed,
    BrightGreen,
    BrightYellow,
    BrightBlue,
    BrightMagenta,
    BrightCyan,
    BrightWhite,
    Rgb { rgba: u32 },
    Special,
}

/// How a character is drawn.
#[derive(Debug, Clone, Copy, PartialEq, Eq, Structural)]
pub struct GraphicAttribute {
    pub fg: Color,
    pub bg: Color,
    pub bold: i8,
    pub inversed: bool,
    pub blinking: u8,
    pub concealed: bool,
}

/// White on black, nothing else.
pub open spec fn default_attribute() -> GraphicAttribute {
    GraphicAttribute {
        fg: Color::White,
        bg: Color::Black,
        bold: 0,
        inversed: false,
        blinking: 0,
        concealed: false,
    }
}

impl Default for GraphicAttribute {
    fn default() -> (a: Self)
        ensures
            a == default_attribute(),
    {
        GraphicAttribute {
            fg: Color::White,
            bg: Color::Black,
            bold: 0,
            inversed: false,
            blinking: 0,
            concealed: false,
        }
    }
}

/// One cell of a line.  A character `width` columns wide is held by a head
/// cell of that width followed by `width - 1` cells of width 0, each of which
/// records in `backlink` how far back its head is.
#[derive(Debug, Clone, Copy, PartialEq, Eq, Structural)]
pub struct Cell {
    pub ch: char,
    pub width: u16,
    pub backlink: u16,
    pub attr: GraphicAttribute,
}

/// A cell covered by the head cell `d` columns before it.
pub open spec fn void_cell(d: u16) -> Cell {
    Cell { ch: '#', width: 0, backlink: d, attr: default_attribute() }
}

/// A blank cell.
pub open spec fn space_cell() -> Cell {
    Cell { ch: ' ', width: 1, backlink: 0, attr: default_attribute() }
}

/// The blank cell that marks the end of the written part of a line.
pub open spec fn term_cell() -> Cell {
    Cell { ch: '\n', width: 1, backlink: 0, attr: default_attribute() }
}

impl Cell {
    /// How far back the head of this cell's character is.
    pub open spec fn back(self) -> int {
        self.backlink as int
    }

    pub(crate) fn void(d: u16) -> (c: Cell)
        ensures
            c == void_cell(d),
    {
        Cell { ch: '#', width: 0, backlink: d, attr: GraphicAttribute::default() }
    }

    pub(crate) fn space() -> (c: Cell)
        ensures
            c == space_cell(),
    {
        Cell { ch: ' ', width: 1, backlink: 0, attr: GraphicAttribute::default() }
    }

    pub(crate) fn term() -> (c: Cell)
        ensures
            c == term_cell(),
    {
        Cell { ch: '\n', width: 1, backlink: 0, attr: GraphicAttribute::default() }
    }

    /// A one-column cell holding `ch` with the default attribute.
    pub fn new_ascii(ch: char) -> (c: Cell)
        ensures
            c == (Cell { ch, ..space_cell() }),
    {
        let mut cell = Self::space();
        cell.ch = ch;
        cell
    }

    /// A head cell: `ch`, `width` columns wide, drawn with `attr`.
    pub fn new(ch: char, width: u16, attr: GraphicAttribute) -> (c: Cell)
        ensures
            c == (Cell { ch, width, backlink: 0, attr }),
    {
        Cell { ch, width, backlink: 0, attr }
    }
}

/// The terminal modes that programs switch on and off.
#[derive(Debug, Clone, Copy, PartialEq, Eq, Structural)]
pub struct Mode {
    pub cursor_visible: bool,
    pub bracketed_paste: bool,
    pub mouse_track: bool,
    pub sgr_ext_mouse_track: bool,
    pub sixel_scrolling: bool,
}

/// The modes a terminal starts with: visible cursor and sixel scrolling.
pub open spec fn default_mode() -> Mode {
    Mode {
        cursor_visible: true,
        bracketed_paste: false,
        mouse_track: false,
        sgr_ext_mouse_track: false,
        sixel_scrolling: true,
    }
}

impl Default for Mode {
    fn default() -> (m: Self)
        ensures
            m == default_mode(),
    {
        Mode {
            cursor_visible: true,
            bracketed_paste: false,
            mouse_track: false,
            sgr_ext_mouse_track: false,
            sixel_scrolling: true,
        }
    }
}

/// The shape the cursor is drawn in.
#[derive(Debug, Clone, Copy, PartialEq, Eq, Structural)]
pub enum CursorStyle {
    Block,
    Underline,
    Bar,
}

impl Default for CursorStyle {
    fn default() -> (s: Self)
        ensures
            s == CursorStyle::Block,
    {
        CursorStyle::Block
    }
}

} // verus!
