//! Colors and styles of the SDL renderer.

use vstd::prelude::*;

verus! {

/// A renderer color.
#[derive(Debug, Clone, Copy, PartialEq, Eq, Hash, Structural)]
pub enum Color {
    Black,
    White,
    Red,
    Green,
    Blue,
    Cyan,
    Magenta,
    Yellow,
    Gray,
    RGB(u8, u8, u8),
}

/// A renderer style.
#[derive(Debug, Clone, Copy, PartialEq, Eq, Hash, Structural)]
pub enum Style {
    Normal,
    Bold,
    UnderLine,
    Blink,
    Reverse,
}

/// How a cell is drawn by the renderer.
#[derive(Debug, Clone, Copy, PartialEq, Eq, Hash, Structural)]
pub struct CellStyle {
    pub style: Style,
    pub fg: Color,
    pub bg: Color,
}

impl Default for CellStyle {
    /// Normal white on black.
    fn default() -> (s: Self)
        ensures
            s == (CellStyle { style: Style::Normal, fg: Color::White, bg: Color::Black }),
    {
        CellStyle { style: Style::Normal, fg: Color::White, bg: Color::Black }
    }
}

impl Color {
    /// Red, green and blue components of the color.
    pub fn to_rgb(self) -> (rgb: (u8, u8, u8))
        ensures
            rgb == match self {
                Color::Black => (0u8, 0u8, 0u8),
                Color::White => (255u8, 255u8, 255u8),
                Color::Red => (255u8, 0u8, 0u8),
                Color::Green => (0u8, 255u8, 0u8),
                Color::Blue => (0u8, 0u8, 255u8),
                Color::Cyan => (0u8, 255u8, 255u8),
                Color::Magenta => (255u8, 0u8, 255u8),
                Color::Yellow => (255u8, 255u8, 0u8),
                Color::Gray => (120u8, 120u8, 120u8),
                Color::RGB(r, g, b) => (r, g, b),
            },
    {
        match self {
            Color::Black => (0, 0, 0),
            Color::White => (255, 255, 255),
            Color::Red => (255, 0, 0),
            Color::Green => (0, 255, 0),
            Color::Blue => (0, 0, 255),
            Color::Cyan => (0, 255, 255),
            Color::Magenta => (255, 0, 255),
            Color::Yellow => (255, 255, 0),
            Color::Gray => (120, 120, 120),
            Color::RGB(r, g, b) => (r, g, b),
        }
    }
}

} // verus!
