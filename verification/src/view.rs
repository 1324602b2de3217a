//! Placement of a terminal view in a window, the colors it draws with, and
//! what it draws for each cell, for the cursor, the scroll bar and images.

use vstd::prelude::*;

use crate::font::{FontStyle, GlyphMetrics};
use crate::terminal::line::{cells_wf, head, lemma_head, Line};
use crate::terminal::{Cell, CellSize, Color, CursorStyle, GraphicAttribute, PositionedImage};
use crate::window::cell_selected;

verus! {

/// A rectangle of a window, in pixels: left, top, width, height.
#[derive(Debug, Clone, Copy, PartialEq, Eq, Default, Structural)]
pub struct Viewport {
    pub x: u32,
    pub y: u32,
    pub w: u32,
    pub h: u32,
}

/// A rectangle of a window counted from its bottom left corner, as the
/// graphics library takes it: left, bottom, width, height.
#[derive(Debug, Clone, Copy, PartialEq, Eq, Structural)]
pub struct WindowRect {
    pub left: u32,
    pub bottom: u32,
    pub width: u32,
    pub height: u32,
}

impl Viewport {
    /// The viewport counted from the bottom of a window `window_height`
    /// pixels high (its bottom edge at 0 when it reaches below the window).
    pub fn to_window_rect(self, window_height: u32) -> (r: WindowRect)
        requires
            self.y + self.h <= u32::MAX,
        ensures
            r == (WindowRect {
                left: self.x,
                bottom: (if window_height >= self.y + self.h { window_height - (self.y + self.h) } else { 0 }) as u32,
                width: self.w,
                height: self.h,
            }),
    {
        let bottom = window_height as i64 - (self.y + self.h) as i64;
        WindowRect { left: self.x, bottom: if bottom >= 0 { bottom as u32 } else { 0 }, width: self.w, height: self.h }
    }
}

/// The sixteen basic colors of a color scheme, as `0xRRGGBBAA`: black, red,
/// green, yellow, blue, magenta, cyan, white, then their bright forms.
pub struct ColorScheme {
    pub colors: [u32; 16],
}

/// Position of a basic color in a color scheme.
pub open spec fn scheme_index(color: Color) -> int {
    match color {
        Color::Black => 0,
        Color::Red => 1,
        Color::Green => 2,
        Color::Yellow => 3,
        Color::Blue => 4,
        Color::Magenta => 5,
        Color::Cyan => 6,
        Color::White => 7,
        Color::BrightBlack => 8,
        Color::BrightRed => 9,
        Color::BrightGreen => 10,
        Color::BrightYellow => 11,
        Color::BrightBlue => 12,
        Color::BrightMagenta => 13,
        Color::BrightCyan => 14,
        Color::BrightWhite => 15,
        _ => 0,
    }
}

/// The `0xRRGGBBAA` value `color` is drawn with: a direct color as it is, the
/// special color as transparent white, a basic color as the scheme has it.
pub fn color_to_rgba(color: Color, scheme: &ColorScheme) -> (c: u32)
    ensures
        c == match color {
            Color::Rgb { rgba } => rgba,
            Color::Special => 0xFFFFFF00u32,
            _ => scheme.colors@[scheme_index(color)],
        },
{
    let i: usize = match color {
        Color::Rgb { rgba } => return rgba,
        Color::Special => return 0xFFFFFF00,
        Color::Black => 0,
        Color::Red => 1,
        Color::Green => 2,
        Color::Yellow => 3,
        Color::Blue => 4,
        Color::Magenta => 5,
        Color::Cyan => 6,
        Color::White => 7,
        Color::BrightBlack => 8,
        Color::BrightRed => 9,
        Color::BrightGreen => 10,
        Color::BrightYellow => 11,
        Color::BrightBlue => 12,
        Color::BrightMagenta => 13,
        Color::BrightCyan => 14,
        Color::BrightWhite => 15,
    };
    scheme.colors[i]
}

/// A rectangle in pixels: left, top (from the top of the view), width, height.
#[derive(Debug, Clone, Copy, PartialEq, Eq, Structural)]
pub struct PixelRect {
    pub x: i32,
    pub y: i32,
    pub w: u32,
    pub h: u32,
}

/// What the cells are drawn with besides their own contents: the cursor
/// (row, column, style), whether the view has the focus, the selection (first and last columns
/// counted over all rows), the size of a cell, and the baseline of the
/// first row in pixels.
#[derive(Debug, Clone, Copy)]
pub struct DrawSettings {
    pub cursor: Option<(usize, usize, CursorStyle)>,
    pub focused: bool,
    pub selection: Option<(usize, usize)>,
    pub cell_size: CellSize,
    pub first_baseline: u32,
}

/// What is drawn for one character: its glyph in a style and colors, over a
/// background rectangle as wide as the character, with the glyph's origin at
/// `left` on `baseline`.
#[derive(Debug, Clone, Copy, PartialEq, Eq, Structural)]
pub struct CellDraw {
    pub ch: char,
    pub style: FontStyle,
    pub fg: Color,
    pub bg: Color,
    pub blinking: u8,
    pub rect: PixelRect,
    pub left: u32,
    pub baseline: u32,
}

/// The font style of a character: faint, regular or bold by its weight.
pub open spec fn style_of(attr: GraphicAttribute) -> FontStyle {
    if attr.bold == -1 {
        FontStyle::Faint
    } else if attr.bold == 0 {
        FontStyle::Regular
    } else {
        FontStyle::Bold
    }
}

/// The text and background colors of a character: its own, exchanged when
/// `swapped`, and the text in the background color when it is concealed.
pub open spec fn colors_of(attr: GraphicAttribute, swapped: bool) -> (Color, Color) {
    let (fg, bg) = if swapped { (attr.bg, attr.fg) } else { (attr.fg, attr.bg) };
    if attr.concealed { (bg, bg) } else { (fg, bg) }
}

/// The block cursor of a focused view stands on row `i`, column `j`.
pub open spec fn under_cursor(s: DrawSettings, i: int, j: int) -> bool {
    match s.cursor {
        Some((row, col, style)) => s.focused && style == CursorStyle::Block && row == i && col == j,
        None => false,
    }
}

/// What is drawn for the character `c` at row `i`, column `j`, rows being
/// `cols` cells wide: its colors exchanged once for each of inverse video,
/// the block cursor and the selection.
pub open spec fn draw_of(c: Cell, i: int, j: int, cols: int, s: DrawSettings) -> CellDraw {
    let swapped = (c.attr.inversed != under_cursor(s, i, j)) != cell_selected(s.selection, i * cols + j, c);
    let (fg, bg) = colors_of(c.attr, swapped);
    CellDraw {
        ch: c.ch,
        style: style_of(c.attr),
        fg,
        bg,
        blinking: c.attr.blinking,
        rect: PixelRect {
            x: (j * s.cell_size.w) as i32,
            y: (i * s.cell_size.h) as i32,
            w: (s.cell_size.w * c.width) as u32,
            h: s.cell_size.h,
        },
        left: (j * s.cell_size.w) as u32,
        baseline: (s.first_baseline + i * s.cell_size.h) as u32,
    }
}

/// What is drawn for the first `n` cells of row `i`: one entry for each
/// character, none for the cells a wide character covers.
pub open spec fn row_draws(cells: Seq<Cell>, i: int, n: int, s: DrawSettings) -> Seq<CellDraw>
    decreases n,
{
    if n <= 0 {
        seq![]
    } else {
        let prev = row_draws(cells, i, n - 1, s);
        if cells[n - 1].width == 0 {
            prev
        } else {
            prev.push(draw_of(cells[n - 1], i, n - 1, cells.len() as int, s))
        }
    }
}

/// What is drawn for the first `n` rows of `lines`, row by row.
pub open spec fn screen_draws(lines: Seq<Line>, n: int, s: DrawSettings) -> Seq<CellDraw>
    decreases n,
{
    if n <= 0 {
        seq![]
    } else {
        screen_draws(lines, n - 1, s) + row_draws(
            lines[n - 1].cells(),
            n - 1,
            lines[n - 1].cells().len() as int,
            s,
        )
    }
}

/// A character's cells lie within its line.
proof fn lemma_width_fits(cs: Seq<Cell>, j: int)
    requires
        cells_wf(cs),
        0 <= j < cs.len(),
        cs[j].width != 0,
    ensures
        j + cs[j].width <= cs.len(),
{
    lemma_head(cs, j);
    reveal(cells_wf);
    let h = head(cs, j);
    if h != j {
        assert(cs[h] == cs[h]);
        assert(cs[j] == cs[j]);
    }
}

fn font_style(attr: &GraphicAttribute) -> (st: FontStyle)
    ensures
        st == style_of(*attr),
{
    if attr.bold == -1 {
        FontStyle::Faint
    } else if attr.bold == 0 {
        FontStyle::Regular
    } else {
        FontStyle::Bold
    }
}

fn cell_colors(attr: &GraphicAttribute, swapped: bool) -> (r: (Color, Color))
    ensures
        r == colors_of(*attr, swapped),
{
    let (fg, bg) = if swapped { (attr.bg, attr.fg) } else { (attr.fg, attr.bg) };
    if attr.concealed { (bg, bg) } else { (fg, bg) }
}

/// What is drawn for the character `c` at row `i`, column `j`.
fn cell_draw(c: Cell, i: usize, j: usize, cols: usize, s: &DrawSettings) -> (d: CellDraw)
    requires
        j < cols,
        j + c.width <= cols,
        cols * s.cell_size.w <= u32::MAX,
        s.first_baseline + i * s.cell_size.h <= u32::MAX,
    ensures
        d == draw_of(c, i as int, j as int, cols as int, *s),
{
    let w = s.cell_size.w;
    let h = s.cell_size.h;
    let on_cursor = match s.cursor {
        Some((row, col, style)) => s.focused && style == CursorStyle::Block && row == i && col == j,
        None => false,
    };
    let selected = match s.selection {
        Some((left, right)) => {
            assert(i as int * cols as int <= 0xFFFF_FFFF_FFFF_FFFFint * 0xFFFF_FFFF_FFFF_FFFFint)
                by (nonlinear_arith)
                requires
                    0 <= i <= 0xFFFF_FFFF_FFFF_FFFFint,
                    0 <= cols <= 0xFFFF_FFFF_FFFF_FFFFint,
            ;
            let offset: u128 = i as u128 * cols as u128 + j as u128;
            let center = offset + (c.width / 2) as u128;
            (left as u128) <= center && center <= (right as u128)
        },
        None => false,
    };
    let swapped = (c.attr.inversed != on_cursor) != selected;
    let (fg, bg) = cell_colors(&c.attr, swapped);
    assert(j * w <= cols * w && w * c.width <= cols * w && i * h <= s.first_baseline + i * h)
        by (nonlinear_arith)
        requires
            j < cols,
            j + c.width <= cols,
            0 <= s.first_baseline,
    ;
    assert(j * w <= 0xFFFF_FFFF_FFFF_FFFFint * 0xFFFF_FFFFint && i * h <= 0xFFFF_FFFF_FFFF_FFFFint * 0xFFFF_FFFFint)
        by (nonlinear_arith)
        requires
            j <= 0xFFFF_FFFF_FFFF_FFFFint,
            i <= 0xFFFF_FFFF_FFFF_FFFFint,
            w <= 0xFFFF_FFFFint,
            h <= 0xFFFF_FFFFint,
    ;
    let x: u32 = (j as u64 * w as u64) as u32;
    let y: u32 = (i as u64 * h as u64) as u32;
    CellDraw {
        ch: c.ch,
        style: font_style(&c.attr),
        fg,
        bg,
        blinking: c.attr.blinking,
        rect: PixelRect { x: x as i32, y: y as i32, w: w * (c.width as u32), h },
        left: x,
        baseline: s.first_baseline + y,
    }
}

/// What is drawn for the cells of `lines`, row by row and left to right:
/// one entry for each character (see `draw_of`), none for the cells a wide
/// character covers.
pub fn cell_draws(lines: &Vec<Line>, s: &DrawSettings) -> (r: Vec<CellDraw>)
    requires
        forall|i: int| 0 <= i < lines@.len() ==> (#[trigger] lines@[i]).wf(),
        forall|i: int|
            0 <= i < lines@.len() ==> (#[trigger] lines@[i]).cells().len() * s.cell_size.w <= u32::MAX,
        s.first_baseline + lines@.len() * s.cell_size.h <= u32::MAX,
    ensures
        r@ == screen_draws(lines@, lines@.len() as int, *s),
{
    let mut r: Vec<CellDraw> = Vec::new();
    let n = lines.len();
    let mut i: usize = 0;
    while i < n
        invariant
            i <= n,
            n == lines@.len(),
            r@ == screen_draws(lines@, i as int, *s),
            forall|k: int| 0 <= k < lines@.len() ==> (#[trigger] lines@[k]).wf(),
            forall|k: int|
                0 <= k < lines@.len() ==> (#[trigger] lines@[k]).cells().len() * s.cell_size.w <= u32::MAX,
            s.first_baseline + lines@.len() * s.cell_size.h <= u32::MAX,
        decreases n - i,
    {
        let row = &lines[i];
        let cells = row.iter();
        let cols = cells.len();
        assert(lines@[i as int].wf());
        assert(s.first_baseline + i * s.cell_size.h <= s.first_baseline + lines@.len() * s.cell_size.h)
            by (nonlinear_arith)
            requires
                i < lines@.len(),
        ;
        let ghost before = r@;
        let mut j: usize = 0;
        while j < cols
            invariant
                j <= cols,
                cols == cells@.len(),
                cells@ == lines@[i as int].cells(),
                cells_wf(cells@),
                cols * s.cell_size.w <= u32::MAX,
                s.first_baseline + i * s.cell_size.h <= u32::MAX,
                r@ == before + row_draws(cells@, i as int, j as int, *s),
            decreases cols - j,
        {
            let c = cells[j];
            if c.width != 0 {
                proof {
                    lemma_width_fits(cells@, j as int);
                }
                let d = cell_draw(c, i, j, cols, s);
                r.push(d);
            }
            proof {
                assert(row_draws(cells@, i as int, j + 1, *s) == if cells@[j as int].width == 0 {
                    row_draws(cells@, i as int, j as int, *s)
                } else {
                    row_draws(cells@, i as int, j as int, *s).push(
                        draw_of(cells@[j as int], i as int, j as int, cols as int, *s),
                    )
                });
                assert(r@ =~= before + row_draws(cells@, i as int, j + 1, *s));
            }
            j += 1;
        }
        proof {
            assert(screen_draws(lines@, i + 1, *s) == screen_draws(lines@, i as int, *s)
                + row_draws(lines@[i as int].cells(), i as int, lines@[i as int].cells().len() as int, *s));
        }
        i += 1;
    }
    r
}

/// The bar or underline drawn for the cursor of a focused view: an
/// underline is four pixels high at the bottom of the cell, a bar four
/// pixels wide at its left edge.  A block cursor is drawn with the cell
/// (see `draw_of`), so it has none.
pub open spec fn cursor_rect_spec(s: DrawSettings) -> Option<PixelRect> {
    match s.cursor {
        Some((row, col, style)) => if s.focused && style == CursorStyle::Underline {
            Some(PixelRect {
                x: (col * s.cell_size.w) as i32,
                y: ((row + 1) * s.cell_size.h - 4) as i32,
                w: s.cell_size.w,
                h: 4,
            })
        } else if s.focused && style == CursorStyle::Bar {
            Some(PixelRect {
                x: (col * s.cell_size.w) as i32,
                y: (row * s.cell_size.h) as i32,
                w: 4,
                h: s.cell_size.h,
            })
        } else {
            None
        },
        None => None,
    }
}

/// The rectangle drawn for the cursor, if any; see `cursor_rect_spec`.
pub fn cursor_rect(s: &DrawSettings) -> (r: Option<PixelRect>)
    requires
        s.cursor matches Some((row, col, style)) ==> {
            &&& col * s.cell_size.w <= i32::MAX
            &&& (row + 1) * s.cell_size.h <= i32::MAX
        },
    ensures
        r == cursor_rect_spec(*s),
{
    match s.cursor {
        Some((row, col, style)) => {
            if s.focused && (style == CursorStyle::Underline || style == CursorStyle::Bar) {
                let w = s.cell_size.w;
                let h = s.cell_size.h;
                assert(row * h <= (row + 1) * h) by (nonlinear_arith);
                assert(col * w <= 0xFFFF_FFFF_FFFF_FFFFint * 0xFFFF_FFFFint) by (nonlinear_arith)
                    requires
                        col <= 0xFFFF_FFFF_FFFF_FFFFint,
                        w <= 0xFFFF_FFFFint,
                ;
                assert((row + 1) * h <= 0x1_0000_0000_0000_0000int * 0xFFFF_FFFFint) by (nonlinear_arith)
                    requires
                        row + 1 <= 0x1_0000_0000_0000_0000int,
                        h <= 0xFFFF_FFFFint,
                ;
                let x: u128 = col as u128 * w as u128;
                if style == CursorStyle::Underline {
                    let y: u128 = (row as u128 + 1) * h as u128;
                    Some(PixelRect { x: x as i32, y: y as i32 - 4, w, h: 4 })
                } else {
                    let y: u128 = row as u128 * h as u128;
                    Some(PixelRect { x: x as i32, y: y as i32, w: 4, h })
                }
            } else {
                None
            }
        },
        None => None,
    }
}

/// The two rectangles of a scroll bar `width` pixels wide at the right edge
/// of `viewport`: its track, as high as the view, and its thumb, which
/// starts `origin` pixels from the top and is `length` pixels long.
pub fn scroll_bar_rects(viewport: Viewport, width: u32, origin: u32, length: u32) -> (r: (
    PixelRect,
    PixelRect,
))
    ensures
        r.0 == (PixelRect {
            x: (if viewport.w >= width { viewport.w - width } else { 0 }) as i32,
            y: 0,
            w: width,
            h: viewport.h,
        }),
        r.1 == (PixelRect { y: origin as i32, h: length, ..r.0 }),
{
    let track = PixelRect {
        x: viewport.w.saturating_sub(width) as i32,
        y: 0,
        w: width,
        h: viewport.h,
    };
    let thumb = PixelRect { y: origin as i32, h: length, ..track };
    (track, thumb)
}

/// The rectangle an image is drawn in: its top left corner at the top left
/// corner of its cell, and as large as the image.
pub fn image_rect(img: &PositionedImage, cell_size: CellSize) -> (r: PixelRect)
    requires
        i32::MIN <= img.col * cell_size.w <= i32::MAX,
        i32::MIN <= img.row * cell_size.h <= i32::MAX,
    ensures
        r == (PixelRect {
            x: (img.col * cell_size.w) as i32,
            y: (img.row * cell_size.h) as i32,
            w: img.width as u32,
            h: img.height as u32,
        }),
{
    assert(-0x8000_0000_0000_0000 * 0x1_0000_0000 <= img.col * cell_size.w <= 0x7FFF_FFFF_FFFF_FFFF * 0x1_0000_0000)
        by (nonlinear_arith);
    assert(-0x8000_0000_0000_0000 * 0x1_0000_0000 <= img.row * cell_size.h <= 0x7FFF_FFFF_FFFF_FFFF * 0x1_0000_0000)
        by (nonlinear_arith);
    let x: i128 = img.col as i128 * cell_size.w as i128;
    let y: i128 = img.row as i128 * cell_size.h as i128;
    PixelRect { x: x as i32, y: y as i32, w: img.width as u32, h: img.height as u32 }
}

/// The largest of 0 and the values `f(s[i])`.
pub open spec fn max_over_glyphs(s: Seq<GlyphMetrics>, f: spec_fn(GlyphMetrics) -> int) -> int
    decreases s.len(),
{
    if s.len() == 0 {
        0
    } else {
        let m = max_over_glyphs(s.drop_last(), f);
        let v = f(s.last());
        if v > m { v } else { m }
    }
}

/// The largest value is at least 0.
proof fn lemma_max_over_glyphs_nonneg(s: Seq<GlyphMetrics>, f: spec_fn(GlyphMetrics) -> int)
    ensures
        max_over_glyphs(s, f) >= 0,
    decreases s.len(),
{
    if s.len() > 0 {
        lemma_max_over_glyphs_nonneg(s.drop_last(), f);
    }
}

/// How far a glyph advances, in whole pixels.
pub open spec fn advance_px(m: GlyphMetrics) -> int {
    (m.hori_advance >> 6i64) as i32 as int
}

/// How far a glyph reaches above the baseline, in whole pixels.
pub open spec fn over_px(m: GlyphMetrics) -> int {
    (m.hori_bearing_y >> 6i64) as i32 as int
}

/// How far a glyph reaches below the baseline, in whole pixels.
pub open spec fn under_px(m: GlyphMetrics) -> int {
    ((m.height - m.hori_bearing_y) as i64 >> 6i64) as i32 as int
}

/// The size of a cell that holds every glyph of `metrics`: as wide as the
/// largest advance, as high as the largest reach above the baseline plus the
/// largest reach below it; and that reach above, where the baseline lies.
pub fn cell_size_from_metrics(metrics: &Vec<GlyphMetrics>) -> (r: (CellSize, i32))
    requires
        forall|i: int| 0 <= i < metrics@.len() ==> i64::MIN <= #[trigger] metrics@[i].height - metrics@[i].hori_bearing_y <= i64::MAX,
        max_over_glyphs(metrics@, |m: GlyphMetrics| over_px(m)) + max_over_glyphs(metrics@, |m: GlyphMetrics| under_px(m)) <= i32::MAX,
    ensures
        r.0.w == max_over_glyphs(metrics@, |m: GlyphMetrics| advance_px(m)),
        r.0.h == max_over_glyphs(metrics@, |m: GlyphMetrics| over_px(m)) + max_over_glyphs(metrics@, |m: GlyphMetrics| under_px(m)),
        r.1 == max_over_glyphs(metrics@, |m: GlyphMetrics| over_px(m)),
{
    let ghost fa = |m: GlyphMetrics| advance_px(m);
    let ghost fo = |m: GlyphMetrics| over_px(m);
    let ghost fu = |m: GlyphMetrics| under_px(m);
    let mut max_advance_x: i32 = 0;
    let mut max_over: i32 = 0;
    let mut max_under: i32 = 0;
    let mut i: usize = 0;
    while i < metrics.len()
        invariant
            i <= metrics@.len(),
            forall|k: int| 0 <= k < metrics@.len() ==> i64::MIN <= #[trigger] metrics@[k].height - metrics@[k].hori_bearing_y <= i64::MAX,
            max_advance_x == max_over_glyphs(metrics@.subrange(0, i as int), fa),
            max_over == max_over_glyphs(metrics@.subrange(0, i as int), fo),
            max_under == max_over_glyphs(metrics@.subrange(0, i as int), fu),
            fa == (|m: GlyphMetrics| advance_px(m)),
            fo == (|m: GlyphMetrics| over_px(m)),
            fu == (|m: GlyphMetrics| under_px(m)),
        decreases metrics@.len() - i,
    {
        let m = metrics[i];
        let advance_x = (m.hori_advance >> 6) as i32;
        if advance_x > max_advance_x {
            max_advance_x = advance_x;
        }
        let over = (m.hori_bearing_y >> 6) as i32;
        if over > max_over {
            max_over = over;
        }
        assert(i64::MIN <= metrics@[i as int].height - metrics@[i as int].hori_bearing_y <= i64::MAX);
        let under = ((m.height - m.hori_bearing_y) >> 6) as i32;
        if under > max_under {
            max_under = under;
        }
        proof {
            let sub = metrics@.subrange(0, i + 1);
            assert(sub.drop_last() =~= metrics@.subrange(0, i as int));
            assert(sub.last() == m);
        }
        i += 1;
    }
    assert(metrics@.subrange(0, metrics@.len() as int) =~= metrics@);
    proof {
        lemma_max_over_glyphs_nonneg(metrics@, fa);
        lemma_max_over_glyphs_nonneg(metrics@, fo);
        lemma_max_over_glyphs_nonneg(metrics@, fu);
    }
    let cell_w = max_advance_x as u32;
    let cell_h = (max_over + max_under) as u32;
    (CellSize { w: cell_w, h: cell_h }, max_over)
}

/// The font size after changing `size` by `diff`: at least 1.
pub fn font_size_after(size: u32, diff: i32) -> (r: u32)
    requires
        size <= i32::MAX,
        i32::MIN <= size + diff <= i32::MAX,
    ensures
        r == if size + diff >= 1 { size + diff } else { 1 },
{
    let n = size as i32 + diff;
    if n >= 1 {
        n as u32
    } else {
        1
    }
}

} // verus!
