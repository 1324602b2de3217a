//! Points, sizes and rectangles on a grid of pixels or of screen cells.

use vstd::prelude::*;

verus! {

/// A kind of grid position (pixels, screen cells); names the coordinate type.
pub trait PointType {
    type Type;
}

/// Positions measured in pixels.
#[derive(Debug, Clone, Copy, PartialEq, Eq)]
pub struct Pixel;

impl PointType for Pixel {
    type Type = i32;
}

/// Positions measured in screen cells.
#[derive(Debug, Clone, Copy, PartialEq, Eq)]
pub struct ScreenCell;

impl PointType for ScreenCell {
    type Type = i32;
}

/// A point of a grid.
#[derive(Debug, Clone, Copy, PartialEq, Eq)]
pub struct Point<P: PointType> {
    pub x: P::Type,
    pub y: P::Type,
}

/// A width and a height.
#[derive(Debug, Clone, Copy, PartialEq, Eq)]
pub struct Size<P: PointType> {
    pub width: P::Type,
    pub height: P::Type,
}

/// A rectangle: the columns `h` by the rows `v` (each half-open).
#[derive(Debug, PartialEq, Eq)]
pub struct Range2d<P: PointType> {
    pub h: std::ops::Range<P::Type>,
    pub v: std::ops::Range<P::Type>,
}

impl<P: PointType<Type = i32>> Range2d<P> {
    /// The rectangle of size `sz` whose top left corner is `p`.
    pub fn new(p: Point<P>, sz: Size<P>) -> (r: Self)
        requires
            p.x + sz.width <= i32::MAX,
            p.x + sz.width >= i32::MIN,
            p.y + sz.height <= i32::MAX,
            p.y + sz.height >= i32::MIN,
        ensures
            r.h.start == p.x,
            r.h.end == p.x + sz.width,
            r.v.start == p.y,
            r.v.end == p.y + sz.height,
    {
        Range2d { h: (p.x)..(p.x + sz.width), v: (p.y)..(p.y + sz.height) }
    }
}

impl<P: PointType<Type = i32>> Clone for Range2d<P> {
    fn clone(&self) -> (r: Self)
        ensures
            r.h.start == self.h.start,
            r.h.end == self.h.end,
            r.v.start == self.v.start,
            r.v.end == self.v.end,
    {
        Range2d { h: self.h.start..self.h.end, v: self.v.start..self.v.end }
    }
}

impl<P: PointType<Type = i32>> From<Size<P>> for Range2d<P> {
    /// The rectangle of size `sz` at the origin.
    fn from(sz: Size<P>) -> (r: Self) {
        Range2d { h: 0..sz.width, v: 0..sz.height }
    }
}

impl<P: PointType<Type = i32>> vstd::std_specs::convert::FromSpecImpl<Size<P>> for Range2d<P> {
    open spec fn obeys_from_spec() -> bool {
        true
    }

    open spec fn from_spec(sz: Size<P>) -> Self {
        Range2d { h: 0..sz.width, v: 0..sz.height }
    }
}

/// Number of integers in the half-open range `start..end`.
pub open spec fn span(start: i32, end: i32) -> int {
    if end > start {
        end - start
    } else {
        0
    }
}

impl<P: PointType<Type = i32>> Range2d<P> {
    /// First column.
    pub fn left(&self) -> (x: i32)
        ensures
            x == self.h.start,
    {
        self.h.start
    }

    /// First row.
    pub fn top(&self) -> (y: i32)
        ensures
            y == self.v.start,
    {
        self.v.start
    }

    /// Last column.
    pub fn right(&self) -> (x: i32)
        requires
            self.h.end > i32::MIN,
        ensures
            x == self.h.end - 1,
    {
        self.h.end - 1
    }

    /// Last row.
    pub fn bottom(&self) -> (y: i32)
        requires
            self.v.end > i32::MIN,
        ensures
            y == self.v.end - 1,
    {
        self.v.end - 1
    }

    /// Number of columns (negative when the range is reversed).
    pub fn width(&self) -> (w: i32)
        requires
            i32::MIN <= self.h.end - self.h.start <= i32::MAX,
        ensures
            w == self.h.end - self.h.start,
    {
        self.h.end - self.h.start
    }

    /// Number of rows (negative when the range is reversed).
    pub fn height(&self) -> (h: i32)
        requires
            i32::MIN <= self.v.end - self.v.start <= i32::MAX,
        ensures
            h == self.v.end - self.v.start,
    {
        self.v.end - self.v.start
    }

    /// The top left corner and the size.
    pub fn decompose(&self) -> (r: (Point<P>, Size<P>))
        requires
            i32::MIN <= self.h.end - self.h.start <= i32::MAX,
            i32::MIN <= self.v.end - self.v.start <= i32::MAX,
        ensures
            r.0.x == self.h.start,
            r.0.y == self.v.start,
            r.1.width == self.h.end - self.h.start,
            r.1.height == self.v.end - self.v.start,
    {
        (Point { x: self.left(), y: self.top() }, Size { width: self.width(), height: self.height() })
    }

    /// `p` lies inside the rectangle.
    pub fn contains(&self, p: &Point<P>) -> (b: bool)
        ensures
            b == (self.h.start <= p.x < self.h.end && self.v.start <= p.y < self.v.end),
    {
        self.h.start <= p.x && p.x < self.h.end && self.v.start <= p.y && p.y < self.v.end
    }

    /// The overlap of two rectangles (reversed ranges when they do not overlap).
    pub fn intersection(&self, other: &Self) -> (r: Self)
        requires
            self.h.end > i32::MIN,
            self.v.end > i32::MIN,
            other.h.end > i32::MIN,
            other.v.end > i32::MIN,
        ensures
            r.v.start == if self.v.start >= other.v.start { self.v.start } else { other.v.start },
            r.h.start == if self.h.start >= other.h.start { self.h.start } else { other.h.start },
            r.v.end == if self.v.end <= other.v.end { self.v.end } else { other.v.end },
            r.h.end == if self.h.end <= other.h.end { self.h.end } else { other.h.end },
    {
        let top = if self.top() >= other.top() { self.top() } else { other.top() };
        let left = if self.left() >= other.left() { self.left() } else { other.left() };
        let bottom = if self.bottom() <= other.bottom() { self.bottom() } else { other.bottom() };
        let right = if self.right() <= other.right() { self.right() } else { other.right() };
        Range2d { v: top..(bottom + 1), h: left..(right + 1) }
    }

    /// All points of the rectangle, row by row from the top, each row from the left.
    pub fn iter(&self) -> (pts: Vec<Point<P>>)
        ensures
            pts@ == grid_points::<P>(self.h.start, self.h.end, self.v.start, self.v.end),
    {
        let mut pts: Vec<Point<P>> = Vec::new();
        let mut y = self.v.start;
        while y < self.v.end
            invariant
                self.v.start <= y,
                y <= self.v.end || y == self.v.start,
                pts@ == grid_points::<P>(self.h.start, self.h.end, self.v.start, y),
            decreases self.v.end - y,
        {
            let mut x = self.h.start;
            let ghost before = pts@;
            while x < self.h.end
                invariant
                    self.h.start <= x,
                    x <= self.h.end || x == self.h.start,
                    y < self.v.end,
                    pts@ == before + row_points::<P>(self.h.start, self.h.end, y).take(
                        x - self.h.start,
                    ),
                decreases self.h.end - x,
            {
                pts.push(Point { x, y });
                x = x + 1;
                assert(pts@ =~= before + row_points::<P>(self.h.start, self.h.end, y).take(
                    x - self.h.start,
                ));
            }
            assert(x - self.h.start == span(self.h.start, self.h.end));
            assert(row_points::<P>(self.h.start, self.h.end, y).take(x - self.h.start)
                =~= row_points::<P>(self.h.start, self.h.end, y));
            y = y + 1;
        }
        pts
    }
}

/// The points of row `y` from column `h_start` up to (not including) `h_end`.
pub open spec fn row_points<P: PointType<Type = i32>>(h_start: i32, h_end: i32, y: i32) -> Seq<Point<P>> {
    Seq::new(span(h_start, h_end) as nat, |c: int| Point::<P> { x: (h_start + c) as i32, y })
}

/// The points of the rectangle `h_start..h_end` by `v_start..v_end`, row by row.
pub open spec fn grid_points<P: PointType<Type = i32>>(
    h_start: i32,
    h_end: i32,
    v_start: i32,
    v_end: i32,
) -> Seq<Point<P>>
    decreases v_end - v_start,
{
    if v_end <= v_start {
        Seq::empty()
    } else {
        grid_points::<P>(h_start, h_end, v_start, (v_end - 1) as i32) + row_points::<P>(
            h_start,
            h_end,
            (v_end - 1) as i32,
        )
    }
}

/// Position of column `x`, row `y` in the cells of rows `w` wide.
pub proof fn lemma_cell_index(w: int, h: int, x: int, y: int)
    requires
        0 <= x < w,
        0 <= y < h,
    ensures
        0 <= y * w + x < w * h,
        (y * w + x) / w == y,
        (y * w + x) % w == x,
{
    assert(0 <= y * w + x < w * h) by (nonlinear_arith)
        requires
            0 <= x < w,
            0 <= y < h,
    ;
    vstd::arithmetic::div_mod::lemma_fundamental_div_mod_converse(y * w + x, w, y, x);
}

/// Every position of the cells of rows `w` wide is a column and a row.
pub proof fn lemma_index_cell(w: int, h: int, i: int)
    requires
        w >= 1,
        0 <= i < w * h,
    ensures
        0 <= i % w < w,
        0 <= i / w < h,
        i == (i / w) * w + i % w,
{
    vstd::arithmetic::div_mod::lemma_fundamental_div_mod(i, w);
    assert(0 <= i % w < w) by {
        vstd::arithmetic::div_mod::lemma_mod_bound(i, w);
    }
    vstd::arithmetic::div_mod::lemma_div_pos_is_pos(i, w);
    assert(i / w < h) by (nonlinear_arith)
        requires
            w >= 1,
            i < w * h,
            i == w * (i / w) + i % w,
            0 <= i % w,
    ;
    assert((i / w) * w == w * (i / w)) by (nonlinear_arith);
}

} // verus!
