//! The terminal of the first screen model: a grid of cells written by the
//! operations that the decoder yields, with a cursor, a scrolling region and
//! sixel images placed over the cells.

use vstd::prelude::*;

use super::parser::{feed_ok, feed_run, op_is, Parser, StateView};
use super::{
    default_attribute, east_asian_width_of, saturating_moved, tried_move, width_of_class, Cell,
    CellAttribute, CharWidth, ControlOp, Cursor, CursorMove, Style,
};
use crate::basics::{lemma_cell_index, lemma_index_cell, Pixel, Point, Range2d, ScreenCell, Size};
use crate::sixel_codec::Image;

verus! {

/// The pixel position of the top left corner of screen cell `p`.
pub fn cell_top_left_corner(p: Point<ScreenCell>, cell_size: Size<Pixel>) -> (q: Point<Pixel>)
    requires
        i32::MIN <= p.x * cell_size.width <= i32::MAX,
        i32::MIN <= p.y * cell_size.height <= i32::MAX,
    ensures
        q.x == p.x * cell_size.width,
        q.y == p.y * cell_size.height,
{
    Point { x: p.x * cell_size.width, y: p.y * cell_size.height }
}

/// A sixel image placed over the cells `range`.
pub struct SixelImage {
    pub range: Range2d<ScreenCell>,
    pub image: Image,
}

/// A placed sixel image as a value: the columns `left..right` and rows
/// `top..bottom` it covers, and the image.
pub struct PlacedView {
    pub left: i32,
    pub right: i32,
    pub top: i32,
    pub bottom: i32,
    pub height: usize,
    pub width: usize,
    pub data: Seq<u8>,
}

impl SixelImage {
    pub open spec fn view(&self) -> PlacedView {
        PlacedView {
            left: self.range.h.start,
            right: self.range.h.end,
            top: self.range.v.start,
            bottom: self.range.v.end,
            height: self.image.height,
            width: self.image.width,
            data: self.image.buf@,
        }
    }
}

/// The terminal as a value: the size of a cell in pixels, the size of the
/// screen in cells, the rows `scroll_top..scroll_end` that scroll, the
/// cursor and the saved one, the cells row by row, whether the last
/// character filled the last column, whether the window has the focus, and
/// the placed images.
pub struct TermView {
    pub cell_size: Size<Pixel>,
    pub size: Size<ScreenCell>,
    pub scroll_top: i32,
    pub scroll_end: i32,
    pub cursor: Cursor,
    pub saved_cursor: Option<Cursor>,
    pub screen: Seq<Cell>,
    pub end_of_line: bool,
    pub has_focus: bool,
    pub sixels: Seq<PlacedView>,
}

/// A blank cell.
pub open spec fn blank() -> Cell {
    Cell { c: ' ', attr: default_attribute() }
}

/// `c` lies on a screen `w` by `h` cells.
pub open spec fn on_screen(c: Cursor, w: int, h: int) -> bool {
    0 <= c.pos.x < w && 0 <= c.pos.y < h
}

/// A placed image can be moved a row up or down without leaving `i32`: it
/// starts above the bottom of a screen `h` rows high, ends at or below its
/// top, and is less than `i32::MAX - h` rows high.
pub open spec fn placed_ok(p: PlacedView, h: int) -> bool {
    &&& p.top < h
    &&& 0 <= p.bottom
    &&& p.top <= p.bottom
    &&& p.bottom - p.top <= i32::MAX - h
    &&& 0 <= p.left <= p.right
}

/// The terminal is well formed: a screen of at least one cell whose cell
/// count fits in `i32`, holding a cell for each position; the cursors on
/// it; a non-empty scrolling region within it; cells at least a pixel wide
/// and high; images that can scroll.
pub open spec fn term_wf(v: TermView) -> bool {
    let w = v.size.width as int;
    let h = v.size.height as int;
    &&& w >= 1
    &&& h >= 1
    &&& w * h <= i32::MAX
    &&& v.screen.len() == w * h
    &&& on_screen(v.cursor, w, h)
    &&& (v.saved_cursor matches Some(c) ==> on_screen(c, w, h))
    &&& 0 <= v.scroll_top < v.scroll_end <= h
    &&& v.cell_size.width >= 1
    &&& v.cell_size.height >= 1
    &&& forall|i: int| 0 <= i < v.sixels.len() ==> placed_ok(#[trigger] v.sixels[i], h)
}

/// The whole screen as a range.
pub open spec fn screen_range(v: TermView) -> Range2d<ScreenCell> {
    Range2d {
        h: std::ops::Range { start: 0i32, end: v.size.width },
        v: std::ops::Range { start: 0i32, end: v.size.height },
    }
}

/// The scrolling region as a range.
pub open spec fn scroll_range(v: TermView) -> Range2d<ScreenCell> {
    Range2d {
        h: std::ops::Range { start: 0i32, end: v.size.width },
        v: std::ops::Range { start: v.scroll_top, end: v.scroll_end },
    }
}

/// The cells `s` of rows `w` wide with the cells of columns `x0..x1` of rows
/// `y0..y1` blanked.
pub open spec fn cleared_cells(s: Seq<Cell>, w: int, x0: int, x1: int, y0: int, y1: int) -> Seq<Cell> {
    Seq::new(
        s.len(),
        |i: int| if x0 <= i % w < x1 && y0 <= i / w < y1 { blank() } else { s[i] },
    )
}

/// The placed image `p` shares a cell with columns `x0..x1` of rows `y0..y1`.
pub open spec fn overlaps(p: PlacedView, x0: int, x1: int, y0: int, y1: int) -> bool {
    let top = if p.top >= y0 { p.top as int } else { y0 };
    let left = if p.left >= x0 { p.left as int } else { x0 };
    let bottom = if p.bottom <= y1 { p.bottom as int } else { y1 };
    let right = if p.right <= x1 { p.right as int } else { x1 };
    top <= bottom - 1 && left <= right - 1
}

/// The terminal with columns `x0..x1` of rows `y0..y1` blanked and the
/// images over them removed.
pub open spec fn cleared(v: TermView, x0: int, x1: int, y0: int, y1: int) -> TermView {
    TermView {
        screen: cleared_cells(v.screen, v.size.width as int, x0, x1, y0, y1),
        sixels: v.sixels.filter(|p: PlacedView| !overlaps(p, x0, x1, y0, y1)),
        ..v
    }
}

/// The terminal after a reset: the cursor at the top left corner with the
/// default attribute and shown, nothing saved, the whole screen scrolling
/// and blank, and no image.
pub open spec fn reset_view(v: TermView) -> TermView {
    let w = v.size.width as int;
    let h = v.size.height as int;
    cleared(
        TermView {
            cursor: Cursor { pos: Point { x: 0, y: 0 }, attr: default_attribute(), visible: true },
            saved_cursor: None,
            scroll_top: 0,
            scroll_end: v.size.height,
            end_of_line: false,
            ..v
        },
        0,
        w,
        0,
        h,
    )
}

/// The cells of rows `w` wide with rows `top + 1..end` moved a row up and
/// row `end - 1` blanked.
pub open spec fn scrolled_up_cells(s: Seq<Cell>, w: int, top: int, end: int) -> Seq<Cell> {
    Seq::new(
        s.len(),
        |i: int|
            if top <= i / w < end - 1 {
                s[i + w]
            } else if i / w == end - 1 {
                blank()
            } else {
                s[i]
            },
    )
}

/// The cells of rows `w` wide with rows `top..end - 1` moved a row down and
/// row `top` blanked.
pub open spec fn scrolled_down_cells(s: Seq<Cell>, w: int, top: int, end: int) -> Seq<Cell> {
    Seq::new(
        s.len(),
        |i: int|
            if top < i / w < end {
                s[i - w]
            } else if i / w == top {
                blank()
            } else {
                s[i]
            },
    )
}

/// The placed image `p` moved `d` rows down.
pub open spec fn shifted(p: PlacedView, d: int) -> PlacedView {
    PlacedView { top: (p.top + d) as i32, bottom: (p.bottom + d) as i32, ..p }
}

/// The placed image `p` still has a row on a screen `h` rows high.
pub open spec fn still_shown(p: PlacedView, h: int) -> bool {
    !(p.bottom - 1 < 0 || p.top >= h)
}

/// The images moved `d` rows down, those that left the screen dropped.
pub open spec fn shifted_images(v: TermView, d: int) -> Seq<PlacedView> {
    v.sixels.map_values(|p: PlacedView| shifted(p, d)).filter(
        |p: PlacedView| still_shown(p, v.size.height as int),
    )
}

/// The terminal scrolled up: the rows of the scrolling region move a row
/// up, its last row becomes blank, and every image moves a row up.
pub open spec fn scrolled_up(v: TermView) -> TermView {
    TermView {
        screen: scrolled_up_cells(v.screen, v.size.width as int, v.scroll_top as int, v.scroll_end as int),
        sixels: shifted_images(v, -1),
        ..v
    }
}

/// The terminal scrolled down: the rows of the scrolling region move a row
/// down, its first row becomes blank, and every image moves a row down.
pub open spec fn scrolled_down(v: TermView) -> TermView {
    TermView {
        screen: scrolled_down_cells(v.screen, v.size.width as int, v.scroll_top as int, v.scroll_end as int),
        sixels: shifted_images(v, 1),
        ..v
    }
}

/// The cursor moved by `m` and kept on the screen; the last column is no
/// longer filled.
pub open spec fn moved(v: TermView, m: CursorMove) -> TermView {
    TermView { end_of_line: false, cursor: saturating_moved(v.cursor, m, screen_range(v)), ..v }
}

/// One row down within the scrolling region, or a scroll up where the
/// cursor cannot move down.
pub open spec fn line_down(v: TermView) -> TermView {
    match tried_move(v.cursor, CursorMove::Down(1), scroll_range(v)) {
        Some(c) => TermView { cursor: c, ..v },
        None => scrolled_up(v),
    }
}

/// `n` rows down; see `line_down`.
pub open spec fn lines_down(v: TermView, n: nat) -> TermView
    decreases n,
{
    if n == 0 {
        v
    } else {
        lines_down(line_down(v), (n - 1) as nat)
    }
}

/// Columns a character takes: two for wide and full-width characters, one
/// for all others.
pub open spec fn char_columns(ch: char) -> int {
    match width_of_class(east_asian_width_of(ch)) {
        CharWidth::Half => 1,
        CharWidth::Full => 2,
    }
}

/// The terminal after writing `ch` at the cursor.  After a character that
/// filled the last column the cursor first goes to the start of the next
/// row; where the character does not fit in the rest of the row it goes
/// there too.  The cell under the cursor takes the character with the
/// cursor's attribute; the cursor then moves past it, or, at the end of the
/// row, stays and marks the last column as filled.
pub open spec fn char_inserted(v: TermView, ch: char) -> TermView {
    let cw = char_columns(ch);
    let v1 = if v.end_of_line { lines_down(moved(v, CursorMove::LeftMost), 1) } else { v };
    let v2 = if tried_move(v1.cursor, CursorMove::Right((cw - 1) as usize), scroll_range(v1)) is Some {
        v1
    } else {
        lines_down(moved(v1, CursorMove::LeftMost), 1)
    };
    let c = v2.cursor;
    let v3 = TermView {
        screen: v2.screen.update(c.pos.y * v2.size.width + c.pos.x, Cell { c: ch, attr: c.attr }),
        ..v2
    };
    match tried_move(v3.cursor, CursorMove::Right(cw as usize), scroll_range(v3)) {
        Some(c2) => TermView { cursor: c2, ..v3 },
        None => TermView { end_of_line: true, ..v3 },
    }
}

/// Rows of cells a sixel image `img` covers: its height in cells, rounded up.
pub open spec fn sixel_rows(v: TermView, img: Image) -> int {
    (img.height + v.cell_size.height - 1) / (v.cell_size.height as int)
}

/// Columns of cells a sixel image `img` covers: its width in cells, rounded up.
pub open spec fn sixel_cols(v: TermView, img: Image) -> int {
    (img.width + v.cell_size.width - 1) / (v.cell_size.width as int)
}

/// The terminal after placing the sixel image `img`: the cursor moves down
/// as many rows as the image covers (scrolling as needed), and the image is
/// placed over the rows above it, from the cursor's column.
pub open spec fn sixel_placed(v: TermView, img: Image) -> TermView {
    let lines = sixel_rows(v, img);
    let v1 = lines_down(v, lines as nat);
    let x = v1.cursor.pos.x as int;
    let y = v1.cursor.pos.y - lines;
    TermView {
        sixels: v1.sixels.push(
            PlacedView {
                left: x as i32,
                right: (x + sixel_cols(v, img)) as i32,
                top: y as i32,
                bottom: (y + lines) as i32,
                height: img.height,
                width: img.width,
                data: img.buf@,
            },
        ),
        ..v1
    }
}

/// The cursor of a terminal that was just reset.
pub open spec fn home_cursor() -> Cursor {
    Cursor { pos: Point { x: 0, y: 0 }, attr: default_attribute(), visible: true }
}

/// The terminal after the operation `op`.
pub open spec fn processed(v: TermView, op: ControlOp) -> TermView {
    let c = v.cursor;
    let x = c.pos.x as int;
    let y = c.pos.y as int;
    let w = v.size.width as int;
    let h = v.size.height as int;
    match op {
        ControlOp::InsertChar(ch) => char_inserted(v, ch),
        ControlOp::Tab => moved(v, CursorMove::Right(((8 - x % 8) % 8) as usize)),
        ControlOp::LineFeed => lines_down(v, 1),
        ControlOp::CarriageReturn => moved(v, CursorMove::LeftMost),
        ControlOp::CursorMove(m) => moved(v, m),
        ControlOp::SaveCursor => TermView { saved_cursor: Some(c), ..v },
        ControlOp::RestoreCursor => TermView {
            cursor: match v.saved_cursor {
                Some(s) => s,
                None => home_cursor(),
            },
            ..v
        },
        ControlOp::HideCursor => TermView { cursor: Cursor { visible: false, ..c }, ..v },
        ControlOp::ShowCursor => TermView { cursor: Cursor { visible: true, ..c }, ..v },
        ControlOp::EraseEndOfLine => cleared(v, x, w, y, y + 1),
        ControlOp::EraseStartOfLine => cleared(v, 0, x + 1, y, y + 1),
        ControlOp::EraseLine => cleared(v, 0, w, y, y + 1),
        ControlOp::EraseDown => cleared(cleared(v, x, w, y, y + 1), 0, w, y + 1, h),
        ControlOp::EraseUp => cleared(cleared(v, 0, x + 1, y, y + 1), 0, w, 0, y),
        ControlOp::EraseScreen => cleared(v, 0, w, 0, h),
        ControlOp::Reset => reset_view(v),
        ControlOp::SetScrollRange(r) => TermView { scroll_top: r.start, scroll_end: r.end, ..v },
        ControlOp::ChangeCellAttribute(style, fg, bg) => TermView {
            cursor: Cursor {
                attr: CellAttribute {
                    style: match style {
                        Some(s) => s,
                        None => c.attr.style,
                    },
                    fg: match fg {
                        Some(f) => f,
                        None => c.attr.fg,
                    },
                    bg: match bg {
                        Some(b) => b,
                        None => c.attr.bg,
                    },
                },
                ..c
            },
            ..v
        },
        ControlOp::ScrollUp => scrolled_up(v),
        ControlOp::ScrollDown => scrolled_down(v),
        ControlOp::Sixel(img) => sixel_placed(v, img),
        _ => v,
    }
}

/// The operation `op` can be carried out on `v`: a scrolling region must
/// lie on the screen and hold a row, and a sixel image must be small enough
/// that its size in cells, rounded up, and its place fit in `i32`.
pub open spec fn op_ok(v: TermView, op: ControlOp) -> bool {
    match op {
        ControlOp::SetScrollRange(r) => 0 <= r.start < r.end <= v.size.height,
        ControlOp::Sixel(img) => {
            &&& img.height + v.cell_size.height - 1 <= usize::MAX
            &&& img.width + v.cell_size.width - 1 <= usize::MAX
            &&& sixel_rows(v, img) <= i32::MAX - v.size.height
            &&& sixel_cols(v, img) <= i32::MAX - v.size.width
        },
        _ => true,
    }
}

/// Carrying out the operations `ops` in turn on `v`, passing over those that
/// cannot be carried out (see `op_ok`).
pub open spec fn applied(v: TermView, ops: Seq<ControlOp>) -> TermView
    decreases ops.len(),
{
    if ops.len() == 0 {
        v
    } else {
        let v1 = if op_ok(v, ops[0]) { processed(v, ops[0]) } else { v };
        applied(v1, ops.drop_first())
    }
}

/// Saving the cursor and restoring it gives back the cursor, its attribute
/// and visibility included, and changes nothing else.
pub proof fn lemma_save_then_restore(v: TermView)
    ensures
        processed(processed(v, ControlOp::SaveCursor), ControlOp::RestoreCursor) == (TermView {
            saved_cursor: Some(v.cursor),
            ..v
        }),
{
}

/// Carrying out `a` then `b` is carrying out `a + b`.
proof fn lemma_applied_concat(v: TermView, a: Seq<ControlOp>, b: Seq<ControlOp>)
    ensures
        applied(v, a + b) == applied(applied(v, a), b),
    decreases a.len(),
{
    if a.len() == 0 {
        assert(a + b =~= b);
    } else {
        assert((a + b).drop_first() =~= a.drop_first() + b);
        assert((a + b)[0] == a[0]);
        let v1 = if op_ok(v, a[0]) { processed(v, a[0]) } else { v };
        lemma_applied_concat(v1, a.drop_first(), b);
    }
}

/// Moving down keeps the saved cursor.
proof fn lemma_lines_down_keeps_saved(v: TermView, n: nat)
    ensures
        lines_down(v, n).saved_cursor == v.saved_cursor,
    decreases n,
{
    if n > 0 {
        lemma_lines_down_keeps_saved(line_down(v), (n - 1) as nat);
    }
}

/// An operation other than saving the cursor and resetting keeps the saved cursor.
proof fn lemma_processed_keeps_saved(v: TermView, op: ControlOp)
    requires
        !(op is SaveCursor),
        !(op is Reset),
    ensures
        processed(v, op).saved_cursor == v.saved_cursor,
{
    match op {
        ControlOp::LineFeed => lemma_lines_down_keeps_saved(v, 1),
        ControlOp::InsertChar(ch) => {
            let v0 = moved(v, CursorMove::LeftMost);
            lemma_lines_down_keeps_saved(v0, 1);
            let v1 = if v.end_of_line { lines_down(v0, 1) } else { v };
            lemma_lines_down_keeps_saved(moved(v1, CursorMove::LeftMost), 1);
        },
        ControlOp::Sixel(img) => lemma_lines_down_keeps_saved(v, sixel_rows(v, img) as nat),
        _ => {},
    }
}

/// Operations other than saving the cursor and resetting keep the saved cursor.
proof fn lemma_saved_cursor_kept(v: TermView, ops: Seq<ControlOp>)
    requires
        forall|i: int| 0 <= i < ops.len() ==> !(#[trigger] ops[i] is SaveCursor) && !(ops[i] is Reset),
    ensures
        applied(v, ops).saved_cursor == v.saved_cursor,
    decreases ops.len(),
{
    if ops.len() > 0 {
        let v1 = if op_ok(v, ops[0]) { processed(v, ops[0]) } else { v };
        assert(!(ops[0] is SaveCursor) && !(ops[0] is Reset));
        lemma_processed_keeps_saved(v, ops[0]);
        assert forall|i: int| 0 <= i < ops.drop_first().len() implies !(#[trigger] ops.drop_first()[i] is SaveCursor) && !(ops.drop_first()[i] is Reset) by {
            assert(ops.drop_first()[i] == ops[i + 1]);
        }
        lemma_saved_cursor_kept(v1, ops.drop_first());
    }
}

/// Whatever operations come between saving the cursor and restoring it, as
/// long as none saves the cursor again or resets the terminal, restoring
/// gives back the cursor as it was saved, its attribute and visibility
/// included.
/// Carrying out a single operation.
proof fn lemma_applied_one(v: TermView, op: ControlOp)
    ensures
        applied(v, seq![op]) == (if op_ok(v, op) { processed(v, op) } else { v }),
{
    reveal_with_fuel(applied, 2);
    assert(seq![op].drop_first() =~= Seq::<ControlOp>::empty());
}

/// Whatever operations come between saving the cursor and restoring it, as
/// long as none saves the cursor again or resets the terminal, restoring
/// gives back the cursor as it was saved, its attribute and visibility
/// included.
#[verifier::spinoff_prover]
pub proof fn lemma_restore_after_operations(v: TermView, w: Seq<ControlOp>)
    requires
        forall|i: int| 0 <= i < w.len() ==> !(#[trigger] w[i] is SaveCursor) && !(w[i] is Reset),
    ensures
        applied(v, seq![ControlOp::SaveCursor] + w + seq![ControlOp::RestoreCursor]).cursor == v.cursor,
{
    let save = seq![ControlOp::SaveCursor];
    let restore = seq![ControlOp::RestoreCursor];
    lemma_applied_one(v, ControlOp::SaveCursor);
    let v1 = applied(v, save);
    assert(v1.saved_cursor == Some(v.cursor));
    lemma_applied_concat(v, save, w);
    lemma_applied_concat(v, save + w, restore);
    lemma_saved_cursor_kept(v1, w);
    let v2 = applied(v1, w);
    lemma_applied_one(v2, ControlOp::RestoreCursor);
    assert(applied(v2, restore).cursor == v.cursor);
}

/// A character that fits in the rest of the cursor's row is written under
/// the cursor, with the cursor's attribute, and the cells before it stay as
/// they were.
pub proof fn lemma_inserted_char_lands(v: TermView, ch: char)
    requires
        term_wf(v),
        !v.end_of_line,
        tried_move(v.cursor, CursorMove::Right((char_columns(ch) - 1) as usize), scroll_range(v)) is Some,
    ensures
        ({
            let c = v.cursor;
            let at = c.pos.y * v.size.width + c.pos.x;
            let s = processed(v, ControlOp::InsertChar(ch)).screen;
            &&& s[at] == (Cell { c: ch, attr: c.attr })
            &&& forall|i: int| 0 <= i < at ==> #[trigger] s[i] == v.screen[i]
        }),
{
    let c = v.cursor;
    lemma_cell_index(v.size.width as int, v.size.height as int, c.pos.x as int, c.pos.y as int);
}

/// Erasing the screen leaves every cell blank and keeps no image that
/// covers a cell of the screen.
pub proof fn lemma_erase_screen_blanks_all(v: TermView)
    requires
        term_wf(v),
    ensures
        forall|i: int| 0 <= i < v.screen.len() ==> #[trigger] processed(v, ControlOp::EraseScreen).screen[i] == blank(),
        forall|i: int|
            0 <= i < processed(v, ControlOp::EraseScreen).sixels.len() ==> !overlaps(
                #[trigger] processed(v, ControlOp::EraseScreen).sixels[i],
                0,
                v.size.width as int,
                0,
                v.size.height as int,
            ),
{
    let w = v.size.width as int;
    let h = v.size.height as int;
    assert forall|i: int| 0 <= i < v.screen.len() implies #[trigger] processed(v, ControlOp::EraseScreen).screen[i] == blank() by {
        lemma_index_cell(w, h, i);
    }
    let keep = |p: PlacedView| !overlaps(p, 0, w, 0, h);
    assert forall|i: int| 0 <= i < v.sixels.filter(keep).len() implies !overlaps(#[trigger] v.sixels.filter(keep)[i], 0, w, 0, h) by {
        v.sixels.lemma_filter_pred(keep, i);
    }
}

/// The cells as they are drawn: the one under the cursor, when it is shown
/// in a focused window, in reverse video with the default colors.
pub open spec fn shown_cells(v: TermView) -> Seq<Cell> {
    let at = v.cursor.pos.y * v.size.width + v.cursor.pos.x;
    Seq::new(
        v.screen.len(),
        |i: int|
            if v.has_focus && v.cursor.visible && i == at {
                Cell { c: v.screen[i].c, attr: CellAttribute { style: Style::Reverse, ..default_attribute() } }
            } else {
                v.screen[i]
            },
    )
}

/// One row down is `line_down`.
proof fn lemma_lines_down_one(v: TermView)
    ensures
        lines_down(v, 1) == line_down(v),
        line_down(v).end_of_line == v.end_of_line,
{
    assert(lines_down(line_down(v), 0) == line_down(v));
}

/// Moving down keeps the sizes of the screen and of a cell.
proof fn lemma_lines_down_frame(v: TermView, n: nat)
    ensures
        lines_down(v, n).size == v.size,
        lines_down(v, n).cell_size == v.cell_size,
    decreases n,
{
    if n > 0 {
        lemma_lines_down_frame(line_down(v), (n - 1) as nat);
    }
}

/// Copies row `from` of the cells `buf` (rows `w` wide) onto row `to`.
fn copy_row(buf: &mut Vec<Cell>, w: i32, h: i32, from: i32, to: i32)
    requires
        w >= 1,
        h >= 1,
        w * h <= i32::MAX,
        old(buf)@.len() == w * h,
        0 <= from < h,
        0 <= to < h,
    ensures
        final(buf)@.len() == old(buf)@.len(),
        forall|i: int| 0 <= i < old(buf)@.len() && i / (w as int) != to ==> #[trigger] final(buf)@[i] == old(buf)@[i],
        forall|x: int| 0 <= x < w ==> #[trigger] final(buf)@[to * w + x] == old(buf)@[from * w + x],
{
    let ghost s = buf@;
    let mut x: i32 = 0;
    while x < w
        invariant
            0 <= x <= w,
            w >= 1,
            w * h <= i32::MAX,
            0 <= from < h,
            0 <= to < h,
            buf@.len() == s.len(),
            s.len() == w * h,
            forall|i: int| 0 <= i < s.len() && (i / (w as int) != to || i % (w as int) >= x) ==> #[trigger] buf@[i] == s[i],
            forall|k: int| 0 <= k < x ==> #[trigger] buf@[to * w + k] == s[from * w + k],
        decreases w - x,
    {
        proof {
            lemma_cell_index(w as int, h as int, x as int, from as int);
            lemma_cell_index(w as int, h as int, x as int, to as int);
        }
        let src = from as usize * w as usize + x as usize;
        let dst = to as usize * w as usize + x as usize;
        let c = buf[src];
        proof {
            if from != to {
                assert(buf@[src as int] == s[src as int]);
            } else {
                assert(buf@[src as int] == s[src as int]);
            }
        }
        buf.set(dst, c);
        proof {
            assert forall|i: int| 0 <= i < s.len() && (i / (w as int) != to || i % (w as int) >= x + 1) implies #[trigger] buf@[i] == s[i] by {
                lemma_index_cell(w as int, h as int, i);
                if i == dst {
                    if from == to {
                    }
                }
            }
            assert forall|k: int| 0 <= k < x + 1 implies #[trigger] buf@[to * w + k] == s[from * w + k] by {
                if k < x {
                    lemma_cell_index(w as int, h as int, k, to as int);
                }
            }
        }
        x += 1;
    }
}

/// Blanks row `y` of the cells `buf` (rows `w` wide).
fn blank_row(buf: &mut Vec<Cell>, w: i32, h: i32, y: i32)
    requires
        w >= 1,
        h >= 1,
        w * h <= i32::MAX,
        old(buf)@.len() == w * h,
        0 <= y < h,
    ensures
        final(buf)@ == Seq::new(old(buf)@.len(), |i: int| if i / (w as int) == y { blank() } else { old(buf)@[i] }),
{
    let ghost s = buf@;
    let mut x: i32 = 0;
    while x < w
        invariant
            0 <= x <= w,
            w >= 1,
            w * h <= i32::MAX,
            0 <= y < h,
            s.len() == w * h,
            buf@ == Seq::new(s.len(), |i: int| if i / (w as int) == y && i % (w as int) < x { blank() } else { s[i] }),
        decreases w - x,
    {
        proof {
            lemma_cell_index(w as int, h as int, x as int, y as int);
        }
        let dst = y as usize * w as usize + x as usize;
        buf.set(dst, Cell::default());
        proof {
            let goal = Seq::new(s.len(), |i: int| if i / (w as int) == y && i % (w as int) < x + 1 { blank() } else { s[i] });
            assert forall|i: int| 0 <= i < s.len() implies #[trigger] buf@[i] == goal[i] by {
                lemma_index_cell(w as int, h as int, i);
                if i != dst && i / (w as int) == y && i % (w as int) == x {
                    assert(i == y * w + x);
                }
            }
            assert(buf@ =~= goal);
        }
        x += 1;
    }
    proof {
        assert forall|i: int| 0 <= i < s.len() implies #[trigger] buf@[i] == (if i / (w as int) == y { blank() } else { s[i] }) by {
            lemma_index_cell(w as int, h as int, i);
        }
        assert(buf@ =~= Seq::new(s.len(), |i: int| if i / (w as int) == y { blank() } else { s[i] }));
    }
}

/// The terminal: the decoder of the program's output and the screen model
/// it drives.
pub struct Term {
    parser: Parser,
    cell_size: Size<Pixel>,
    screen_size: Size<ScreenCell>,
    scroll_range: Range2d<ScreenCell>,
    cursor: Cursor,
    saved_cursor: Option<Cursor>,
    screen_buf: Vec<Cell>,
    end_of_line: bool,
    has_focus: bool,
    sixels: Vec<SixelImage>,
}

impl View for Term {
    type V = TermView;

    /// The terminal as a value.
    closed spec fn view(&self) -> TermView {
        TermView {
            cell_size: self.cell_size,
            size: self.screen_size,
            scroll_top: self.scroll_range.v.start,
            scroll_end: self.scroll_range.v.end,
            cursor: self.cursor,
            saved_cursor: self.saved_cursor,
            screen: self.screen_buf@,
            end_of_line: self.end_of_line,
            has_focus: self.has_focus,
            sixels: self.sixels@.map_values(|s: SixelImage| s.view()),
        }
    }
}

impl Term {
    /// The terminal is well formed (see `term_wf`), and so is its decoder.
    pub closed spec fn wf(&self) -> bool {
        &&& term_wf(self@)
        &&& self.scroll_range.h.start == 0
        &&& self.scroll_range.h.end == self.screen_size.width
        &&& self.parser.wf()
        &&& self.parser.ops().len() == 0
    }

    /// What the decoder is in the middle of.
    pub closed spec fn decoder_state(&self) -> StateView {
        self.parser.state_view()
    }

    /// The color registers of the sixel decoder.
    pub closed spec fn decoder_palette(&self) -> Seq<crate::sixel_codec::Color> {
        self.parser.palette()
    }

    /// A blank terminal of `size` cells, each `cell_size` pixels large.
    pub fn new(cell_size: Size<Pixel>, size: Size<ScreenCell>) -> (t: Self)
        requires
            size.width >= 1,
            size.height >= 1,
            size.width * size.height <= i32::MAX,
            cell_size.width >= 1,
            cell_size.height >= 1,
        ensures
            t.wf(),
            t@.cell_size == cell_size,
            t@.size == size,
            t@.has_focus,
            t@ == reset_view(t@),
            t@.sixels.len() == 0,
    {
        let n = size.width as usize * size.height as usize;
        let mut screen_buf: Vec<Cell> = Vec::new();
        let mut i: usize = 0;
        while i < n
            invariant
                i <= n,
                screen_buf@.len() == i,
                forall|k: int| 0 <= k < i ==> screen_buf@[k] == blank(),
            decreases n - i,
        {
            screen_buf.push(Cell::default());
            i += 1;
        }
        let mut term = Term {
            parser: Parser::new(),
            cell_size,
            screen_size: size,
            cursor: Cursor::default(),
            saved_cursor: None,
            screen_buf,
            scroll_range: Range2d::from(size),
            end_of_line: false,
            has_focus: true,
            sixels: Vec::new(),
        };
        assert(term@.sixels =~= Seq::<PlacedView>::empty());
        term.reset();
        proof {
            let v = term@;
            assert(v.screen =~= cleared_cells(v.screen, v.size.width as int, 0, v.size.width as int, 0, v.size.height as int)) by {
                assert forall|k: int| 0 <= k < v.screen.len() implies v.screen[k] == blank() by {
                    lemma_index_cell(size.width as int, size.height as int, k);
                }
            }
            assert(v.sixels.filter(|p: PlacedView| !overlaps(p, 0, size.width as int, 0, size.height as int)) =~= v.sixels);
        }
        term
    }

    /// The window lost the focus.
    pub fn focus_lost(&mut self)
        ensures
            final(self)@ == (TermView { has_focus: false, ..old(self)@ }),
            old(self).wf() ==> final(self).wf(),
    {
        self.has_focus = false;
    }

    /// The window gained the focus.
    pub fn focus_gained(&mut self)
        ensures
            final(self)@ == (TermView { has_focus: true, ..old(self)@ }),
            old(self).wf() ==> final(self).wf(),
    {
        self.has_focus = true;
    }

    /// Moves the cursor to the top left corner with the default attribute,
    /// forgets the saved cursor, lets the whole screen scroll, and blanks it.
    pub fn reset(&mut self)
        requires
            old(self).wf(),
        ensures
            final(self).wf(),
            final(self)@ == reset_view(old(self)@),
    {
        self.cursor = Cursor::default();
        self.saved_cursor = None;
        self.scroll_range = Range2d::from(self.screen_size);
        self.end_of_line = false;
        let full = Range2d::from(self.screen_size);
        self.clear_screen_part(&full);
    }

    /// Blanks the cells of `range` and removes the images over them.
    fn clear_screen_part(&mut self, range: &Range2d<ScreenCell>)
        requires
            old(self).parser.wf(),
            old(self).parser.ops().len() == 0,
            old(self).scroll_range.h.start == 0,
            old(self).scroll_range.h.end == old(self).screen_size.width,
            0 <= old(self)@.scroll_top < old(self)@.scroll_end <= old(self)@.size.height,
            old(self)@.size.width >= 1,
            old(self)@.size.height >= 1,
            old(self)@.size.width * old(self)@.size.height <= i32::MAX,
            old(self)@.screen.len() == old(self)@.size.width * old(self)@.size.height,
            on_screen(old(self)@.cursor, old(self)@.size.width as int, old(self)@.size.height as int),
            old(self)@.saved_cursor matches Some(c) ==> on_screen(c, old(self)@.size.width as int, old(self)@.size.height as int),
            old(self)@.cell_size.width >= 1,
            old(self)@.cell_size.height >= 1,
            forall|i: int| 0 <= i < old(self)@.sixels.len() ==> placed_ok(#[trigger] old(self)@.sixels[i], old(self)@.size.height as int),
            0 <= range.h.start,
            range.h.end <= old(self)@.size.width,
            0 <= range.v.start,
            range.v.end <= old(self)@.size.height,
        ensures
            final(self).wf(),
            final(self)@ == cleared(
                old(self)@,
                range.h.start as int,
                range.h.end as int,
                range.v.start as int,
                range.v.end as int,
            ),
    {
        let ghost v0 = self@;
        let w = self.screen_size.width;
        let hgt = self.screen_size.height;
        let ghost wi = w as int;
        let ghost hi = hgt as int;
        let x0 = range.h.start;
        let x1 = range.h.end;
        let y0 = range.v.start;
        let y1 = range.v.end;
        let mut buf: Vec<Cell> = Vec::new();
        std::mem::swap(&mut buf, &mut self.screen_buf);
        let mut y = y0;
        while y < y1
            invariant
                y0 <= y,
                y <= y1 || y == y0,
                0 <= y0,
                y1 <= hi,
                0 <= x0,
                x1 <= wi,
                wi == w,
                hi == hgt,
                wi >= 1,
                hi >= 1,
                wi * hi <= i32::MAX,
                buf@.len() == wi * hi,
                buf@ == cleared_cells(v0.screen, wi, x0 as int, x1 as int, y0 as int, y as int),
            decreases y1 - y,
        {
            let mut x = x0;
            while x < x1
                invariant
                    x0 <= x,
                    x <= x1 || x == x0,
                    0 <= x0,
                    x1 <= wi,
                    y0 <= y < y1,
                    0 <= y0,
                    y1 <= hi,
                    wi == w,
                    hi == hgt,
                    wi >= 1,
                    wi * hi <= i32::MAX,
                    buf@.len() == wi * hi,
                    buf@ == Seq::new(
                        v0.screen.len(),
                        |i: int|
                            if (x0 <= i % wi < x1 && y0 <= i / wi < y) || (x0 <= i % wi < x && i / wi == y) {
                                blank()
                            } else {
                                v0.screen[i]
                            },
                    ),
                decreases x1 - x,
            {
                proof {
                    lemma_cell_index(wi, hi, x as int, y as int);
                }
                let idx = y as usize * w as usize + x as usize;
                buf.set(idx, Cell::default());
                proof {
                    let goal = Seq::new(
                        v0.screen.len(),
                        |i: int|
                            if (x0 <= i % wi < x1 && y0 <= i / wi < y) || (x0 <= i % wi < x + 1 && i / wi == y) {
                                blank()
                            } else {
                                v0.screen[i]
                            },
                    );
                    assert forall|i: int| 0 <= i < v0.screen.len() implies #[trigger] buf@[i] == goal[i] by {
                        lemma_index_cell(wi, hi, i);
                        if i != idx {
                            if i / wi == y && i % wi == x {
                                assert(i == y * wi + x);
                            }
                        }
                    }
                    assert(buf@ =~= goal);
                }
                x += 1;
            }
            proof {
                assert(buf@ =~= cleared_cells(v0.screen, wi, x0 as int, x1 as int, y0 as int, y + 1));
            }
            y += 1;
        }
        proof {
            if y1 < y0 {
                assert(buf@ =~= cleared_cells(v0.screen, wi, x0 as int, x1 as int, y0 as int, y1 as int));
            }
        }
        self.screen_buf = buf;
        let ghost views = v0.sixels;
        let ghost keep = |p: PlacedView| !overlaps(p, x0 as int, x1 as int, y0 as int, y1 as int);
        let mut rest: Vec<SixelImage> = Vec::new();
        std::mem::swap(&mut rest, &mut self.sixels);
        let mut kept: Vec<SixelImage> = Vec::new();
        let ghost n = views.len();
        let ghost mut k: int = 0;
        assert(rest@.map_values(|s: SixelImage| s.view()) =~= views);
        assert(views.subrange(0, n as int) =~= views);
        assert(kept@.map_values(|s: SixelImage| s.view()) =~= views.subrange(0, 0).filter(keep));
        while rest.len() > 0
            invariant
                0 <= k <= n,
                n == views.len(),
                rest@.len() == n - k,
                rest@.map_values(|s: SixelImage| s.view()) == views.subrange(k, n as int),
                kept@.map_values(|s: SixelImage| s.view()) == views.subrange(0, k).filter(keep),
                forall|i: int| 0 <= i < kept@.len() ==> placed_ok(#[trigger] kept@[i].view(), hi),
                forall|i: int| 0 <= i < views.len() ==> placed_ok(#[trigger] views[i], hi),
                keep == (|p: PlacedView| !overlaps(p, x0 as int, x1 as int, y0 as int, y1 as int)),
            decreases rest@.len(),
        {
            let ghost before = kept@.map_values(|s: SixelImage| s.view());
            let ghost rv = rest@.map_values(|s: SixelImage| s.view());
            let s = rest.remove(0);
            assert(rv[0] == s.view());
            assert(views[k] == rv[0]);
            let top = if s.range.v.start >= y0 { s.range.v.start } else { y0 };
            let left = if s.range.h.start >= x0 { s.range.h.start } else { x0 };
            let bottom = if s.range.v.end <= y1 { s.range.v.end } else { y1 };
            let right = if s.range.h.end <= x1 { s.range.h.end } else { x1 };
            let hit = (top as i64) <= (bottom as i64) - 1 && (left as i64) <= (right as i64) - 1;
            if !hit {
                kept.push(s);
                assert(kept@.map_values(|s: SixelImage| s.view()) =~= before.push(views[k]));
            } else {
                assert(kept@.map_values(|s: SixelImage| s.view()) =~= before);
            }
            proof {
                let sub = views.subrange(0, k + 1);
                assert(views.subrange(0, k) =~= sub.drop_last());
                reveal_with_fuel(Seq::filter, 1);
                assert(sub.last() == views[k]);
                assert forall|j: int| 0 <= j < rest@.len() implies #[trigger] rest@[j].view() == views[k + 1 + j] by {
                    assert(rv[j + 1] == views.subrange(k, n as int)[j + 1]);
                }
                assert(rest@.map_values(|s: SixelImage| s.view()) =~= views.subrange(k + 1, n as int));
                k = k + 1;
            }
        }
        assert(views.subrange(0, n as int) =~= views);
        self.sixels = kept;
        assert(self@.sixels == cleared(v0, x0 as int, x1 as int, y0 as int, y1 as int).sixels);
        assert forall|i: int| 0 <= i < self@.sixels.len() implies placed_ok(#[trigger] self@.sixels[i], hi) by {
            assert(self@.sixels[i] == self.sixels@[i].view());
        }
    }

    /// Moves every image `d` rows down (up when negative) and drops those
    /// that left the screen.
    fn shift_sixels(&mut self, d: i32)
        requires
            old(self).wf(),
            d == 1 || d == -1,
        ensures
            final(self).wf(),
            final(self)@ == (TermView { sixels: shifted_images(old(self)@, d as int), ..old(self)@ }),
    {
        let ghost v0 = self@;
        let ghost views = v0.sixels;
        let ghost hi = v0.size.height as int;
        let h = self.screen_size.height;
        let ghost f = |p: PlacedView| shifted(p, d as int);
        let ghost keep = |p: PlacedView| still_shown(p, hi);
        let mut rest: Vec<SixelImage> = Vec::new();
        std::mem::swap(&mut rest, &mut self.sixels);
        let mut kept: Vec<SixelImage> = Vec::new();
        let ghost n = views.len();
        let ghost mut k: int = 0;
        assert(rest@.map_values(|s: SixelImage| s.view()) =~= views);
        assert(views.subrange(0, n as int) =~= views);
        assert(kept@.map_values(|s: SixelImage| s.view()) =~= views.subrange(0, 0).map_values(f).filter(keep));
        while rest.len() > 0
            invariant
                0 <= k <= n,
                n == views.len(),
                rest@.len() == n - k,
                rest@.map_values(|s: SixelImage| s.view()) == views.subrange(k, n as int),
                kept@.map_values(|s: SixelImage| s.view()) == views.subrange(0, k).map_values(f).filter(keep),
                forall|i: int| 0 <= i < kept@.len() ==> placed_ok(#[trigger] kept@[i].view(), hi),
                forall|i: int| 0 <= i < views.len() ==> placed_ok(#[trigger] views[i], hi),
                h == hi,
                hi >= 1,
                d == 1 || d == -1,
                f == (|p: PlacedView| shifted(p, d as int)),
                keep == (|p: PlacedView| still_shown(p, hi)),
            decreases rest@.len(),
        {
            let ghost before = kept@.map_values(|s: SixelImage| s.view());
            let ghost rv = rest@.map_values(|s: SixelImage| s.view());
            let s = rest.remove(0);
            assert(rv[0] == s.view());
            assert(views[k] == rv[0]);
            assert(placed_ok(views[k], hi));
            let top = s.range.v.start + d;
            let bottom = s.range.v.end + d;
            if !(bottom - 1 < 0 || top >= h) {
                let moved = SixelImage {
                    range: Range2d { h: s.range.h.start..s.range.h.end, v: top..bottom },
                    image: s.image,
                };
                assert(moved.view() == f(views[k]));
                kept.push(moved);
                assert(kept@.map_values(|s: SixelImage| s.view()) =~= before.push(f(views[k])));
            } else {
                assert(!keep(f(views[k])));
                assert(kept@.map_values(|s: SixelImage| s.view()) =~= before);
            }
            proof {
                let sub = views.subrange(0, k + 1).map_values(f);
                assert(views.subrange(0, k).map_values(f) =~= sub.drop_last());
                reveal_with_fuel(Seq::filter, 1);
                assert(sub.last() == f(views[k]));
                assert forall|j: int| 0 <= j < rest@.len() implies #[trigger] rest@[j].view() == views[k + 1 + j] by {
                    assert(rv[j + 1] == views.subrange(k, n as int)[j + 1]);
                }
                assert(rest@.map_values(|s: SixelImage| s.view()) =~= views.subrange(k + 1, n as int));
                k = k + 1;
            }
        }
        assert(views.subrange(0, n as int) =~= views);
        self.sixels = kept;
        assert(self@.sixels == shifted_images(v0, d as int));
        assert forall|i: int| 0 <= i < self@.sixels.len() implies placed_ok(#[trigger] self@.sixels[i], hi) by {
            assert(self@.sixels[i] == self.sixels@[i].view());
        }
        assert(self@ =~= (TermView { sixels: shifted_images(v0, d as int), ..v0 }));
    }

    /// Scrolls the scrolling region up a row; every image moves a row up.
    fn scroll_up(&mut self)
        requires
            old(self).wf(),
        ensures
            final(self).wf(),
            final(self)@ == scrolled_up(old(self)@),
    {
        let ghost v0 = self@;
        self.shift_sixels(-1);
        let ghost v1 = self@;
        let w = self.screen_size.width;
        let h = self.screen_size.height;
        let ghost wi = w as int;
        let top = self.scroll_range.v.start;
        let end = self.scroll_range.v.end;
        let mut buf: Vec<Cell> = Vec::new();
        std::mem::swap(&mut buf, &mut self.screen_buf);
        let ghost s = buf@;
        let mut y = top + 1;
        while y < end
            invariant
                top + 1 <= y <= end,
                0 <= top < end <= h,
                w >= 1,
                h >= 1,
                wi == w,
                w * h <= i32::MAX,
                s.len() == w * h,
                buf@ == Seq::new(s.len(), |i: int| if top <= i / wi < y - 1 { s[i + wi] } else { s[i] }),
            decreases end - y,
        {
            let ghost b0 = buf@;
            copy_row(&mut buf, w, h, y, y - 1);
            proof {
                let goal = Seq::new(s.len(), |i: int| if top <= i / wi < y { s[i + wi] } else { s[i] });
                assert forall|i: int| 0 <= i < s.len() implies #[trigger] buf@[i] == goal[i] by {
                    lemma_index_cell(wi, h as int, i);
                    if i / wi == y - 1 {
                        let x = i % wi;
                        assert(buf@[(y - 1) * w + x] == b0[y * w + x]);
                        assert((y - 1) * w + x == i);
                        assert(i + wi == y * w + x) by (nonlinear_arith)
                            requires
                                i == (y - 1) * w + x,
                                wi == w,
                        ;
                        lemma_cell_index(wi, h as int, x, y as int);
                    }
                }
                assert(buf@ =~= goal);
            }
            y += 1;
        }
        let ghost b1 = buf@;
        blank_row(&mut buf, w, h, end - 1);
        self.screen_buf = buf;
        proof {
            assert(self@.screen =~= scrolled_up_cells(s, wi, top as int, end as int));
            assert(self@ =~= scrolled_up(v0));
            assert(self@.sixels == v1.sixels);
        }
    }

    /// Scrolls the scrolling region down a row; every image moves a row down.
    fn scroll_down(&mut self)
        requires
            old(self).wf(),
        ensures
            final(self).wf(),
            final(self)@ == scrolled_down(old(self)@),
    {
        let ghost v0 = self@;
        self.shift_sixels(1);
        let ghost v1 = self@;
        let w = self.screen_size.width;
        let h = self.screen_size.height;
        let ghost wi = w as int;
        let top = self.scroll_range.v.start;
        let end = self.scroll_range.v.end;
        let mut buf: Vec<Cell> = Vec::new();
        std::mem::swap(&mut buf, &mut self.screen_buf);
        let ghost s = buf@;
        let mut r = end - 1;
        while r > top
            invariant
                top <= r <= end - 1,
                0 <= top < end <= h,
                w >= 1,
                h >= 1,
                wi == w,
                w * h <= i32::MAX,
                s.len() == w * h,
                buf@ == Seq::new(s.len(), |i: int| if r < i / wi < end { s[i - wi] } else { s[i] }),
            decreases r - top,
        {
            let ghost b0 = buf@;
            copy_row(&mut buf, w, h, r - 1, r);
            proof {
                let goal = Seq::new(s.len(), |i: int| if r - 1 < i / wi < end { s[i - wi] } else { s[i] });
                assert forall|i: int| 0 <= i < s.len() implies #[trigger] buf@[i] == goal[i] by {
                    lemma_index_cell(wi, h as int, i);
                    if i / wi == r {
                        let x = i % wi;
                        assert(buf@[r * w + x] == b0[(r - 1) * w + x]);
                        assert(r * w + x == i);
                        assert(i - wi == (r - 1) * w + x) by (nonlinear_arith)
                            requires
                                i == r * w + x,
                                wi == w,
                        ;
                        lemma_cell_index(wi, h as int, x, r - 1);
                    }
                }
                assert(buf@ =~= goal);
            }
            r -= 1;
        }
        blank_row(&mut buf, w, h, top);
        self.screen_buf = buf;
        proof {
            assert(self@.screen =~= scrolled_down_cells(s, wi, top as int, end as int));
            assert(self@ =~= scrolled_down(v0));
            assert(self@.sixels == v1.sixels);
        }
    }

    /// Moves the cursor by `m`, kept on the screen.
    fn move_cursor(&mut self, m: CursorMove)
        requires
            old(self).wf(),
        ensures
            final(self).wf(),
            final(self)@ == moved(old(self)@, m),
    {
        self.end_of_line = false;
        let full = Range2d::from(self.screen_size);
        let cursor = self.cursor.try_saturating_move(m, &full);
        self.cursor = cursor;
        assert(self@ =~= moved(old(self)@, m));
    }

    /// Moves the cursor `rep` rows down within the scrolling region,
    /// scrolling it up instead where the cursor is on its last row.
    fn move_cursor_nextline(&mut self, rep: usize)
        requires
            old(self).wf(),
        ensures
            final(self).wf(),
            final(self)@ == lines_down(old(self)@, rep as nat),
    {
        let ghost v0 = self@;
        let mut i: usize = 0;
        while i < rep
            invariant
                i <= rep,
                self.wf(),
                lines_down(v0, rep as nat) == lines_down(self@, (rep - i) as nat),
            decreases rep - i,
        {
            let ghost before = self@;
            match self.cursor.try_move(CursorMove::Down(1), &self.scroll_range) {
                Some(cursor) => {
                    self.cursor = cursor;
                },
                None => {
                    self.scroll_up();
                },
            }
            assert(self@ == line_down(before));
            i += 1;
        }
    }

    /// Writes `c` at the cursor; see `char_inserted`.
    #[verifier::rlimit(40)]
    fn insert_char(&mut self, c: char)
        requires
            old(self).wf(),
        ensures
            final(self).wf(),
            final(self)@ == char_inserted(old(self)@, c),
    {
        let ghost v0 = self@;
        let cw = CharWidth::from_char(c).columns();
        if self.end_of_line {
            self.move_cursor(CursorMove::LeftMost);
            proof {
                lemma_lines_down_one(self@);
            }
            self.move_cursor_nextline(1);
            self.end_of_line = false;
            assert(self@ =~= lines_down(moved(v0, CursorMove::LeftMost), 1));
        }
        let ghost v1 = self@;
        assert(v1 == (if v0.end_of_line { lines_down(moved(v0, CursorMove::LeftMost), 1) } else { v0 }));
        match self.cursor.try_move(CursorMove::Right(cw - 1), &self.scroll_range) {
            Some(_) => {},
            None => {
                self.move_cursor(CursorMove::LeftMost);
                self.move_cursor_nextline(1);
            },
        }
        let ghost v2 = self@;
        let cell = Cell { c, attr: self.cursor.attr };
        proof {
            lemma_cell_index(v2.size.width as int, v2.size.height as int, v2.cursor.pos.x as int, v2.cursor.pos.y as int);
        }
        let idx = self.cursor.pos.y as usize * self.screen_size.width as usize + self.cursor.pos.x as usize;
        self.screen_buf.set(idx, cell);
        let ghost v3 = self@;
        assert(v3 =~= TermView {
            screen: v2.screen.update(v2.cursor.pos.y * v2.size.width + v2.cursor.pos.x, Cell { c, attr: v2.cursor.attr }),
            ..v2
        });
        match self.cursor.try_move(CursorMove::Right(cw), &self.scroll_range) {
            Some(cursor) => self.cursor = cursor,
            None => {
                self.end_of_line = true;
            },
        }
        assert(self@.sixels == v2.sixels);
    }

    /// Places the sixel image `img` below the cursor; see `sixel_placed`.
    fn place_sixel(&mut self, img: Image)
        requires
            old(self).wf(),
            op_ok(old(self)@, ControlOp::Sixel(img)),
        ensures
            final(self).wf(),
            final(self)@ == sixel_placed(old(self)@, img),
    {
        let ghost v0 = self@;
        let cw = self.cell_size.width as usize;
        let ch = self.cell_size.height as usize;
        let lines = ((img.height + (ch - 1)) / ch) as i32;
        let cols = ((img.width + (cw - 1)) / cw) as i32;
        assert((img.height + (ch - 1)) / (ch as int) == sixel_rows(v0, img));
        assert((img.width + (cw - 1)) / (cw as int) == sixel_cols(v0, img));
        proof {
            lemma_lines_down_frame(v0, lines as nat);
        }
        self.move_cursor_nextline(lines as usize);
        let ghost v1 = self@;
        let at = Point { x: self.cursor.pos.x, y: self.cursor.pos.y - lines };
        let range = Range2d::new(at, Size { width: cols, height: lines });
        let placed = SixelImage { range, image: img };
        self.sixels.push(placed);
        proof {
            assert(self@.sixels =~= v1.sixels.push(placed.view()));
            assert(self@ =~= sixel_placed(v0, img));
            assert forall|i: int| 0 <= i < self@.sixels.len() implies placed_ok(#[trigger] self@.sixels[i], v0.size.height as int) by {
                if i < v1.sixels.len() {
                    assert(self@.sixels[i] == v1.sixels[i]);
                }
            }
        }
    }

    /// Carries out `op`; see `processed`.
    #[verifier::rlimit(40)]
    pub fn process(&mut self, op: ControlOp)
        requires
            old(self).wf(),
            op_ok(old(self)@, op),
        ensures
            final(self).wf(),
            final(self)@ == processed(old(self)@, op),
    {
        let ghost v0 = self@;
        let ghost op0 = op;
        match op {
            ControlOp::InsertChar(x) => {
                self.insert_char(x);
            },
            ControlOp::Bell => {},
            ControlOp::Tab => {
                let rep = ((8 - self.cursor.pos.x as usize % 8) % 8) as usize;
                self.move_cursor(CursorMove::Right(rep));
            },
            ControlOp::LineFeed => {
                self.move_cursor_nextline(1);
            },
            ControlOp::CarriageReturn => {
                self.end_of_line = false;
                self.move_cursor(CursorMove::LeftMost);
                assert(self@ == moved(v0, CursorMove::LeftMost));
            },
            ControlOp::CursorMove(mov) => {
                self.move_cursor(mov);
            },
            ControlOp::SaveCursor => {
                self.saved_cursor = Some(self.cursor);
                assert(self@ =~= processed(v0, op0));
            },
            ControlOp::RestoreCursor => {
                self.cursor = match self.saved_cursor {
                    Some(c) => c,
                    None => Cursor::default(),
                };
                assert(self@ =~= processed(v0, op0));
            },
            ControlOp::HideCursor => {
                self.cursor.visible = false;
                assert(self@ =~= processed(v0, op0));
            },
            ControlOp::ShowCursor => {
                self.cursor.visible = true;
                assert(self@ =~= processed(v0, op0));
            },
            ControlOp::EraseEndOfLine => {
                let line = self.cursor.pos.y;
                let r = Range2d { h: self.cursor.pos.x..self.screen_size.width, v: line..(line + 1) };
                self.clear_screen_part(&r);
            },
            ControlOp::EraseStartOfLine => {
                let line = self.cursor.pos.y;
                let r = Range2d { h: 0..(self.cursor.pos.x + 1), v: line..(line + 1) };
                self.clear_screen_part(&r);
            },
            ControlOp::EraseLine => {
                let line = self.cursor.pos.y;
                let r = Range2d { h: 0..self.screen_size.width, v: line..(line + 1) };
                self.clear_screen_part(&r);
            },
            ControlOp::EraseDown => {
                let line = self.cursor.pos.y;
                let r = Range2d { h: self.cursor.pos.x..self.screen_size.width, v: line..(line + 1) };
                self.clear_screen_part(&r);
                let below = Range2d { h: 0..self.screen_size.width, v: (self.cursor.pos.y + 1)..self.screen_size.height };
                self.clear_screen_part(&below);
            },
            ControlOp::EraseUp => {
                let line = self.cursor.pos.y;
                let r = Range2d { h: 0..(self.cursor.pos.x + 1), v: line..(line + 1) };
                self.clear_screen_part(&r);
                let above = Range2d { h: 0..self.screen_size.width, v: 0..self.cursor.pos.y };
                self.clear_screen_part(&above);
            },
            ControlOp::EraseScreen => {
                let full = Range2d::from(self.screen_size);
                self.clear_screen_part(&full);
            },
            ControlOp::Reset => {
                self.reset();
            },
            ControlOp::SetScrollRange(range) => {
                self.scroll_range.v = range;
                assert(self@ =~= processed(v0, op0));
            },
            ControlOp::ChangeCellAttribute(style, fg, bg) => {
                match style {
                    Some(s) => self.cursor.attr.style = s,
                    None => {},
                }
                match fg {
                    Some(f) => self.cursor.attr.fg = f,
                    None => {},
                }
                match bg {
                    Some(b) => self.cursor.attr.bg = b,
                    None => {},
                }
                assert(self@ =~= processed(v0, op0));
            },
            ControlOp::ScrollUp => {
                self.scroll_up();
            },
            ControlOp::ScrollDown => {
                self.scroll_down();
            },
            ControlOp::SetCursorMode(_) => {},
            ControlOp::Sixel(img) => {
                self.place_sixel(img);
            },
            ControlOp::Unknown(_) => {},
            ControlOp::Ignore => {},
        }
    }

    /// The cells as they are drawn; see `shown_cells`.
    pub fn render_cells(&self) -> (r: Vec<Cell>)
        requires
            self.wf(),
        ensures
            r@ == shown_cells(self@),
    {
        let n = self.screen_buf.len();
        let ghost v = self@;
        proof {
            lemma_cell_index(v.size.width as int, v.size.height as int, v.cursor.pos.x as int, v.cursor.pos.y as int);
        }
        let at = self.cursor.pos.y as usize * self.screen_size.width as usize + self.cursor.pos.x as usize;
        let mut r: Vec<Cell> = Vec::new();
        let mut i: usize = 0;
        while i < n
            invariant
                i <= n,
                n == v.screen.len(),
                v == self@,
                at == v.cursor.pos.y * v.size.width + v.cursor.pos.x,
                r@ == shown_cells(v).subrange(0, i as int),
            decreases n - i,
        {
            let mut cell = self.screen_buf[i];
            if self.has_focus && self.cursor.visible && i == at {
                let mut attr = CellAttribute::default();
                attr.style = Style::Reverse;
                cell.attr = attr;
            }
            r.push(cell);
            assert(r@ =~= shown_cells(v).subrange(0, i + 1));
            i += 1;
        }
        assert(shown_cells(v).subrange(0, n as int) =~= shown_cells(v));
        r
    }

    /// The images placed over the cells.
    pub fn images(&self) -> (r: &Vec<SixelImage>)
        ensures
            r@.map_values(|s: SixelImage| s.view()) == self@.sixels,
    {
        &self.sixels
    }

    /// Whether `op` can be carried out; see `op_ok`.
    fn can_process(&self, op: &ControlOp) -> (b: bool)
        requires
            self.wf(),
        ensures
            b == op_ok(self@, *op),
    {
        match op {
            ControlOp::SetScrollRange(r) => 0 <= r.start && r.start < r.end && r.end <= self.screen_size.height,
            ControlOp::Sixel(img) => {
                let cw = self.cell_size.width as usize;
                let ch = self.cell_size.height as usize;
                match (img.height.checked_add(ch - 1), img.width.checked_add(cw - 1)) {
                    (Some(hs), Some(ws)) => {
                        let lines = hs / ch;
                        let cols = ws / cw;
                        assert((hs as int) / (ch as int) == sixel_rows(self@, *img));
                        assert((ws as int) / (cw as int) == sixel_cols(self@, *img));
                        (lines as u128) <= (i32::MAX - self.screen_size.height) as u128 && (cols as u128) <= (
                        i32::MAX - self.screen_size.width) as u128
                    },
                    _ => false,
                }
            },
            _ => true,
        }
    }

    /// Feeds the program's output `input` to the decoder and carries out the
    /// operations it completes, in order; an operation that cannot be
    /// carried out (see `op_ok`) is passed over.
    pub fn write(&mut self, input: &str)
        requires
            old(self).wf(),
            feed_ok(old(self).decoder_state(), old(self).decoder_palette(), input@),
        ensures
            final(self).wf(),
            ({
                let (st, pal, es) = feed_run(old(self).decoder_state(), old(self).decoder_palette(), input@);
                &&& final(self).decoder_state() == st
                &&& final(self).decoder_palette() == pal
                &&& exists|ops: Seq<ControlOp>|
                    {
                        &&& ops.len() == es.len()
                        &&& forall|k: int| 0 <= k < es.len() ==> op_is(#[trigger] ops[k], es[k].0, es[k].1)
                        &&& final(self)@ == applied(old(self)@, ops)
                    }
            }),
    {
        let ghost v0 = self@;
        self.parser.feed(input);
        proof {
            let es = feed_run(old(self).decoder_state(), old(self).decoder_palette(), input@).2;
            let fed = self.parser.ops();
            assert(fed.len() == es.len());
            assert forall|k: int| 0 <= k < es.len() implies op_is(#[trigger] fed[k], es[k].0, es[k].1) by {
                assert(fed[0 + k] == fed[k]);
            }
        }
        let mut parser = Parser::new();
        std::mem::swap(&mut parser, &mut self.parser);
        let ghost ops = parser.ops();
        let ghost run = feed_run(old(self).decoder_state(), old(self).decoder_palette(), input@);
        let mut queue: Vec<ControlOp> = Vec::new();
        loop
            invariant
                parser.wf(),
                queue@ + parser.ops() == ops,
                parser.state_view() == run.0,
                parser.palette() == run.1,
            ensures
                parser.wf(),
                queue@ == ops,
                parser.ops().len() == 0,
                parser.state_view() == run.0,
                parser.palette() == run.1,
            decreases parser.ops().len(),
        {
            match parser.next() {
                Some(op) => {
                    queue.push(op);
                    assert(queue@ + parser.ops() =~= ops);
                },
                None => {
                    assert(queue@ + parser.ops() =~= queue@);
                    break;
                },
            }
        }
        assert(queue@ =~= ops);
        let ghost n = ops.len();
        let ghost mut k: int = 0;
        assert(ops.subrange(0, n as int) =~= ops);
        while queue.len() > 0
            invariant
                0 <= k <= n,
                n == ops.len(),
                queue@ == ops.subrange(k, n as int),
                self.wf(),
                applied(v0, ops) == applied(self@, ops.subrange(k, n as int)),
            decreases queue@.len(),
        {
            let ghost rest = ops.subrange(k, n as int);
            let op = queue.remove(0);
            assert(rest[0] == op);
            assert(rest.drop_first() =~= ops.subrange(k + 1, n as int));
            assert(queue@ =~= ops.subrange(k + 1, n as int));
            if self.can_process(&op) {
                self.process(op);
            }
            proof {
                k = k + 1;
            }
        }
        assert(ops.subrange(n as int, n as int) =~= Seq::<ControlOp>::empty());
        assert(self@ == applied(v0, ops));
        self.parser = parser;
        assert(self@ == applied(v0, ops));
        proof {
            let es = run.2;
            assert(ops.len() == es.len() && (forall|k: int| 0 <= k < es.len() ==> op_is(#[trigger] ops[k], es[k].0, es[k].1))
                && self@ == applied(v0, ops));
        }
    }
}

} // verus!
