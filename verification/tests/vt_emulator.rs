use toyterm::basics::{Point, Size};
use toyterm::sixel_codec::Image;
use toyterm::vt::emulator::Term;
use toyterm::vt::{Cell, ControlOp, CursorMove, Style};

fn term(cols: i32, rows: i32) -> Term {
    Term::new(Size { width: 8, height: 16 }, Size { width: cols, height: rows })
}

fn text(t: &Term, cols: usize) -> Vec<String> {
    let cells: Vec<Cell> = t.render_cells();
    cells.chunks(cols).map(|row| row.iter().map(|c| c.c).collect()).collect()
}

#[test]
fn written_text_fills_rows() {
    let mut t = term(4, 3);
    t.focus_lost();
    t.write("ab\r\ncd");
    assert_eq!(text(&t, 4), vec!["ab  ", "cd  ", "    "]);
}

#[test]
fn text_wraps_after_the_last_column() {
    let mut t = term(3, 3);
    t.focus_lost();
    t.write("abcde");
    assert_eq!(text(&t, 3), vec!["abc", "de ", "   "]);
}

#[test]
fn line_feed_on_the_last_row_scrolls() {
    let mut t = term(2, 2);
    t.focus_lost();
    t.write("a\r\nb\r\nc");
    assert_eq!(text(&t, 2), vec!["b ", "c "]);
}

#[test]
fn cursor_is_drawn_reversed_when_focused() {
    let mut t = term(3, 1);
    t.write("x");
    let cells = t.render_cells();
    assert_eq!(cells[0].c, 'x');
    assert_eq!(cells[0].attr.style, Style::Normal);
    assert_eq!(cells[1].attr.style, Style::Reverse);
    t.process(ControlOp::HideCursor);
    assert_eq!(t.render_cells()[1].attr.style, Style::Normal);
}

#[test]
fn erase_operations() {
    let mut t = term(4, 2);
    t.focus_lost();
    t.write("abcd\r\nefgh");
    t.process(ControlOp::CursorMove(CursorMove::Exact(Point { x: 1, y: 0 })));
    t.process(ControlOp::EraseEndOfLine);
    assert_eq!(text(&t, 4), vec!["a   ", "efgh"]);
    t.process(ControlOp::CursorMove(CursorMove::Exact(Point { x: 2, y: 1 })));
    t.process(ControlOp::EraseStartOfLine);
    assert_eq!(text(&t, 4), vec!["a   ", "   h"]);
    t.process(ControlOp::EraseScreen);
    assert_eq!(text(&t, 4), vec!["    ", "    "]);
}

#[test]
fn save_and_restore_cursor() {
    let mut t = term(4, 2);
    t.focus_lost();
    t.write("ab");
    t.process(ControlOp::SaveCursor);
    t.write("\r\nxy");
    t.process(ControlOp::RestoreCursor);
    t.write("c");
    assert_eq!(text(&t, 4), vec!["abc ", "xy  "]);
}

#[test]
fn scroll_region_and_scroll_ops() {
    let mut t = term(2, 3);
    t.focus_lost();
    t.write("a\r\nb\r\nc");
    t.process(ControlOp::SetScrollRange(0..2));
    t.process(ControlOp::ScrollUp);
    assert_eq!(text(&t, 2), vec!["b ", "  ", "c "]);
    t.process(ControlOp::ScrollDown);
    assert_eq!(text(&t, 2), vec!["  ", "b ", "c "]);
}

#[test]
fn sixel_image_is_placed_above_the_cursor() {
    let mut t = term(10, 5);
    t.focus_lost();
    t.write("ab");
    let img = Image { height: 20, width: 12, buf: vec![0; 20 * 12 * 4] };
    t.process(ControlOp::Sixel(img));
    let imgs = t.images();
    assert_eq!(imgs.len(), 1);
    assert_eq!((imgs[0].range.h.start, imgs[0].range.h.end), (2, 4));
    assert_eq!((imgs[0].range.v.start, imgs[0].range.v.end), (0, 2));
    t.process(ControlOp::EraseScreen);
    assert_eq!(t.images().len(), 0);
}

#[test]
fn reset_blanks_everything() {
    let mut t = term(3, 2);
    t.focus_lost();
    t.write("abc\r\nd");
    t.process(ControlOp::Reset);
    assert_eq!(text(&t, 3), vec!["   ", "   "]);
    t.write("z");
    assert_eq!(text(&t, 3), vec!["z  ", "   "]);
}
