use toyterm::terminal::engine::Engine;
use toyterm::terminal::line::Line;
use toyterm::terminal::screen::State;
use toyterm::terminal::{overwrap, CellSize, Color, CursorStyle, PositionedImage, TerminalSize};

fn engine(rows: usize, cols: usize) -> Engine {
    Engine::new(TerminalSize { rows, cols }, CellSize { w: 10, h: 20 }, false)
}

fn row_text(e: &Engine, row: isize) -> String {
    let lines = e.state().range(row, row + 1);
    lines[0].iter().iter().map(|c| c.ch).collect()
}

#[test]
fn new_line_is_blank() {
    let l = Line::new(4);
    assert_eq!(l.columns(), 4);
    assert!(!l.linewrap());
    for c in l.iter() {
        assert_eq!(c.ch, '\n');
        assert_eq!(c.width, 1);
    }
    assert_eq!(l.get(3).unwrap().ch, '\n');
    assert!(l.get(4).is_none());
}

#[test]
fn copy_from_copies_cells_and_wrap_mark() {
    let mut e = engine(2, 4);
    let (_, rejected) = e.process("abcdef");
    assert_eq!(rejected, None);
    let src = e.state().range(0, 1)[0].clone();
    assert!(src.linewrap());
    let mut dst = Line::new(2);
    dst.copy_from(&src);
    assert_eq!(dst.columns(), 4);
    assert!(dst.linewrap());
    assert_eq!(dst.get(1).unwrap().ch, 'b');
}

#[test]
fn printable_text_fills_the_line() {
    let mut e = engine(3, 5);
    let (replies, rejected) = e.process("abc");
    assert!(replies.is_empty());
    assert_eq!(rejected, None);
    assert_eq!(row_text(&e, 0), "abc\n\n");
    let (row, col, style) = e.state().cursor();
    assert_eq!((row, col), (0, 3));
    assert_eq!(style, CursorStyle::Block);
}

#[test]
fn text_wraps_at_the_last_column() {
    let mut e = engine(3, 4);
    e.process("abcdef");
    assert_eq!(row_text(&e, 0), "abcd");
    assert_eq!(row_text(&e, 1), "ef\n\n");
    assert!(e.state().range(0, 1)[0].linewrap());
    assert_eq!(e.state().cursor().0, 1);
}

#[test]
fn wide_character_takes_two_cells() {
    let mut e = engine(2, 6);
    e.process("a\u{3042}b");
    let line = e.state().range(0, 1)[0].iter();
    assert_eq!(line[1].ch, '\u{3042}');
    assert_eq!(line[1].width, 2);
    assert_eq!(line[2].width, 0);
    assert_eq!(line[2].backlink, 1);
    assert_eq!(line[3].ch, 'b');
    let l = e.state().range(0, 1)[0];
    assert_eq!(l.get(2).unwrap().ch, '\u{3042}');
    assert_eq!(e.state().cursor().1, 4);
}

#[test]
fn overwriting_half_of_a_wide_character_blanks_it() {
    let mut e = engine(2, 6);
    e.process("\u{3042}\x1b[1;2Hx");
    let line = e.state().range(0, 1)[0].iter();
    assert_eq!(line[0].ch, ' ');
    assert_eq!(line[0].width, 1);
    assert_eq!(line[1].ch, 'x');
}

#[test]
fn cursor_position_report() {
    let mut e = engine(5, 10);
    let (replies, _) = e.process("\x1b[3;7H\x1b[6n");
    assert_eq!(replies, b"\x1b[3;7R".to_vec());
    let (replies, _) = e.process("\x1b[5n");
    assert_eq!(replies, b"\x1b[0n".to_vec());
}

#[test]
fn cursor_moves_stop_at_the_edges() {
    let mut e = engine(4, 8);
    e.process("\x1b[2;3H\x1b[10A");
    assert_eq!(e.state().cursor().0, 0);
    e.process("\x1b[10B");
    assert_eq!(e.state().cursor().0, 3);
    e.process("\x1b[10C");
    assert_eq!(e.state().cursor().1, 7);
    e.process("\x1b[3D");
    assert_eq!(e.state().cursor().1, 4);
    e.process("\x1b[99;99H");
    let (r, c, _) = e.state().cursor();
    assert_eq!((r, c), (3, 7));
}

#[test]
fn erase_in_line_and_display() {
    let mut e = engine(3, 5);
    e.process("abcde\r\nfghij\x1b[1;3H\x1b[K");
    assert_eq!(row_text(&e, 0), "ab   ");
    e.process("\x1b[2;2H\x1b[1K");
    assert_eq!(row_text(&e, 1), "  hij");
    e.process("\x1b[2J");
    assert_eq!(row_text(&e, 0), "\n\n\n\n\n");
    assert_eq!(row_text(&e, 1), "\n\n\n\n\n");
}

#[test]
fn insert_and_delete_characters() {
    let mut e = engine(2, 6);
    e.process("abcdef\x1b[1;2H\x1b[2@");
    assert_eq!(row_text(&e, 0), "a  bcd");
    e.process("\x1b[1;2H\x1b[3P");
    assert_eq!(row_text(&e, 0), "acd   ");
}

#[test]
fn insert_and_delete_lines() {
    let mut e = engine(3, 3);
    e.process("aaa\r\nbbb\r\nccc\x1b[1;1H\x1b[L");
    assert_eq!(row_text(&e, 0), "\n\n\n");
    assert_eq!(row_text(&e, 1), "aaa");
    assert_eq!(row_text(&e, 2), "bbb");
    e.process("\x1b[M");
    assert_eq!(row_text(&e, 0), "aaa");
    assert_eq!(row_text(&e, 1), "bbb");
    assert_eq!(row_text(&e, 2), "\n\n\n");
}

#[test]
fn line_feed_at_the_bottom_scrolls_into_history() {
    let mut e = engine(2, 3);
    e.process("one\r\ntwo\r\nsix");
    assert_eq!(row_text(&e, -1), "one");
    assert_eq!(row_text(&e, 0), "two");
    assert_eq!(row_text(&e, 1), "six");
    assert_eq!(e.state().history_size, 1);
    let mut s = e.state().clone();
    s.clear_history();
    assert_eq!(s.history_size, 0);
    let h = s.range(-1, 0);
    assert_eq!(h[0].get(0).unwrap().ch, '\n');
}

#[test]
fn tab_moves_to_the_next_stop() {
    let mut e = engine(2, 20);
    e.process("ab\tc");
    let line = e.state().range(0, 1)[0].iter();
    assert_eq!(line[2].ch, '\t');
    assert_eq!(line[2].width, 6);
    assert_eq!(line[8].ch, 'c');
    assert_eq!(e.state().cursor().1, 9);
}

#[test]
fn select_graphic_rendition_colors_the_next_characters() {
    let mut e = engine(2, 10);
    e.process("\x1b[1;31;48;5;196mx\x1b[0my\x1b[38;2;1;2;3mz");
    let line = e.state().range(0, 1)[0].iter();
    assert_eq!(line[0].attr.bold, 1);
    assert_eq!(line[0].attr.fg, Color::Red);
    assert_eq!(line[0].attr.bg, Color::Rgb { rgba: 0xFF0000FF });
    assert_eq!(line[1].attr.fg, Color::White);
    assert_eq!(line[1].attr.bold, 0);
    assert_eq!(line[2].attr.fg, Color::Rgb { rgba: 0x010203FF });
}

#[test]
fn alternative_screen_keeps_the_primary_one() {
    let mut e = engine(2, 4);
    e.process("main\x1b[?1049h");
    assert_eq!(row_text(&e, 0), "\n\n\n\n");
    e.process("alt");
    e.process("\x1b[?1049l");
    assert_eq!(row_text(&e, 0), "main");
}

#[test]
fn private_modes_switch_on_and_off() {
    let mut e = engine(2, 4);
    e.process("\x1b[?25l\x1b[?2004h\x1b[?1000h");
    assert!(!e.state().mode.cursor_visible);
    assert!(e.state().mode.bracketed_paste);
    assert!(e.state().mode.mouse_track);
    e.process("\x1b[?25h\x1b[?2004l");
    assert!(e.state().mode.cursor_visible);
    assert!(!e.state().mode.bracketed_paste);
}

#[test]
fn cursor_style_is_selected() {
    let mut e = engine(2, 4);
    e.process("\x1b[6 q");
    assert_eq!(e.state().cursor().2, CursorStyle::Bar);
    e.process("\x1b[4 q");
    assert_eq!(e.state().cursor().2, CursorStyle::Underline);
}

#[test]
fn too_wide_character_stops_the_input() {
    let mut e = engine(2, 1);
    let (_, rejected) = e.process("a\u{3042}b");
    assert_eq!(rejected, Some('\u{3042}'));
}

#[test]
fn sixel_image_is_placed_at_the_cursor() {
    let mut e = engine(5, 10);
    e.process("\x1b[2;3H\x1bPq\"1;1;4;12~~~~-~~~~\x1b\\");
    let images = e.state().images();
    assert_eq!(images.len(), 1);
    assert_eq!(images[0].row, 1);
    assert_eq!(images[0].col, 2);
    assert_eq!(images[0].width, 4);
    assert_eq!(images[0].height, 12);
    let (row, col, _) = e.state().cursor();
    assert_eq!((row, col), (1, 3));
}

#[test]
fn resize_cuts_the_cursor_and_the_lines() {
    let mut e = engine(4, 6);
    e.process("abcdef\x1b[4;6H");
    e.resize(TerminalSize { rows: 2, cols: 3 }, CellSize { w: 8, h: 16 });
    let s: &State = e.state();
    assert_eq!(s.size, TerminalSize { rows: 2, cols: 3 });
    let (row, col, _) = s.cursor();
    assert_eq!((row, col), (1, 2));
    assert_eq!(row_text(&e, 0), "abc");
}

#[test]
fn overwrap_checks_containment() {
    let outer = PositionedImage { row: 0, col: 0, height: 10, width: 10, data: vec![] };
    let inner = PositionedImage { row: 2, col: 3, height: 5, width: 5, data: vec![] };
    assert!(overwrap(&outer, &inner));
    assert!(!overwrap(&inner, &outer));
}

#[test]
fn wide_character_that_does_not_fit_goes_to_the_next_row() {
    let mut e = engine(2, 3);
    e.process("ab\u{3042}");
    let first = e.state().range(0, 1)[0].iter();
    assert_eq!(first[0].ch, 'a');
    assert_eq!(first[1].ch, 'b');
    assert_eq!(first[2].ch, ' ');
    assert!(e.state().range(0, 1)[0].linewrap());
    let second = e.state().range(1, 2)[0].iter();
    assert_eq!(second[0].ch, '\u{3042}');
    assert_eq!(second[0].width, 2);
    assert_eq!(second[1].backlink, 1);
    assert_eq!(e.state().cursor().0, 1);
    assert_eq!(e.state().cursor().1, 2);
}

#[test]
fn wrapping_on_the_last_row_scrolls() {
    let mut e = engine(2, 2);
    e.process("ab\r\ncde");
    assert_eq!(row_text(&e, 0), "cd");
    assert!(e.state().range(0, 1)[0].linewrap());
    assert_eq!(row_text(&e, 1), "e\n");
    assert_eq!(row_text(&e, -1), "ab");
    assert_eq!((e.state().cursor().0, e.state().cursor().1), (1, 1));
}

#[test]
fn widening_and_narrowing_a_line_gives_it_back() {
    let mut e = engine(1, 4);
    e.process("a\u{3042}b");
    let cells = |e: &Engine| -> Vec<(char, u16, u16)> {
        e.state().range(0, 1)[0].iter().iter().map(|c| (c.ch, c.width, c.backlink)).collect()
    };
    let before = cells(&e);
    e.resize(TerminalSize { rows: 1, cols: 9 }, CellSize { w: 10, h: 20 });
    assert_eq!(e.state().range(0, 1)[0].columns(), 9);
    e.resize(TerminalSize { rows: 1, cols: 4 }, CellSize { w: 10, h: 20 });
    assert_eq!(cells(&e), before);
    e.resize(TerminalSize { rows: 1, cols: 2 }, CellSize { w: 10, h: 20 });
    assert_eq!(e.state().range(0, 1)[0].get(1).unwrap().ch, ' ');
}

#[test]
fn tab_at_the_last_column_does_nothing_and_the_input_goes_on() {
    let mut e = engine(2, 4);
    let (_, rejected) = e.process("abc\td");
    assert_eq!(rejected, None);
    assert_eq!(row_text(&e, 0), "abcd");
}

#[test]
fn saved_cursor_and_attribute_are_restored() {
    let mut e = engine(3, 6);
    e.process("\x1b[2;3H\x1b[31m\x1b7\x1b[0m\x1b[3;6Hx\x1b8y");
    let (r, c, _) = e.state().cursor();
    assert_eq!((r, c), (1, 3));
    let line = e.state().range(1, 2)[0].iter();
    assert_eq!(line[2].ch, 'y');
    assert_eq!(line[2].attr.fg, Color::Red);
    assert_eq!(e.state().range(2, 3)[0].iter()[5].attr.fg, Color::White);
}

#[test]
fn hvp_moves_the_cursor_as_cup_does() {
    let mut e = engine(4, 8);
    e.process("\x1b[2;3f");
    let (r, c, _) = e.state().cursor();
    assert_eq!((r, c), (1, 2));
    e.process("\x1b[3f");
    let (r, c, _) = e.state().cursor();
    assert_eq!((r, c), (2, 0));
    e.process("\x1b[99;99f");
    let (r, c, _) = e.state().cursor();
    assert_eq!((r, c), (3, 7));
}

#[test]
fn process_ok_refuses_what_cannot_be_decoded() {
    let e = engine(2, 4);
    assert!(e.process_ok("abc\r\n\x1b[1;2H"));
    assert!(e.process_ok("\x1bPq#0;2;100;0;0#0~~\x1b\\"));
    assert!(!e.process_ok("\x1bPq#0;1;0;0;0\x1b\\"));
    assert!(!e.process_ok("x\x1bPq#1;2;99999999999999999999;0;0\x1b\\"));
    let mut e = engine(2, 4);
    e.process("\x1bPq#0;1");
    assert!(!e.process_ok(";0;0;0\x1b\\"));
    assert!(e.process_ok(""));
}
