use toyterm::vt::parser::{Parser, State};
use toyterm::vt::{Color, ControlOp, CursorMove, Style};

fn ops_of(input: &str) -> Vec<ControlOp> {
    let mut p = Parser::new();
    p.feed(input);
    let mut ops = Vec::new();
    while let Some(op) = p.next() {
        ops.push(op);
    }
    ops
}

#[test]
fn plain_characters_and_controls() {
    let ops = ops_of("a\r\n\t\x07");
    assert!(matches!(ops[0], ControlOp::InsertChar('a')));
    assert!(matches!(ops[1], ControlOp::CarriageReturn));
    assert!(matches!(ops[2], ControlOp::LineFeed));
    assert!(matches!(ops[3], ControlOp::Tab));
    assert!(matches!(ops[4], ControlOp::Bell));
    assert_eq!(ops.len(), 5);
}

#[test]
fn feed_reports_waiting_operations() {
    let mut p = Parser::new();
    assert!(!p.feed("\x1b["));
    assert!(p.feed("2J"));
    assert!(matches!(p.next(), Some(ControlOp::EraseScreen)));
    assert!(p.next().is_none());
}

#[test]
fn cursor_sequences() {
    let ops = ops_of("\x1b[H\x1b[3;5H\x1b[2A\x1b[B\x1b[4C\x1b[D");
    assert!(matches!(ops[0], ControlOp::CursorMove(CursorMove::Exact(p)) if p.x == 0 && p.y == 0));
    assert!(matches!(ops[1], ControlOp::CursorMove(CursorMove::Exact(p)) if p.x == 4 && p.y == 2));
    assert!(matches!(ops[2], ControlOp::CursorMove(CursorMove::Up(2))));
    assert!(matches!(ops[3], ControlOp::CursorMove(CursorMove::Down(1))));
    assert!(matches!(ops[4], ControlOp::CursorMove(CursorMove::Right(4))));
    assert!(matches!(ops[5], ControlOp::CursorMove(CursorMove::Left(1))));
}

#[test]
fn private_sequences() {
    let ops = ops_of("\x1b[?25l\x1b[?25h\x1b[?1h\x1b[?2004h");
    assert!(matches!(ops[0], ControlOp::HideCursor));
    assert!(matches!(ops[1], ControlOp::ShowCursor));
    assert!(matches!(ops[2], ControlOp::SetCursorMode(true)));
    assert!(matches!(ops[3], ControlOp::Ignore));
}

#[test]
fn erase_and_scroll_range() {
    let ops = ops_of("\x1b[K\x1b[1K\x1b[2K\x1b[J\x1b[1J\x1b[3;10r");
    assert!(matches!(ops[0], ControlOp::EraseEndOfLine));
    assert!(matches!(ops[1], ControlOp::EraseStartOfLine));
    assert!(matches!(ops[2], ControlOp::EraseLine));
    assert!(matches!(ops[3], ControlOp::EraseDown));
    assert!(matches!(ops[4], ControlOp::EraseUp));
    match &ops[5] {
        ControlOp::SetScrollRange(r) => {
            assert_eq!(r.start, 2);
            assert_eq!(r.end, 10);
        }
        _ => panic!("expected a scroll range"),
    }
}

#[test]
fn graphic_rendition() {
    let ops = ops_of("\x1b[1;31m\x1b[38;5;196m\x1b[48;2;1;2;3m\x1b[0m");
    assert!(matches!(ops[0], ControlOp::ChangeCellAttribute(Some(Style::Bold), Some(Color::Red), None)));
    assert!(matches!(ops[1], ControlOp::ChangeCellAttribute(None, Some(Color::RGB(255, 0, 0)), None)));
    assert!(matches!(ops[2], ControlOp::ChangeCellAttribute(None, None, Some(Color::RGB(1, 2, 3)))));
    assert!(matches!(
        ops[3],
        ControlOp::ChangeCellAttribute(Some(Style::Normal), Some(Color::LightWhite), Some(Color::Black))
    ));
}

#[test]
fn invalid_color_drops_the_sequence() {
    let ops = ops_of("\x1b[38;5mx");
    assert_eq!(ops.len(), 1);
    assert!(matches!(ops[0], ControlOp::InsertChar('x')));
}

#[test]
fn escape_sequences() {
    let ops = ops_of("\x1bD\x1bM\x1b7\x1b8\x1bc\x1b=");
    assert!(matches!(ops[0], ControlOp::ScrollUp));
    assert!(matches!(ops[1], ControlOp::ScrollDown));
    assert!(matches!(ops[2], ControlOp::SaveCursor));
    assert!(matches!(ops[3], ControlOp::RestoreCursor));
    assert!(matches!(ops[4], ControlOp::Reset));
    assert!(matches!(ops[5], ControlOp::Ignore));
}

#[test]
fn sixel_image() {
    let ops = ops_of("\x1bPq\"1;1;2;6~~\x1b\\");
    assert_eq!(ops.len(), 1);
    match &ops[0] {
        ControlOp::Sixel(img) => {
            assert_eq!(img.width, 2);
            assert_eq!(img.height, 6);
            assert_eq!(img.buf.len(), 2 * 6 * 4);
        }
        _ => panic!("expected a sixel image"),
    }
}

#[test]
fn state_transfer_one_character_at_a_time() {
    let mut st = State::NotStarted;
    let mut palette = toyterm::sixel_codec::default_palette();
    assert!(st.transfer('\x1b', &mut palette).is_none());
    assert!(st.transfer('[', &mut palette).is_none());
    assert!(st.transfer('5', &mut palette).is_none());
    assert!(matches!(st.transfer('A', &mut palette), Some(ControlOp::CursorMove(CursorMove::Up(5)))));
    assert!(matches!(st, State::NotStarted));
}
