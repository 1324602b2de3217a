use toyterm::input::{keyevent_to_bytes, KeyEvent, Keycode};
use toyterm::terminal::engine::Engine;
use toyterm::terminal::line::Line;
use toyterm::terminal::{CellSize, TerminalSize};
use toyterm::view::Viewport;
use toyterm::window::{
    shown_contents,
    buffer_size,
    mouse_button_code, typed_char_bytes, wheel_action, MouseButton,
    key_action, normal_mouse_report, paste_bytes, selected_text, selection_range, sgr_ext_mouse_report, Key,
    KeyAction, Modifiers,
};

fn screen_lines(input: &str, rows: usize, cols: usize) -> Vec<Line> {
    let mut e = Engine::new(TerminalSize { rows, cols }, CellSize { w: 8, h: 16 }, false);
    e.process(input);
    e.state().range(0, rows as isize).into_iter().cloned().collect()
}

#[test]
fn selection_text_follows_rows() {
    let lines = screen_lines("abc\r\ndef", 2, 4);
    let all: String = selected_text(&lines, Some((0, 7))).into_iter().collect();
    assert_eq!(all, "abc\ndef\n");
    let part: String = selected_text(&lines, Some((1, 5))).into_iter().collect();
    assert_eq!(part, "bc\nde");
    assert!(selected_text(&lines, None).is_empty());
}

#[test]
fn selection_of_wrapped_line_has_no_break() {
    let lines = screen_lines("abcdef", 2, 4);
    let all: String = selected_text(&lines, Some((0, 7))).into_iter().collect();
    assert_eq!(all, "abcdef\n");
}

#[test]
fn bracketed_paste_is_framed() {
    assert_eq!(paste_bytes(b"hi", true), b"\x1b[200~hi\x1b[201~".to_vec());
    assert_eq!(paste_bytes(b"hi", false), b"hi".to_vec());
}

#[test]
fn mouse_reports() {
    assert_eq!(normal_mouse_report(0, 1, 2), [0x1b, b'[', b'M', 32, 33, 34]);
    assert_eq!(normal_mouse_report(3, 0, 300), [0x1b, b'[', b'M', 35, 0, 0]);
    assert_eq!(sgr_ext_mouse_report(0, 12, 3, true), b"\x1b[<0;12;3M".to_vec());
    assert_eq!(sgr_ext_mouse_report(64, 1, 200, false), b"\x1b[<64;1;200m".to_vec());
}

#[test]
fn keys_of_the_window() {
    let none = Modifiers::default();
    let ctrl = Modifiers { ctrl: true, ..Modifiers::default() };
    let ctrl_shift = Modifiers { ctrl: true, shift: true, ..Modifiers::default() };
    assert_eq!(key_action(none, Key::Up), (KeyAction::Write(b"\x1b[[A".to_vec()), true));
    assert_eq!(key_action(none, Key::Delete), (KeyAction::Write(b"\x1b[3~".to_vec()), true));
    assert_eq!(key_action(ctrl, Key::C), (KeyAction::Write(vec![3]), true));
    assert_eq!(key_action(ctrl_shift, Key::C), (KeyAction::Copy, false));
    assert_eq!(key_action(ctrl_shift, Key::V), (KeyAction::Paste, true));
    assert_eq!(key_action(ctrl_shift, Key::L), (KeyAction::ClearHistory, true));
    assert_eq!(key_action(ctrl, Key::Minus), (KeyAction::FontSize(-1), true));
    assert_eq!(key_action(none, Key::LShift), (KeyAction::Nothing, false));
    assert_eq!(key_action(none, Key::Other), (KeyAction::Nothing, true));
}

#[test]
fn key_events_of_the_first_window() {
    let ev = KeyEvent::TextInput("x".as_bytes().to_vec());
    assert_eq!(keyevent_to_bytes(&ev), Some(b"x".to_vec()));
    let ctrl_c = KeyEvent::KeyDown { keycode: Some(Keycode::C), ctrl: true, shift: false, alt: false };
    assert_eq!(keyevent_to_bytes(&ctrl_c), Some(vec![3]));
    let plain_c = KeyEvent::KeyDown { keycode: Some(Keycode::C), ctrl: false, shift: false, alt: false };
    assert_eq!(keyevent_to_bytes(&plain_c), None);
    let home = KeyEvent::KeyDown { keycode: Some(Keycode::Home), ctrl: true, shift: false, alt: false };
    assert_eq!(keyevent_to_bytes(&home), Some(b"\x1b[1;5H".to_vec()));
    let f5 = KeyEvent::KeyDown { keycode: Some(Keycode::F5), ctrl: false, shift: true, alt: false };
    assert_eq!(keyevent_to_bytes(&f5), Some(b"\x1bOt".to_vec()));
    assert_eq!(keyevent_to_bytes(&KeyEvent::TextEditing(vec![b'a'])), None);
}

#[test]
fn selection_by_clicks() {
    let lines = screen_lines("foo bar.baz", 2, 12);
    assert_eq!(selection_range(&lines, 12, (0, 1), (0, 3), 1), Some((1, 2)));
    assert_eq!(selection_range(&lines, 12, (0, 5), (0, 6), 2), Some((4, 6)));
    assert_eq!(selection_range(&lines, 12, (0, 9), (0, 9), 2), Some((8, 10)));
    assert_eq!(selection_range(&lines, 12, (1, 3), (0, 2), 3), Some((0, 23)));
    assert_eq!(selection_range(&lines, 12, (0, 3), (0, 3), 1), None);
}

#[test]
fn mouse_button_codes() {
    let none = Modifiers::default();
    let all = Modifiers { shift: true, ctrl: true, alt: true, logo: false };
    assert_eq!(mouse_button_code(false, false, MouseButton::Left, none), 0);
    assert_eq!(mouse_button_code(false, false, MouseButton::Middle, none), 1);
    assert_eq!(mouse_button_code(false, true, MouseButton::Right, none), 2);
    assert_eq!(mouse_button_code(false, false, MouseButton::Other(9), none), 0);
    assert_eq!(mouse_button_code(true, false, MouseButton::Right, none), 3);
    assert_eq!(mouse_button_code(true, true, MouseButton::Right, none), 2);
    assert_eq!(mouse_button_code(false, false, MouseButton::Middle, all), 1 + 4 + 8 + 16);
}

#[test]
fn mouse_wheel_sends_arrow_keys() {
    assert_eq!(wheel_action(2, 0, false, 0, 100), (0, b"\x1b[[A\x1b[[A".to_vec()));
    assert_eq!(wheel_action(-1, 1, false, -3, 100), (-3, b"\x1b[[B\x1b[[C".to_vec()));
    assert_eq!(wheel_action(0, -2, false, 0, 0), (0, b"\x1b[[D\x1b[[D".to_vec()));
}

#[test]
fn shift_mouse_wheel_scrolls_history() {
    assert_eq!(wheel_action(3, 0, true, 0, 100), (-3, vec![]));
    assert_eq!(wheel_action(3, 0, true, -99, 100), (-100, vec![]));
    assert_eq!(wheel_action(-5, 0, true, -2, 100), (0, vec![]));
    assert_eq!(wheel_action(1, 1, true, 0, 0), (0, b"\x1b[[C".to_vec()));
}

#[test]
fn typed_characters_are_sent_as_utf8() {
    assert_eq!(typed_char_bytes('a'), Some(b"a".to_vec()));
    assert_eq!(typed_char_bytes('\u{e9}'), Some("\u{e9}".as_bytes().to_vec()));
    assert_eq!(typed_char_bytes('\u{3042}'), Some("\u{3042}".as_bytes().to_vec()));
    assert_eq!(typed_char_bytes('\u{1F600}'), Some("\u{1F600}".as_bytes().to_vec()));
    assert_eq!(typed_char_bytes('-'), None);
    assert_eq!(typed_char_bytes('\x1b'), None);
    assert_eq!(typed_char_bytes('\x03'), None);
}

#[test]
fn buffer_fits_the_viewport() {
    let cell = CellSize { w: 8, h: 16 };
    let vp = Viewport { x: 0, y: 0, w: 810, h: 490 };
    assert_eq!(buffer_size(vp, 10, cell), TerminalSize { rows: 30, cols: 100 });
    let tiny = Viewport { x: 0, y: 0, w: 5, h: 5 };
    assert_eq!(buffer_size(tiny, 10, cell), TerminalSize { rows: 1, cols: 1 });
}

#[test]
fn view_of_the_history() {
    let mut e = Engine::new(TerminalSize { rows: 2, cols: 3 }, CellSize { w: 8, h: 16 }, false);
    e.process("a\r\nb\r\nc");
    let first = |ls: &Vec<Line>| -> Vec<char> { ls.iter().map(|l| l.get(0).unwrap().ch).collect() };
    let (lines, images, cursor) = shown_contents(e.state(), 0);
    assert_eq!(first(&lines), vec!['b', 'c']);
    assert!(images.is_empty());
    assert_eq!(cursor, Some((1, 1, toyterm::terminal::CursorStyle::Block)));
    let (lines, _, cursor) = shown_contents(e.state(), -1);
    assert_eq!(first(&lines), vec!['a', 'b']);
    assert_eq!(cursor, None);
    e.process("\x1b[?25l");
    let (_, _, cursor) = shown_contents(e.state(), 0);
    assert_eq!(cursor, None);
}
