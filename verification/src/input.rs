//! The bytes that key events of the first window send to the program.

use vstd::prelude::*;

verus! {

/// The keys that send something.
#[derive(Debug, Clone, Copy, PartialEq, Eq, Structural)]
pub enum Keycode {
    At,
    A,
    B,
    C,
    D,
    E,
    F,
    G,
    H,
    I,
    J,
    K,
    L,
    M,
    N,
    O,
    P,
    Q,
    R,
    S,
    T,
    U,
    V,
    W,
    X,
    Y,
    Z,
    LeftBracket,
    Backslash,
    RightBracket,
    Caret,
    Underscore,
    Question,
    Home,
    End,
    Backspace,
    Delete,
    Return,
    Escape,
    Tab,
    F1,
    F2,
    F3,
    F4,
    F5,
    F6,
    F7,
    F8,
    F9,
    F10,
    Up,
    Down,
    Right,
    Left,
    /// Any other key.
    Other,
}

/// A key event of the window.
#[derive(Debug, Clone, PartialEq, Eq)]
pub enum KeyEvent {
    /// Text typed, as UTF-8 bytes.
    TextInput(Vec<u8>),
    /// Text being composed by an input method.
    TextEditing(Vec<u8>),
    /// A key pressed, if it is known, with the control, shift and alt keys held.
    KeyDown { keycode: Option<Keycode>, ctrl: bool, shift: bool, alt: bool },
}

/// The control character that Ctrl with `code` types: `@`, the letters and
/// `[ \ ] ^ _` give 0 to 31, `?` gives DEL.
pub open spec fn ctrl_char(code: Keycode) -> Option<u8> {
    match code {
        Keycode::At => Some(0x00u8),
        Keycode::A => Some(0x01u8),
        Keycode::B => Some(0x02u8),
        Keycode::C => Some(0x03u8),
        Keycode::D => Some(0x04u8),
        Keycode::E => Some(0x05u8),
        Keycode::F => Some(0x06u8),
        Keycode::G => Some(0x07u8),
        Keycode::H => Some(0x08u8),
        Keycode::I => Some(0x09u8),
        Keycode::J => Some(0x0Au8),
        Keycode::K => Some(0x0Bu8),
        Keycode::L => Some(0x0Cu8),
        Keycode::M => Some(0x0Du8),
        Keycode::N => Some(0x0Eu8),
        Keycode::O => Some(0x0Fu8),
        Keycode::P => Some(0x10u8),
        Keycode::Q => Some(0x11u8),
        Keycode::R => Some(0x12u8),
        Keycode::S => Some(0x13u8),
        Keycode::T => Some(0x14u8),
        Keycode::U => Some(0x15u8),
        Keycode::V => Some(0x16u8),
        Keycode::W => Some(0x17u8),
        Keycode::X => Some(0x18u8),
        Keycode::Y => Some(0x19u8),
        Keycode::Z => Some(0x1Au8),
        Keycode::LeftBracket => Some(0x1Bu8),
        Keycode::Backslash => Some(0x1Cu8),
        Keycode::RightBracket => Some(0x1Du8),
        Keycode::Caret => Some(0x1Eu8),
        Keycode::Underscore => Some(0x1Fu8),
        Keycode::Question => Some(0x7Fu8),
        _ => None,
    }
}

/// The bytes a key sends whatever the modifiers: backspace sends DEL, the
/// function keys and arrows their `ESC O` sequences.
pub open spec fn plain_key_bytes(code: Keycode) -> Option<Seq<u8>> {
    match code {
        Keycode::Backspace => Some(seq![0x7Fu8]),
        Keycode::Delete => Some(seq![0x1Bu8, 0x4Fu8, 0x43u8, 0x7Fu8]),
        Keycode::Return => Some(seq![0x0Du8]),
        Keycode::Escape => Some(seq![0x1Bu8]),
        Keycode::Tab => Some(seq![0x09u8]),
        Keycode::F1 => Some(seq![0x1Bu8, 0x4Fu8, 0x50u8]),
        Keycode::F2 => Some(seq![0x1Bu8, 0x4Fu8, 0x51u8]),
        Keycode::F3 => Some(seq![0x1Bu8, 0x4Fu8, 0x52u8]),
        Keycode::F4 => Some(seq![0x1Bu8, 0x4Fu8, 0x53u8]),
        Keycode::F5 => Some(seq![0x1Bu8, 0x4Fu8, 0x74u8]),
        Keycode::F6 => Some(seq![0x1Bu8, 0x4Fu8, 0x75u8]),
        Keycode::F7 => Some(seq![0x1Bu8, 0x4Fu8, 0x76u8]),
        Keycode::F8 => Some(seq![0x1Bu8, 0x4Fu8, 0x6Cu8]),
        Keycode::F9 => Some(seq![0x1Bu8, 0x4Fu8, 0x77u8]),
        Keycode::F10 => Some(seq![0x1Bu8, 0x4Fu8, 0x78u8]),
        Keycode::Up => Some(seq![0x1Bu8, 0x4Fu8, 0x41u8]),
        Keycode::Down => Some(seq![0x1Bu8, 0x4Fu8, 0x42u8]),
        Keycode::Right => Some(seq![0x1Bu8, 0x4Fu8, 0x43u8]),
        Keycode::Left => Some(seq![0x1Bu8, 0x4Fu8, 0x44u8]),
        _ => None,
    }
}

/// The bytes a key press sends: Ctrl alone with a key of `ctrl_char` sends
/// that control character; Home and End send `ESC [ H` and `ESC [ F` alone
/// and `ESC [ 1 ; 5 H` and `ESC [ 1 ; 5 F` with Ctrl alone; other keys send
/// `plain_key_bytes`.
pub open spec fn key_down_bytes(code: Keycode, ctrl: bool, shift: bool, alt: bool) -> Option<Seq<u8>> {
    let only_ctrl = ctrl && !shift && !alt;
    let none = !ctrl && !shift && !alt;
    if ctrl_char(code) is Some {
        if only_ctrl {
            Some(seq![ctrl_char(code).unwrap()])
        } else {
            None
        }
    } else if code == Keycode::Home {
        if only_ctrl {
            Some(seq![0x1Bu8, 0x5Bu8, 0x31u8, 0x3Bu8, 0x35u8, 0x48u8])
        } else if none {
            Some(seq![0x1Bu8, 0x5Bu8, 0x48u8])
        } else {
            None
        }
    } else if code == Keycode::End {
        if only_ctrl {
            Some(seq![0x1Bu8, 0x5Bu8, 0x31u8, 0x3Bu8, 0x35u8, 0x46u8])
        } else if none {
            Some(seq![0x1Bu8, 0x5Bu8, 0x46u8])
        } else {
            None
        }
    } else {
        plain_key_bytes(code)
    }
}

/// The bytes an event sends: typed text as it is, nothing while composing.
pub open spec fn event_bytes(event: KeyEvent) -> Option<Seq<u8>> {
    match event {
        KeyEvent::TextInput(s) => Some(s@),
        KeyEvent::TextEditing(_) => None,
        KeyEvent::KeyDown { keycode, ctrl, shift, alt } => match keycode {
            Some(code) => key_down_bytes(code, ctrl, shift, alt),
            None => None,
        },
    }
}

/// The control character of `code`, if Ctrl with it types one.
fn ctrl_byte(code: Keycode) -> (b: Option<u8>)
    ensures
        b == ctrl_char(code),
{
    match code {
        Keycode::At => Some(0x00),
        Keycode::A => Some(0x01),
        Keycode::B => Some(0x02),
        Keycode::C => Some(0x03),
        Keycode::D => Some(0x04),
        Keycode::E => Some(0x05),
        Keycode::F => Some(0x06),
        Keycode::G => Some(0x07),
        Keycode::H => Some(0x08),
        Keycode::I => Some(0x09),
        Keycode::J => Some(0x0a),
        Keycode::K => Some(0x0b),
        Keycode::L => Some(0x0c),
        Keycode::M => Some(0x0d),
        Keycode::N => Some(0x0e),
        Keycode::O => Some(0x0f),
        Keycode::P => Some(0x10),
        Keycode::Q => Some(0x11),
        Keycode::R => Some(0x12),
        Keycode::S => Some(0x13),
        Keycode::T => Some(0x14),
        Keycode::U => Some(0x15),
        Keycode::V => Some(0x16),
        Keycode::W => Some(0x17),
        Keycode::X => Some(0x18),
        Keycode::Y => Some(0x19),
        Keycode::Z => Some(0x1a),
        Keycode::LeftBracket => Some(0x1B),
        Keycode::Backslash => Some(0x1C),
        Keycode::RightBracket => Some(0x1D),
        Keycode::Caret => Some(0x1E),
        Keycode::Underscore => Some(0x1F),
        Keycode::Question => Some(0x7F),
        _ => None,
    }
}

/// The bytes `code` sends whatever the modifiers.
fn plain_bytes(code: Keycode) -> (r: Option<Vec<u8>>)
    ensures
        match plain_key_bytes(code) {
            Some(s) => r matches Some(v) && v@ == s,
            None => r is None,
        },
{
    let r = match code {
        Keycode::Backspace => Some(vec![0x7Fu8]),
        Keycode::Delete => Some(vec![0x1Bu8, 0x4F, 0x43, 0x7F]),
        Keycode::Return => Some(vec![0x0Du8]),
        Keycode::Escape => Some(vec![0x1Bu8]),
        Keycode::Tab => Some(vec![0x09u8]),
        Keycode::F1 => Some(vec![0x1Bu8, 0x4F, 0x50]),
        Keycode::F2 => Some(vec![0x1Bu8, 0x4F, 0x51]),
        Keycode::F3 => Some(vec![0x1Bu8, 0x4F, 0x52]),
        Keycode::F4 => Some(vec![0x1Bu8, 0x4F, 0x53]),
        Keycode::F5 => Some(vec![0x1Bu8, 0x4F, 0x74]),
        Keycode::F6 => Some(vec![0x1Bu8, 0x4F, 0x75]),
        Keycode::F7 => Some(vec![0x1Bu8, 0x4F, 0x76]),
        Keycode::F8 => Some(vec![0x1Bu8, 0x4F, 0x6C]),
        Keycode::F9 => Some(vec![0x1Bu8, 0x4F, 0x77]),
        Keycode::F10 => Some(vec![0x1Bu8, 0x4F, 0x78]),
        Keycode::Up => Some(vec![0x1Bu8, 0x4F, 0x41]),
        Keycode::Down => Some(vec![0x1Bu8, 0x4F, 0x42]),
        Keycode::Right => Some(vec![0x1Bu8, 0x4F, 0x43]),
        Keycode::Left => Some(vec![0x1Bu8, 0x4F, 0x44]),
        _ => None,
    };
    proof {
        if r is Some {
            assert(r.unwrap()@ =~= plain_key_bytes(code).unwrap());
        }
    }
    r
}

/// The bytes that a key event sends to the program, if any.
pub fn keyevent_to_bytes(event: &KeyEvent) -> (r: Option<Vec<u8>>)
    ensures
        match event_bytes(*event) {
            Some(s) => r matches Some(v) && v@ == s,
            None => r is None,
        },
{
    match event {
        KeyEvent::TextInput(s) => Some(s.clone()),
        KeyEvent::TextEditing(_) => None,
        KeyEvent::KeyDown { keycode, ctrl, shift, alt } => {
            let only_ctrl = *ctrl && !*shift && !*alt;
            let none = !*ctrl && !*shift && !*alt;
            match keycode {
                Some(code) => {
                    let code = *code;
                    if let Some(b) = ctrl_byte(code) {
                        if only_ctrl {
                            let v = vec![b];
                            assert(v@ =~= seq![b]);
                            Some(v)
                        } else {
                            None
                        }
                    } else if code == Keycode::Home {
                        if only_ctrl {
                            let v = vec![0x1Bu8, 0x5B, 0x31, 0x3B, 0x35, 0x48];
                            assert(v@ =~= seq![0x1Bu8, 0x5Bu8, 0x31u8, 0x3Bu8, 0x35u8, 0x48u8]);
                            Some(v)
                        } else if none {
                            let v = vec![0x1Bu8, 0x5B, 0x48];
                            assert(v@ =~= seq![0x1Bu8, 0x5Bu8, 0x48u8]);
                            Some(v)
                        } else {
                            None
                        }
                    } else if code == Keycode::End {
                        if only_ctrl {
                            let v = vec![0x1Bu8, 0x5B, 0x31, 0x3B, 0x35, 0x46];
                            assert(v@ =~= seq![0x1Bu8, 0x5Bu8, 0x31u8, 0x3Bu8, 0x35u8, 0x46u8]);
                            Some(v)
                        } else if none {
                            let v = vec![0x1Bu8, 0x5B, 0x46];
                            assert(v@ =~= seq![0x1Bu8, 0x5Bu8, 0x46u8]);
                            Some(v)
                        } else {
                            None
                        }
                    } else {
                        plain_bytes(code)
                    }
                },
                None => None,
            }
        },
    }
}

} // verus!
