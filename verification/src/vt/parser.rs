//! Character-at-a-time decoder of the output of the program in the terminal
//! for the first screen model: control characters, escape sequences, control
//! sequences and sixel images.

use vstd::prelude::*;

use std::collections::VecDeque;

use super::control::{
    args_from, args_ok, basic_color, bgra, bright_color, indexed_color, or_default, parse_args,
    style_of_param, Rendition,
};
use super::{CellAttribute, Color, ControlOp, CursorMove, Style};
use crate::basics::{Point, ScreenCell};
use crate::sixel_codec::{self, decode_ok, initial_state, run};
use crate::stream::{chars_of, CharStream};

verus! {

/// The parameters with every empty one read as 0.
pub open spec fn zeroed(args: Seq<Option<i64>>) -> Seq<i64> {
    args.map_values(|a: Option<i64>| or_default(a, 0))
}

/// The color an SGR parameter selects, `a[0]` being the parameter and the
/// rest of `a` the parameters after it: `38;5;n` and `48;5;n` must end the
/// list there, as must `38;2;r;g;b` and `48;2;r;g;b`.
pub open spec fn slice_color(a: Seq<i64>) -> Option<Color> {
    if a.len() == 0 {
        None
    } else {
        let t = a[0];
        if (30 <= t <= 37) || (40 <= t <= 47) {
            Some(basic_color((t % 10) as int))
        } else if (90 <= t <= 97) || (100 <= t <= 107) {
            Some(bright_color((t % 10) as int))
        } else if t == 38 || t == 48 {
            if a.len() == 3 && a[1] == 5 {
                indexed_color(a[2])
            } else if a.len() == 5 && a[1] == 2 {
                Some(Color::RGB(a[2] as u8, a[3] as u8, a[4] as u8))
            } else {
                None
            }
        } else {
            None
        }
    }
}

/// Applying the SGR parameters of `a` from index `i` on to `r`: a color
/// parameter takes the rest of the list and ends it; `None` when that color
/// is invalid.
pub open spec fn slice_sgr(a: Seq<i64>, i: int, r: Rendition) -> Option<Rendition>
    decreases a.len() - i,
{
    if i < 0 || i >= a.len() {
        Some(r)
    } else {
        let (style, fg, bg) = r;
        let x = a[i];
        if x == 0 {
            slice_sgr(a, i + 1, (Some(Style::Normal), Some(Color::LightWhite), Some(Color::Black)))
        } else if x == 1 {
            slice_sgr(a, i + 1, (Some(Style::Bold), fg, bg))
        } else if x == 4 {
            slice_sgr(a, i + 1, (Some(Style::UnderLine), fg, bg))
        } else if x == 5 {
            slice_sgr(a, i + 1, (Some(Style::Blink), fg, bg))
        } else if x == 7 {
            slice_sgr(a, i + 1, (Some(Style::Reverse), fg, bg))
        } else if (30 <= x <= 38) || (90 <= x <= 97) {
            match slice_color(a.subrange(i, a.len() as int)) {
                Some(c) => Some((style, Some(c), bg)),
                None => None,
            }
        } else if (40 <= x <= 48) || (100 <= x <= 107) {
            match slice_color(a.subrange(i, a.len() as int)) {
                Some(c) => Some((style, fg, Some(c))),
                None => None,
            }
        } else {
            slice_sgr(a, i + 1, r)
        }
    }
}

/// A style parameter sets the style that it selects and leaves the colors,
/// whatever was set before; the parameters after it go on from there.
pub proof fn lemma_slice_sgr_style_param(a: Seq<i64>, i: int, r: Rendition)
    requires
        0 <= i < a.len(),
        style_of_param(a[i]) is Some,
    ensures
        slice_sgr(a, i, r) == slice_sgr(a, i + 1, (style_of_param(a[i]), r.1, r.2)),
{
}

/// `ESC [ p m` with one style parameter `p` changes the style to the one
/// `p` selects and no color.
pub proof fn lemma_plain_sgr_single_style(p: i64)
    requires
        style_of_param(p) is Some,
    ensures
        plain_op(seq![Some(p)], 'm') == Some(ControlOp::ChangeCellAttribute(style_of_param(p), None, None)),
{
    reveal_with_fuel(slice_sgr, 2);
    assert(zeroed(seq![Some(p)]) =~= seq![p]);
}

/// The operation of a private (`?`) control sequence.
pub open spec fn question_op(args: Seq<Option<i64>>, fin: char) -> Option<ControlOp> {
    if args.len() == 1 && args[0] == Some(1i64) && fin == 'h' {
        Some(ControlOp::SetCursorMode(true))
    } else if args.len() == 1 && args[0] == Some(1i64) && fin == 'l' {
        Some(ControlOp::SetCursorMode(false))
    } else if args.len() == 1 && args[0] == Some(25i64) && fin == 'h' {
        Some(ControlOp::ShowCursor)
    } else if args.len() == 1 && args[0] == Some(25i64) && fin == 'l' {
        Some(ControlOp::HideCursor)
    } else if args.len() == 1 && args[0] == Some(2004i64) && (fin == 'h' || fin == 'l') {
        Some(ControlOp::Ignore)
    } else {
        None
    }
}

/// The argument list is the single `a`.
pub open spec fn single(args: Seq<Option<i64>>, a: Option<i64>) -> bool {
    args.len() == 1 && args[0] == a
}

/// The operation of a control sequence other than a private one.
pub open spec fn plain_op(args: Seq<Option<i64>>, fin: char) -> Option<ControlOp> {
    if (fin == 'f' || fin == 'H') && single(args, None) {
        Some(ControlOp::CursorMove(CursorMove::Exact(Point { x: 0, y: 0 })))
    } else if (fin == 'f' || fin == 'H') && args.len() == 2 {
        let x = or_default(args[1], 1);
        let y = or_default(args[0], 1);
        if x == i64::MIN || y == i64::MIN {
            None
        } else {
            Some(ControlOp::CursorMove(CursorMove::Exact(Point { x: (x - 1) as i32, y: (y - 1) as i32 })))
        }
    } else if args.len() == 1 && fin == 'A' {
        Some(ControlOp::CursorMove(CursorMove::Up(or_default(args[0], 1) as usize)))
    } else if args.len() == 1 && fin == 'B' {
        Some(ControlOp::CursorMove(CursorMove::Down(or_default(args[0], 1) as usize)))
    } else if args.len() == 1 && fin == 'C' {
        Some(ControlOp::CursorMove(CursorMove::Right(or_default(args[0], 1) as usize)))
    } else if args.len() == 1 && fin == 'D' {
        Some(ControlOp::CursorMove(CursorMove::Left(or_default(args[0], 1) as usize)))
    } else if single(args, None) && fin == 's' {
        Some(ControlOp::SaveCursor)
    } else if single(args, None) && fin == 'u' {
        Some(ControlOp::RestoreCursor)
    } else if (single(args, None) || single(args, Some(0i64))) && fin == 'K' {
        Some(ControlOp::EraseEndOfLine)
    } else if single(args, Some(1i64)) && fin == 'K' {
        Some(ControlOp::EraseStartOfLine)
    } else if single(args, Some(2i64)) && fin == 'K' {
        Some(ControlOp::EraseLine)
    } else if (single(args, None) || single(args, Some(0i64))) && fin == 'J' {
        Some(ControlOp::EraseDown)
    } else if single(args, Some(1i64)) && fin == 'J' {
        Some(ControlOp::EraseUp)
    } else if single(args, Some(2i64)) && fin == 'J' {
        Some(ControlOp::EraseScreen)
    } else if args.len() == 2 && args[0] is Some && args[1] is Some && fin == 'r' {
        let top = args[0].unwrap() as i32;
        let bot = args[1].unwrap() as i32;
        if top == i32::MIN || bot == i32::MIN {
            None
        } else {
            Some(ControlOp::SetScrollRange(std::ops::Range { start: (top - 1) as i32, end: bot }))
        }
    } else if fin == 'm' {
        match slice_sgr(zeroed(args), 0, (None, None, None)) {
            Some((style, fg, bg)) => Some(ControlOp::ChangeCellAttribute(style, fg, bg)),
            None => None,
        }
    } else {
        None
    }
}

/// Where the arguments of the control sequence `buf` start: after a leading `?`.
pub open spec fn args_start(buf: Seq<char>) -> int {
    if buf.len() > 0 && buf[0] == '?' {
        1
    } else {
        0
    }
}

/// The operation of the control sequence `buf` (after `ESC [`, its final
/// character included); `None` when it is incomplete or unknown.
pub open spec fn csi_of(buf: Seq<char>) -> Option<ControlOp> {
    match args_from(buf, args_start(buf), seq![]) {
        None => None,
        Some((args, fin, _)) => if args_start(buf) == 1 {
            question_op(args, fin)
        } else {
            plain_op(args, fin)
        },
    }
}

/// The color of an SGR parameter list from index `i`: `slice_color` of its rest.
fn color(args: &Vec<i64>, i: usize) -> (c: Option<Color>)
    requires
        i < args@.len(),
    ensures
        c == slice_color(args@.subrange(i as int, args@.len() as int)),
{
    let n = args.len() - i;
    let t = args[i];
    if (30 <= t && t <= 37) || (40 <= t && t <= 47) {
        Some(basic(t % 10))
    } else if (90 <= t && t <= 97) || (100 <= t && t <= 107) {
        Some(bright(t % 10))
    } else if t == 38 || t == 48 {
        if n == 3 && args[i + 1] == 5 {
            indexed(args[i + 2])
        } else if n == 5 && args[i + 1] == 2 {
            Some(Color::RGB(args[i + 2] as u8, args[i + 3] as u8, args[i + 4] as u8))
        } else {
            None
        }
    } else {
        None
    }
}

/// A basic color by its index.
fn basic(i: i64) -> (c: Color)
    requires
        0 <= i < 8,
    ensures
        c == basic_color(i as int),
{
    match i {
        0 => Color::Black,
        1 => Color::Red,
        2 => Color::Green,
        3 => Color::Yellow,
        4 => Color::Blue,
        5 => Color::Magenta,
        6 => Color::Cyan,
        _ => Color::White,
    }
}

/// A bright color by its index.
fn bright(i: i64) -> (c: Color)
    requires
        0 <= i < 8,
    ensures
        c == bright_color(i as int),
{
    match i {
        0 => Color::Gray,
        1 => Color::LightRed,
        2 => Color::LightGreen,
        3 => Color::LightYellow,
        4 => Color::LightBlue,
        5 => Color::LightMagenta,
        6 => Color::LightCyan,
        _ => Color::LightWhite,
    }
}

/// Entry `idx` of the 256-color table, `None` outside it.
fn indexed(idx: i64) -> (c: Option<Color>)
    ensures
        c == indexed_color(idx),
{
    match idx {
        0 => Some(Color::Black),
        1 => Some(Color::Red),
        2 => Some(Color::Yellow),
        3 => Some(Color::Green),
        4 => Some(Color::Blue),
        5 => Some(Color::Magenta),
        6 => Some(Color::Cyan),
        7 => Some(Color::White),
        8 => Some(Color::Gray),
        9 => Some(Color::LightRed),
        10 => Some(Color::LightYellow),
        11 => Some(Color::LightGreen),
        12 => Some(Color::LightBlue),
        13 => Some(Color::LightMagenta),
        14 => Some(Color::LightCyan),
        15 => Some(Color::LightWhite),
        _ => {
            if 16 <= idx && idx <= 231 {
                let x = idx - 16;
                let red = (x / 36) as u8;
                let green = ((x % 36) / 6) as u8;
                let blue = (x % 6) as u8;
                Some(Color::RGB(red * 51, green * 51, blue * 51))
            } else if 232 <= idx && idx <= 255 {
                let x = idx - 232;
                let v = (x * 11) as u8;
                Some(Color::RGB(v, v, v))
            } else {
                None
            }
        },
    }
}

/// Applies SGR parameters (empty ones already read as 0).
fn sgr(args: &Vec<i64>) -> (r: Option<Rendition>)
    ensures
        r == slice_sgr(args@, 0, (None, None, None)),
{
    let mut style: Option<Style> = None;
    let mut fg: Option<Color> = None;
    let mut bg: Option<Color> = None;
    let mut i: usize = 0;
    while i < args.len()
        invariant
            i <= args@.len(),
            slice_sgr(args@, i as int, (style, fg, bg)) == slice_sgr(args@, 0, (None, None, None)),
        decreases args@.len() - i,
    {
        let arg = args[i];
        if arg == 0 {
            let def = CellAttribute::default();
            style = Some(def.style);
            fg = Some(def.fg);
            bg = Some(def.bg);
        } else if arg == 1 {
            style = Some(Style::Bold);
        } else if arg == 4 {
            style = Some(Style::UnderLine);
        } else if arg == 5 {
            style = Some(Style::Blink);
        } else if arg == 7 {
            style = Some(Style::Reverse);
        } else if (30 <= arg && arg <= 38) || (90 <= arg && arg <= 97) {
            match color(args, i) {
                Some(c) => {
                    fg = Some(c);
                    return Some((style, fg, bg));
                },
                None => {
                    return None;
                },
            }
        } else if (40 <= arg && arg <= 48) || (100 <= arg && arg <= 107) {
            match color(args, i) {
                Some(c) => {
                    bg = Some(c);
                    return Some((style, fg, bg));
                },
                None => {
                    return None;
                },
            }
        }
        i += 1;
    }
    Some((style, fg, bg))
}

/// The parameters with every empty one read as 0.
fn zero_defaults(args: &Vec<Option<i64>>) -> (v: Vec<i64>)
    ensures
        v@ == zeroed(args@),
{
    let mut v: Vec<i64> = Vec::new();
    let mut i: usize = 0;
    while i < args.len()
        invariant
            i <= args@.len(),
            v@ == zeroed(args@).subrange(0, i as int),
        decreases args@.len() - i,
    {
        let a = match args[i] {
            Some(x) => x,
            None => 0,
        };
        v.push(a);
        i += 1;
        assert(v@ =~= zeroed(args@).subrange(0, i as int));
    }
    assert(v@ =~= zeroed(args@));
    v
}

/// The argument list is the single `a`.
fn is_single(args: &Vec<Option<i64>>, a: Option<i64>) -> (b: bool)
    ensures
        b == single(args@, a),
{
    args.len() == 1 && args[0] == a
}

/// An argument, with `d` standing for an empty one.
fn arg_or(a: Option<i64>, d: i64) -> (v: i64)
    ensures
        v == or_default(a, d),
{
    match a {
        Some(x) => x,
        None => d,
    }
}

/// Decodes a control sequence (after `ESC [`) from `itr`.
fn csi(itr: &mut CharStream) -> (op: Option<ControlOp>)
    requires
        old(itr).at() == 0,
        args_ok(old(itr).text(), args_start(old(itr).text())),
    ensures
        op == csi_of(old(itr).text()),
{
    let question = match itr.peek() {
        Some(c) => c == '?',
        None => false,
    };
    if question {
        itr.next();
    }
    let (args, fin) = match parse_args(itr) {
        Some(r) => r,
        None => {
            return None;
        },
    };
    if question {
        if is_single(&args, Some(1)) && fin == 'h' {
            Some(ControlOp::SetCursorMode(true))
        } else if is_single(&args, Some(1)) && fin == 'l' {
            Some(ControlOp::SetCursorMode(false))
        } else if is_single(&args, Some(25)) && fin == 'h' {
            Some(ControlOp::ShowCursor)
        } else if is_single(&args, Some(25)) && fin == 'l' {
            Some(ControlOp::HideCursor)
        } else if is_single(&args, Some(2004)) && (fin == 'h' || fin == 'l') {
            Some(ControlOp::Ignore)
        } else {
            None
        }
    } else if (fin == 'f' || fin == 'H') && is_single(&args, None) {
        Some(ControlOp::CursorMove(CursorMove::Exact(Point { x: 0, y: 0 })))
    } else if (fin == 'f' || fin == 'H') && args.len() == 2 {
        let x = arg_or(args[1], 1).checked_sub(1)?;
        let y = arg_or(args[0], 1).checked_sub(1)?;
        Some(ControlOp::CursorMove(CursorMove::Exact(Point { x: x as i32, y: y as i32 })))
    } else if args.len() == 1 && fin == 'A' {
        Some(ControlOp::CursorMove(CursorMove::Up(arg_or(args[0], 1) as usize)))
    } else if args.len() == 1 && fin == 'B' {
        Some(ControlOp::CursorMove(CursorMove::Down(arg_or(args[0], 1) as usize)))
    } else if args.len() == 1 && fin == 'C' {
        Some(ControlOp::CursorMove(CursorMove::Right(arg_or(args[0], 1) as usize)))
    } else if args.len() == 1 && fin == 'D' {
        Some(ControlOp::CursorMove(CursorMove::Left(arg_or(args[0], 1) as usize)))
    } else if is_single(&args, None) && fin == 's' {
        Some(ControlOp::SaveCursor)
    } else if is_single(&args, None) && fin == 'u' {
        Some(ControlOp::RestoreCursor)
    } else if (is_single(&args, None) || is_single(&args, Some(0))) && fin == 'K' {
        Some(ControlOp::EraseEndOfLine)
    } else if is_single(&args, Some(1)) && fin == 'K' {
        Some(ControlOp::EraseStartOfLine)
    } else if is_single(&args, Some(2)) && fin == 'K' {
        Some(ControlOp::EraseLine)
    } else if (is_single(&args, None) || is_single(&args, Some(0))) && fin == 'J' {
        Some(ControlOp::EraseDown)
    } else if is_single(&args, Some(1)) && fin == 'J' {
        Some(ControlOp::EraseUp)
    } else if is_single(&args, Some(2)) && fin == 'J' {
        Some(ControlOp::EraseScreen)
    } else if args.len() == 2 && args[0].is_some() && args[1].is_some() && fin == 'r' {
        let top = (arg_or(args[0], 0) as i32).checked_sub(1)?;
        let bot = (arg_or(args[1], 0) as i32).checked_sub(1)?;
        Some(ControlOp::SetScrollRange(top..bot + 1))
    } else if fin == 'm' {
        let default_zero = zero_defaults(&args);
        match sgr(&default_zero) {
            Some((style, fg, bg)) => Some(ControlOp::ChangeCellAttribute(style, fg, bg)),
            None => None,
        }
    } else {
        None
    }
}

/// What the decoder is in the middle of, as a value.
pub enum StateView {
    NotStarted,
    EscapeSequence,
    Csi(Seq<char>),
    Sixel(Seq<char>),
}

/// What feeding one character gives.
pub enum Emitted {
    /// An operation.
    Op(ControlOp),
    /// A sixel image decoded from these characters.
    Image(Seq<char>),
}

/// A character outside any sequence.
pub open spec fn start_step(c: char) -> (StateView, Option<Emitted>) {
    if c == '\x00' {
        (StateView::NotStarted, Some(Emitted::Op(ControlOp::Ignore)))
    } else if c == '\x07' {
        (StateView::NotStarted, Some(Emitted::Op(ControlOp::Bell)))
    } else if c == '\x08' {
        (StateView::NotStarted, Some(Emitted::Op(ControlOp::CursorMove(CursorMove::Left(1)))))
    } else if c == '\x09' {
        (StateView::NotStarted, Some(Emitted::Op(ControlOp::Tab)))
    } else if c == '\x0A' {
        (StateView::NotStarted, Some(Emitted::Op(ControlOp::LineFeed)))
    } else if c == '\x0D' {
        (StateView::NotStarted, Some(Emitted::Op(ControlOp::CarriageReturn)))
    } else if c == '\x1B' {
        (StateView::EscapeSequence, None)
    } else {
        (StateView::NotStarted, Some(Emitted::Op(ControlOp::InsertChar(c))))
    }
}

/// A character after `ESC`.
pub open spec fn escape_step(c: char) -> (StateView, Option<Emitted>) {
    if c == '[' {
        (StateView::Csi(seq![]), None)
    } else if c == 'D' {
        (StateView::NotStarted, Some(Emitted::Op(ControlOp::ScrollUp)))
    } else if c == 'M' {
        (StateView::NotStarted, Some(Emitted::Op(ControlOp::ScrollDown)))
    } else if c == 'P' {
        (StateView::Sixel(seq![]), None)
    } else if c == '7' {
        (StateView::NotStarted, Some(Emitted::Op(ControlOp::SaveCursor)))
    } else if c == '8' {
        (StateView::NotStarted, Some(Emitted::Op(ControlOp::RestoreCursor)))
    } else if c == '=' || c == '>' {
        (StateView::NotStarted, Some(Emitted::Op(ControlOp::Ignore)))
    } else if c == 'c' {
        (StateView::NotStarted, Some(Emitted::Op(ControlOp::Reset)))
    } else {
        (StateView::NotStarted, None)
    }
}

/// A character of a control sequence, `buf` holding the earlier ones: `?`,
/// digits, `;` and space are collected, any other character ends it.
pub open spec fn csi_step(buf: Seq<char>, c: char) -> (StateView, Option<Emitted>) {
    if c == '?' || ('0' <= c <= '9') || c == ';' || c == ' ' {
        (StateView::Csi(buf.push(c)), None)
    } else {
        (
            StateView::NotStarted,
            match csi_of(buf.push(c)) {
                Some(op) => Some(Emitted::Op(op)),
                None => None,
            },
        )
    }
}

/// A character of a device control string, `buf` holding the earlier ones
/// (but a leading `q`): `ESC \\` ends it and decodes it as a sixel image.
pub open spec fn sixel_step(buf: Seq<char>, c: char) -> (StateView, Option<Emitted>) {
    if buf.len() > 0 && buf.last() == '\x1B' && c == '\\' {
        (StateView::NotStarted, Some(Emitted::Image(buf.push(c))))
    } else if buf.len() == 0 && c == 'q' {
        (StateView::Sixel(buf), None)
    } else {
        (StateView::Sixel(buf.push(c)), None)
    }
}

/// Feeding `c` to the decoder in state `st`.
pub open spec fn transfer_step(st: StateView, c: char) -> (StateView, Option<Emitted>) {
    match st {
        StateView::NotStarted => start_step(c),
        StateView::EscapeSequence => escape_step(c),
        StateView::Csi(buf) => csi_step(buf, c),
        StateView::Sixel(buf) => sixel_step(buf, c),
    }
}

/// The palette after decoding the sixel image `chars` with `palette`.
pub open spec fn palette_after(chars: Seq<char>, palette: Seq<sixel_codec::Color>) -> Seq<sixel_codec::Color> {
    run(chars, 0, initial_state(0, None, palette), bgra()).0.palette
}

/// Feeding `c` in state `st` with the palette `palette` can be done without
/// panicking: the numbers of a finished control sequence fit in `i64`, and a
/// finished sixel image decodes without overflow.
pub open spec fn transfer_ok(st: StateView, c: char, palette: Seq<sixel_codec::Color>) -> bool {
    match transfer_step(st, c) {
        (_, Some(Emitted::Image(chars))) => decode_ok(chars, 0, 0, None, palette, bgra()),
        _ => match st {
            StateView::Csi(buf) => !(c == '?' || ('0' <= c <= '9') || c == ';' || c == ' ') ==> args_ok(
                buf.push(c),
                args_start(buf.push(c)),
            ),
            _ => true,
        },
    }
}

/// `op` is what `e` stands for, sixel images decoded with `palette`.
pub open spec fn op_is(op: ControlOp, e: Emitted, palette: Seq<sixel_codec::Color>) -> bool {
    match e {
        Emitted::Op(o) => op == o,
        Emitted::Image(chars) => {
            let fin = run(chars, 0, initial_state(0, None, palette), bgra()).0;
            op matches ControlOp::Sixel(img) && img.height == fin.height && img.width == fin.width
                && img.buf@ == fin.buf
        },
    }
}

/// What the decoder is in the middle of.
pub enum State {
    NotStarted,
    EscapeSequence,
    Csi(Vec<char>),
    Sixel(Vec<char>),
}

impl State {
    /// The state as a value.
    pub open spec fn view(&self) -> StateView {
        match self {
            State::NotStarted => StateView::NotStarted,
            State::EscapeSequence => StateView::EscapeSequence,
            State::Csi(buf) => StateView::Csi(buf@),
            State::Sixel(buf) => StateView::Sixel(buf@),
        }
    }

    fn start(&mut self, input: char) -> (op: Option<ControlOp>)
        ensures
            final(self).view() == start_step(input).0,
            match start_step(input).1 {
                Some(Emitted::Op(o)) => op == Some(o),
                _ => op is None,
            },
    {
        *self = State::NotStarted;
        match input {
            '\x00' => Some(ControlOp::Ignore),
            '\x07' => Some(ControlOp::Bell),
            '\x08' => Some(ControlOp::CursorMove(CursorMove::Left(1))),
            '\x09' => Some(ControlOp::Tab),
            '\x0A' => Some(ControlOp::LineFeed),
            '\x0D' => Some(ControlOp::CarriageReturn),
            '\x1B' => {
                *self = State::EscapeSequence;
                None
            },
            x => Some(ControlOp::InsertChar(x)),
        }
    }

    fn escape_sequence(&mut self, input: char) -> (op: Option<ControlOp>)
        ensures
            final(self).view() == escape_step(input).0,
            match escape_step(input).1 {
                Some(Emitted::Op(o)) => op == Some(o),
                _ => op is None,
            },
    {
        *self = State::NotStarted;
        match input {
            '[' => {
                *self = State::Csi(Vec::new());
                assert(self.view() == StateView::Csi(Seq::<char>::empty()));
                None
            },
            'D' => Some(ControlOp::ScrollUp),
            'M' => Some(ControlOp::ScrollDown),
            'P' => {
                *self = State::Sixel(Vec::new());
                assert(self.view() == StateView::Sixel(Seq::<char>::empty()));
                None
            },
            '7' => Some(ControlOp::SaveCursor),
            '8' => Some(ControlOp::RestoreCursor),
            '=' => Some(ControlOp::Ignore),
            '>' => Some(ControlOp::Ignore),
            'c' => Some(ControlOp::Reset),
            _ => None,
        }
    }

    fn csi(&mut self, input: char) -> (op: Option<ControlOp>)
        requires
            old(self).view() is Csi,
            transfer_ok(old(self).view(), input, seq![]),
        ensures
            final(self).view() == csi_step(old(self).view()->Csi_0, input).0,
            match csi_step(old(self).view()->Csi_0, input).1 {
                Some(Emitted::Op(o)) => op == Some(o),
                _ => op is None,
            },
    {
        if input == '?' || ('0' <= input && input <= '9') || input == ';' || input == ' ' {
            match self {
                State::Csi(buf) => {
                    buf.push(input);
                },
                _ => {},
            }
            None
        } else {
            let mut taken = State::NotStarted;
            std::mem::swap(self, &mut taken);
            match taken {
                State::Csi(mut buf) => {
                    buf.push(input);
                    let mut iter = CharStream::new(buf);
                    csi(&mut iter)
                },
                _ => None,
            }
        }
    }

    fn sixel(&mut self, input: char, palette: &mut Vec<sixel_codec::Color>) -> (op: Option<ControlOp>)
        requires
            old(self).view() is Sixel,
            old(palette)@.len() == 256,
            transfer_ok(old(self).view(), input, old(palette)@),
        ensures
            final(self).view() == sixel_step(old(self).view()->Sixel_0, input).0,
            final(palette)@.len() == 256,
            match sixel_step(old(self).view()->Sixel_0, input).1 {
                Some(e) => op matches Some(o) && op_is(o, e, old(palette)@) && final(palette)@
                    == match e {
                    Emitted::Image(chars) => palette_after(chars, old(palette)@),
                    _ => old(palette)@,
                },
                None => op is None && final(palette)@ == old(palette)@,
            },
    {
        let last = match self {
            State::Sixel(buf) => buf.len() > 0 && buf[buf.len() - 1] == '\x1b' && input == '\\',
            _ => false,
        };
        if last {
            let mut taken = State::NotStarted;
            std::mem::swap(self, &mut taken);
            match taken {
                State::Sixel(mut buf) => {
                    buf.push(input);
                    let mut itr = CharStream::new(buf);
                    let ord: [usize; 4] = [3, 2, 1, 0];
                    assert(ord@ =~= bgra());
                    let img = sixel_codec::decode(&mut itr, palette, ord, 0, None);
                    Some(ControlOp::Sixel(img))
                },
                _ => None,
            }
        } else {
            match self {
                State::Sixel(buf) => {
                    if !(buf.len() == 0 && input == 'q') {
                        buf.push(input);
                    }
                },
                _ => {},
            }
            None
        }
    }

    /// Feeds one character; returns the operation it completes, if any.
    /// Sixel images are decoded with `palette`, which keeps the color
    /// registers from one image to the next.
    pub fn transfer(&mut self, input: char, palette: &mut Vec<sixel_codec::Color>) -> (op: Option<ControlOp>)
        requires
            old(palette)@.len() == 256,
            transfer_ok(old(self).view(), input, old(palette)@),
        ensures
            final(self).view() == transfer_step(old(self).view(), input).0,
            final(palette)@.len() == 256,
            match transfer_step(old(self).view(), input).1 {
                Some(e) => op matches Some(o) && op_is(o, e, old(palette)@) && final(palette)@
                    == match e {
                    Emitted::Image(chars) => palette_after(chars, old(palette)@),
                    _ => old(palette)@,
                },
                None => op is None && final(palette)@ == old(palette)@,
            },
    {
        match self {
            State::NotStarted => self.start(input),
            State::EscapeSequence => self.escape_sequence(input),
            State::Csi(_) => self.csi(input),
            State::Sixel(_) => self.sixel(input, palette),
        }
    }
}

/// The palette after `e`, starting from `palette`.
pub open spec fn palette_past(e: Option<Emitted>, palette: Seq<sixel_codec::Color>) -> Seq<sixel_codec::Color> {
    match e {
        Some(Emitted::Image(chars)) => palette_after(chars, palette),
        _ => palette,
    }
}

/// Feeding `chars` in state `st` with palette `palette`: the state and palette
/// after them, and what was emitted, each with the palette it was decoded with.
pub open spec fn feed_run(st: StateView, palette: Seq<sixel_codec::Color>, chars: Seq<char>) -> (
    StateView,
    Seq<sixel_codec::Color>,
    Seq<(Emitted, Seq<sixel_codec::Color>)>,
)
    decreases chars.len(),
{
    if chars.len() == 0 {
        (st, palette, seq![])
    } else {
        let (st1, e) = transfer_step(st, chars[0]);
        let (stf, palf, es) = feed_run(st1, palette_past(e, palette), chars.drop_first());
        (
            stf,
            palf,
            match e {
                Some(x) => seq![(x, palette)] + es,
                None => es,
            },
        )
    }
}

/// Feeding `chars` as `feed_run` does never panics.
pub open spec fn feed_ok(st: StateView, palette: Seq<sixel_codec::Color>, chars: Seq<char>) -> bool
    decreases chars.len(),
{
    if chars.len() == 0 {
        true
    } else {
        let (st1, e) = transfer_step(st, chars[0]);
        transfer_ok(st, chars[0], palette) && feed_ok(st1, palette_past(e, palette), chars.drop_first())
    }
}

/// The decoder with the operations it has decoded and not yet handed out.
pub struct Parser {
    op_buf: VecDeque<ControlOp>,
    state: State,
    palette: Vec<sixel_codec::Color>,
}

impl Parser {
    /// The decoding state.
    pub closed spec fn state_view(self) -> StateView {
        self.state.view()
    }

    /// The color registers of the sixel decoder.
    pub closed spec fn palette(self) -> Seq<sixel_codec::Color> {
        self.palette@
    }

    /// The operations decoded and not yet handed out, oldest first.
    pub closed spec fn ops(self) -> Seq<ControlOp> {
        self.op_buf@
    }

    /// The decoder holds 256 color registers.
    pub closed spec fn wf(self) -> bool {
        self.palette@.len() == 256
    }

    /// A decoder outside any sequence, with nothing decoded and all color
    /// registers black.
    pub fn new() -> (p: Self)
        ensures
            p.wf(),
            p.state_view() == StateView::NotStarted,
            p.ops() == Seq::<ControlOp>::empty(),
            forall|i: int| 0 <= i < 256 ==> #[trigger] p.palette()[i] == (sixel_codec::Color { a: 255, r: 0, g: 0, b: 0 }),
    {
        Parser { op_buf: VecDeque::new(), state: State::NotStarted, palette: sixel_codec::default_palette() }
    }

    /// Feeds the characters of `input`, queueing the operations they
    /// complete; returns whether any operation is waiting.
    pub fn feed(&mut self, input: &str) -> (waiting: bool)
        requires
            old(self).wf(),
            feed_ok(old(self).state_view(), old(self).palette(), input@),
        ensures
            final(self).wf(),
            ({
                let (st, pal, es) = feed_run(old(self).state_view(), old(self).palette(), input@);
                let n = old(self).ops().len();
                &&& final(self).state_view() == st
                &&& final(self).palette() == pal
                &&& final(self).ops().len() == n + es.len()
                &&& final(self).ops().subrange(0, n as int) == old(self).ops()
                &&& forall|k: int| 0 <= k < es.len() ==> op_is(#[trigger] final(self).ops()[n + k], es[k].0, es[k].1)
            }),
            waiting == (final(self).ops().len() > 0),
    {
        let chars = chars_of(input);
        let ghost all = chars@;
        let ghost n0 = self.op_buf@.len();
        let ghost full = feed_run(self.state.view(), self.palette@, all);
        let n = chars.len();
        let mut i: usize = 0;
        let ghost mut done: Seq<(Emitted, Seq<sixel_codec::Color>)> = seq![];
        assert(all.subrange(0, n as int) =~= all);
        while i < n
            invariant
                i <= n,
                n == all.len(),
                chars@ == all,
                self.palette@.len() == 256,
                feed_ok(self.state.view(), self.palette@, all.subrange(i as int, n as int)),
                ({
                    let (st, pal, es) = feed_run(self.state.view(), self.palette@, all.subrange(i as int, n as int));
                    &&& full.0 == st
                    &&& full.1 == pal
                    &&& full.2 == done + es
                }),
                self.op_buf@.len() == n0 + done.len(),
                self.op_buf@.subrange(0, n0 as int) == old(self).op_buf@,
                forall|k: int| 0 <= k < done.len() ==> op_is(#[trigger] self.op_buf@[n0 + k], done[k].0, done[k].1),
            decreases n - i,
        {
            let c = chars[i];
            let ghost rest = all.subrange(i as int, n as int);
            assert(rest[0] == c);
            assert(rest.drop_first() =~= all.subrange(i + 1, n as int));
            let ghost st0 = self.state.view();
            let ghost pal0 = self.palette@;
            let ghost e = transfer_step(st0, c).1;
            let op = self.state.transfer(c, &mut self.palette);
            match op {
                Some(op) => {
                    let ghost before = self.op_buf@;
                    self.op_buf.push_back(op);
                    proof {
                        let x = e.unwrap();
                        let (stf, palf, es) = feed_run(self.state.view(), self.palette@, all.subrange(i + 1, n as int));
                        assert(done + (seq![(x, pal0)] + es) =~= done.push((x, pal0)) + es);
                        assert(self.op_buf@.subrange(0, n0 as int) =~= before.subrange(0, n0 as int));
                        done = done.push((x, pal0));
                    }
                },
                None => {},
            }
            i += 1;
        }
        assert(done =~= full.2);
        self.op_buf.len() > 0
    }

    /// Hands out the oldest decoded operation, if any.
    pub fn next(&mut self) -> (op: Option<ControlOp>)
        ensures
            final(self).wf() == old(self).wf(),
            final(self).state_view() == old(self).state_view(),
            final(self).palette() == old(self).palette(),
            old(self).ops().len() == 0 ==> op is None && final(self).ops() == old(self).ops(),
            old(self).ops().len() > 0 ==> op == Some(old(self).ops()[0]) && final(self).ops()
                == old(self).ops().drop_first(),
    {
        self.op_buf.pop_front()
    }
}

} // verus!
