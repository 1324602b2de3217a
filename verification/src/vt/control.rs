//! Decoder of escape sequences for the SDL terminal (the part after `ESC`).

use vstd::prelude::*;

use super::{default_attribute, CellAttribute, Color, Style};
use crate::basics::{Point, ScreenCell};
use crate::sixel_codec::parser::is_digit;
use crate::sixel_codec::{self, decode_ok, initial_state, ord_ok, run};
use crate::stream::{char_at, CharStream};

verus! {

/// An operation decoded from an escape sequence.
#[derive(Debug)]
pub enum ControlOp {
    CursorHome(Point<ScreenCell>),
    CursorUp(usize),
    CursorDown(usize),
    CursorForward(usize),
    CursorBackward(usize),
    SaveCursor,
    RestoreCursor,
    ScrollDown,
    ScrollUp,
    EraseEndOfLine,
    EraseStartOfLine,
    EraseLine,
    EraseDown,
    EraseUp,
    EraseScreen,
    SetTopBottom(std::ops::Range<i32>),
    Reset,
    ChangeCellAttribute(Option<Style>, Option<Color>, Option<Color>),
    SetCursorMode(bool),
    Sixel(sixel_codec::Image),
    Ignore,
}

/// Value of a decimal digit.
pub open spec fn digit_val(c: char) -> int {
    c as int - '0' as int
}

/// Reading the run of digits at `p` onto `acc`: the number (`None` when there is
/// no digit) and the position after the run.
pub open spec fn digits_from(s: Seq<char>, p: int, acc: Option<int>) -> (Option<int>, int)
    decreases s.len() - p,
{
    if 0 <= p < s.len() && is_digit(s[p]) {
        let a = match acc {
            Some(v) => v,
            None => 0,
        };
        digits_from(s, p + 1, Some(a * 10 + digit_val(s[p])))
    } else {
        (acc, p)
    }
}

pub proof fn lemma_digits_from(s: Seq<char>, p: int, acc: Option<int>)
    requires
        acc matches Some(v) ==> v >= 0,
    ensures
        digits_from(s, p, acc).1 >= p,
        0 <= p <= s.len() ==> digits_from(s, p, acc).1 <= s.len(),
        acc matches Some(v) ==> (digits_from(s, p, acc).0 matches Some(w) && w >= v),
        digits_from(s, p, acc).0 matches Some(w) ==> w >= 0,
        acc is None && digits_from(s, p, acc).1 > p ==> digits_from(s, p, acc).0 is Some,
    decreases s.len() - p,
{
    if 0 <= p < s.len() && is_digit(s[p]) {
        let a = match acc {
            Some(v) => v,
            None => 0,
        };
        lemma_digits_from(s, p + 1, Some(a * 10 + digit_val(s[p])));
    }
}

/// A number read as a whole as an `i64`.
pub open spec fn as_i64(n: Option<int>) -> Option<i64> {
    match n {
        Some(v) => Some(v as i64),
        None => None,
    }
}

/// The number at `p` fits in `i64`.
pub open spec fn digits_ok(s: Seq<char>, p: int) -> bool {
    digits_from(s, p, None).0 matches Some(v) ==> v <= i64::MAX
}

/// Reads a decimal number; `None` when no digit follows.
fn parse_numeric(itr: &mut CharStream) -> (n: Option<i64>)
    requires
        digits_ok(old(itr).text(), old(itr).at()),
    ensures
        final(itr).text() == old(itr).text(),
        (n, final(itr).at()) == ({
            let (v, q) = digits_from(old(itr).text(), old(itr).at(), None);
            (as_i64(v), q)
        }),
{
    let ghost s = itr.text();
    let ghost p0 = itr.at();
    let mut tmp: Option<i64> = None;
    proof {
        lemma_digits_from(s, p0, None);
    }
    loop
        invariant
            itr.text() == s,
            digits_from(s, itr.at(), as_int(tmp)) == digits_from(s, p0, None),
            digits_ok(s, p0),
            tmp matches Some(v) ==> v >= 0,
        ensures
            itr.text() == s,
            (as_int(tmp), itr.at()) == digits_from(s, p0, None),
        decreases s.len() - itr.at(),
    {
        match itr.peek() {
            Some(c) => {
                if '0' <= c && c <= '9' {
                    let ghost p = itr.at();
                    itr.next();
                    let d = (c as u32 - '0' as u32) as i64;
                    let a: i64 = match tmp {
                        Some(v) => v,
                        None => 0,
                    };
                    proof {
                        lemma_digits_from(s, p + 1, Some(a * 10 + d));
                    }
                    tmp = Some(a * 10 + d);
                } else {
                    break;
                }
            },
            None => {
                break;
            },
        }
    }
    proof {
        assert(as_i64(as_int(tmp)) == tmp);
    }
    tmp
}

/// A parsed number as a mathematical integer.
pub open spec fn as_int(n: Option<i64>) -> Option<int> {
    match n {
        Some(v) => Some(v as int),
        None => None,
    }
}

/// Reading `;`-separated numbers and then a final character from `p` on,
/// appending to `args`: the numbers, the final character and the position after
/// it; `None` when the input ends first.
pub open spec fn args_from(s: Seq<char>, p: int, args: Seq<Option<i64>>) -> Option<(Seq<Option<i64>>, char, int)>
    decreases s.len() - p,
{
    if p < 0 {
        None
    } else {
        let (n, q) = digits_from(s, p, None);
        let args2 = args.push(as_i64(n));
        match char_at(s, q) {
            None => None,
            Some(c) => if c == ';' {
                proof {
                    lemma_digits_from(s, p, None);
                }
                args_from(s, q + 1, args2)
            } else {
                Some((args2, c, q + 1))
            },
        }
    }
}

pub proof fn lemma_args_from(s: Seq<char>, p: int, args: Seq<Option<i64>>)
    requires
        forall|k: int| 0 <= k < args.len() ==> (#[trigger] args[k] matches Some(v) ==> v >= 0),
        args_ok(s, p),
    ensures
        args_from(s, p, args) matches Some((a, f, q)) ==> forall|k: int|
            0 <= k < a.len() ==> (#[trigger] a[k] matches Some(v) ==> v >= 0),
    decreases s.len() - p,
{
    if p >= 0 {
        lemma_digits_from(s, p, None);
        let (n, q) = digits_from(s, p, None);
        let args2 = args.push(as_i64(n));
        assert forall|k: int| 0 <= k < args2.len() implies (#[trigger] args2[k] matches Some(v) ==> v >= 0) by {
            if k == args.len() {
                if let Some(v) = n {
                    assert(v <= i64::MAX);
                }
            }
        }
        if char_at(s, q) == Some(';') {
            lemma_args_from(s, q + 1, args2);
        }
    }
}

/// Every number read by `args_from` fits in `i64`.
pub open spec fn args_ok(s: Seq<char>, p: int) -> bool
    decreases s.len() - p,
{
    if p < 0 {
        true
    } else {
        let (n, q) = digits_from(s, p, None);
        &&& digits_ok(s, p)
        &&& (char_at(s, q) == Some(';') ==> {
            proof {
                lemma_digits_from(s, p, None);
            }
            args_ok(s, q + 1)
        })
    }
}

/// Reads `;`-separated numbers and a final character; `None` (with the input
/// consumed) when the input ends first.
pub(crate) fn parse_args(itr: &mut CharStream) -> (r: Option<(Vec<Option<i64>>, char)>)
    requires
        args_ok(old(itr).text(), old(itr).at()),
    ensures
        final(itr).text() == old(itr).text(),
        match args_from(old(itr).text(), old(itr).at(), seq![]) {
            Some((args, fin, q)) => r matches Some((a, f)) && a@ == args && f == fin && final(itr).at() == q,
            None => r is None && final(itr).at() == old(itr).text().len(),
        },
{
    let ghost s = itr.text();
    let ghost p0 = itr.at();
    let mut args: Vec<Option<i64>> = Vec::new();
    let _ = itr.position();
    loop
        invariant
            itr.text() == s,
            s == old(itr).text(),
            p0 == old(itr).at(),
            0 <= itr.at() <= s.len(),
            args_from(s, itr.at(), args@) == args_from(s, p0, seq![]),
            args_ok(s, itr.at()),
        decreases s.len() - itr.at(),
    {
        let ghost p = itr.at();
        proof {
            lemma_digits_from(s, p, None);
        }
        let n = parse_numeric(itr);
        args.push(n);
        match itr.peek() {
            Some(c) => {
                itr.next();
                if c != ';' {
                    return Some((args, c));
                }
            },
            None => {
                return None;
            },
        }
    }
}

/// One of the eight basic colors by its index.
pub open spec fn basic_color(i: int) -> Color {
    if i == 0 {
        Color::Black
    } else if i == 1 {
        Color::Red
    } else if i == 2 {
        Color::Green
    } else if i == 3 {
        Color::Yellow
    } else if i == 4 {
        Color::Blue
    } else if i == 5 {
        Color::Magenta
    } else if i == 6 {
        Color::Cyan
    } else {
        Color::White
    }
}

/// One of the eight bright colors by its index.
pub open spec fn bright_color(i: int) -> Color {
    if i == 0 {
        Color::Gray
    } else if i == 1 {
        Color::LightRed
    } else if i == 2 {
        Color::LightGreen
    } else if i == 3 {
        Color::LightYellow
    } else if i == 4 {
        Color::LightBlue
    } else if i == 5 {
        Color::LightMagenta
    } else if i == 6 {
        Color::LightCyan
    } else {
        Color::LightWhite
    }
}

/// Entry `idx` of the 256-color table (entries 2 and 3, and 10 and 11, are
/// yellow and green in this table); `None` outside 0..=255.
pub open spec fn indexed_color(idx: i64) -> Option<Color> {
    if 0 <= idx <= 15 {
        Some(
            if idx == 0 {
                Color::Black
            } else if idx == 1 {
                Color::Red
            } else if idx == 2 {
                Color::Yellow
            } else if idx == 3 {
                Color::Green
            } else if idx == 4 {
                Color::Blue
            } else if idx == 5 {
                Color::Magenta
            } else if idx == 6 {
                Color::Cyan
            } else if idx == 7 {
                Color::White
            } else if idx == 8 {
                Color::Gray
            } else if idx == 9 {
                Color::LightRed
            } else if idx == 10 {
                Color::LightYellow
            } else if idx == 11 {
                Color::LightGreen
            } else if idx == 12 {
                Color::LightBlue
            } else if idx == 13 {
                Color::LightMagenta
            } else if idx == 14 {
                Color::LightCyan
            } else {
                Color::LightWhite
            },
        )
    } else if 16 <= idx <= 231 {
        let x = idx - 16;
        Some(Color::RGB(((x / 36) * 51) as u8, (((x % 36) / 6) * 51) as u8, ((x % 6) * 51) as u8))
    } else if 232 <= idx <= 255 {
        let v = ((idx - 232) * 11) as u8;
        Some(Color::RGB(v, v, v))
    } else {
        None
    }
}

/// Item `i` of an argument list, as an iterator hands it out.
pub open spec fn arg_at(args: Seq<Option<i64>>, i: int) -> Option<Option<i64>> {
    if 0 <= i < args.len() {
        Some(args[i])
    } else {
        None
    }
}

/// The position after taking one item at `i`.
pub open spec fn after(args: Seq<Option<i64>>, i: int) -> int {
    if 0 <= i < args.len() {
        i + 1
    } else {
        i
    }
}

/// A color component of a 24-bit color: the next argument, 255 if it is empty.
pub open spec fn component(a: Option<i64>) -> u8 {
    match a {
        Some(v) => v as u8,
        None => 255u8,
    }
}

/// The color selected by SGR parameter `ty`, reading any further arguments from
/// position `i` of `args`: the color (`None` when invalid) and the position after.
pub open spec fn color_from(ty: i64, args: Seq<Option<i64>>, i: int) -> (Option<Color>, int) {
    if (30 <= ty <= 37) || (40 <= ty <= 47) {
        (Some(basic_color((ty % 10) as int)), i)
    } else if (90 <= ty <= 97) || (100 <= ty <= 107) {
        (Some(bright_color((ty % 10) as int)), i)
    } else if ty == 38 || ty == 48 {
        let i1 = after(args, i);
        match arg_at(args, i) {
            Some(Some(5)) => match arg_at(args, i1) {
                Some(Some(idx)) => (indexed_color(idx), after(args, i1)),
                _ => (None, after(args, i1)),
            },
            Some(Some(2)) => {
                let i2 = after(args, i1);
                let i3 = after(args, i2);
                match (arg_at(args, i1), arg_at(args, i2), arg_at(args, i3)) {
                    (Some(r), Some(g), Some(b)) => (
                        Some(Color::RGB(component(r), component(g), component(b))),
                        after(args, i3),
                    ),
                    _ => (None, after(args, i3)),
                }
            },
            _ => (None, i1),
        }
    } else {
        (None, i)
    }
}

/// Takes the next argument.
fn next_arg(args: &Vec<Option<i64>>, i: &mut usize) -> (a: Option<Option<i64>>)
    requires
        *old(i) <= args@.len(),
    ensures
        a == arg_at(args@, *old(i) as int),
        *final(i) == after(args@, *old(i) as int),
        *final(i) <= args@.len(),
{
    if *i < args.len() {
        let a = args[*i];
        *i = *i + 1;
        Some(a)
    } else {
        None
    }
}

fn basic(i: i64) -> (c: Color)
    ensures
        c == basic_color(i as int),
{
    if i == 0 {
        Color::Black
    } else if i == 1 {
        Color::Red
    } else if i == 2 {
        Color::Green
    } else if i == 3 {
        Color::Yellow
    } else if i == 4 {
        Color::Blue
    } else if i == 5 {
        Color::Magenta
    } else if i == 6 {
        Color::Cyan
    } else {
        Color::White
    }
}

fn bright(i: i64) -> (c: Color)
    ensures
        c == bright_color(i as int),
{
    if i == 0 {
        Color::Gray
    } else if i == 1 {
        Color::LightRed
    } else if i == 2 {
        Color::LightGreen
    } else if i == 3 {
        Color::LightYellow
    } else if i == 4 {
        Color::LightBlue
    } else if i == 5 {
        Color::LightMagenta
    } else if i == 6 {
        Color::LightCyan
    } else {
        Color::LightWhite
    }
}

fn indexed(idx: i64) -> (c: Option<Color>)
    ensures
        c == indexed_color(idx),
{
    if idx == 0 {
        Some(Color::Black)
    } else if idx == 1 {
        Some(Color::Red)
    } else if idx == 2 {
        Some(Color::Yellow)
    } else if idx == 3 {
        Some(Color::Green)
    } else if idx == 4 {
        Some(Color::Blue)
    } else if idx == 5 {
        Some(Color::Magenta)
    } else if idx == 6 {
        Some(Color::Cyan)
    } else if idx == 7 {
        Some(Color::White)
    } else if idx == 8 {
        Some(Color::Gray)
    } else if idx == 9 {
        Some(Color::LightRed)
    } else if idx == 10 {
        Some(Color::LightYellow)
    } else if idx == 11 {
        Some(Color::LightGreen)
    } else if idx == 12 {
        Some(Color::LightBlue)
    } else if idx == 13 {
        Some(Color::LightMagenta)
    } else if idx == 14 {
        Some(Color::LightCyan)
    } else if idx == 15 {
        Some(Color::LightWhite)
    } else if 16 <= idx && idx <= 231 {
        let x = idx - 16;
        let red = (x / 36) as u8;
        let green = ((x % 36) / 6) as u8;
        let blue = (x % 6) as u8;
        Some(Color::RGB(red * 51, green * 51, blue * 51))
    } else if 232 <= idx && idx <= 255 {
        let x = idx - 232;
        let v = (x * 11) as u8;
        Some(Color::RGB(v, v, v))
    } else {
        None
    }
}

/// Reads the color that SGR parameter `ty` selects, taking further arguments
/// (`5;idx` or `2;r;g;b`) from `args` at position `i`.
fn parse_color(ty: i64, args: &Vec<Option<i64>>, i: &mut usize) -> (c: Option<Color>)
    requires
        *old(i) <= args@.len(),
    ensures
        (c, *final(i) as int) == color_from(ty, args@, *old(i) as int),
        *final(i) <= args@.len(),
{
    if (30 <= ty && ty <= 37) || (40 <= ty && ty <= 47) {
        Some(basic(ty % 10))
    } else if (90 <= ty && ty <= 97) || (100 <= ty && ty <= 107) {
        Some(bright(ty % 10))
    } else if ty == 38 || ty == 48 {
        match next_arg(args, i) {
            Some(Some(5)) => match next_arg(args, i) {
                Some(Some(idx)) => indexed(idx),
                _ => None,
            },
            Some(Some(2)) => {
                let red = match next_arg(args, i) {
                    Some(a) => a,
                    None => {
                        return None;
                    },
                };
                let green = match next_arg(args, i) {
                    Some(a) => a,
                    None => {
                        return None;
                    },
                };
                let blue = match next_arg(args, i) {
                    Some(a) => a,
                    None => {
                        return None;
                    },
                };
                let r = match red {
                    Some(v) => v as u8,
                    None => 255u8,
                };
                let g = match green {
                    Some(v) => v as u8,
                    None => 255u8,
                };
                let b = match blue {
                    Some(v) => v as u8,
                    None => 255u8,
                };
                Some(Color::RGB(r, g, b))
            },
            _ => None,
        }
    } else {
        None
    }
}

/// A style, a foreground and a background, each unchanged when `None`.
pub type Rendition = (Option<Style>, Option<Color>, Option<Color>);

pub proof fn lemma_color_from(ty: i64, args: Seq<Option<i64>>, i: int)
    requires
        0 <= i <= args.len(),
    ensures
        i <= color_from(ty, args, i).1 <= args.len(),
{
}

/// Applying the SGR parameters from position `i` of `args` on to `r`; `None`
/// when a color is invalid.  An empty parameter counts as 0.
pub open spec fn sgr_from(args: Seq<Option<i64>>, i: int, r: Rendition) -> Option<Rendition>
    decreases args.len() - i,
{
    if i < 0 || i >= args.len() {
        Some(r)
    } else {
        let a = match args[i] {
            Some(v) => v,
            None => 0,
        };
        let (style, fg, bg) = r;
        if a == 0 {
            sgr_from(args, i + 1, (Some(Style::Normal), Some(Color::LightWhite), Some(Color::Black)))
        } else if a == 1 {
            sgr_from(args, i + 1, (Some(Style::Bold), fg, bg))
        } else if a == 4 {
            sgr_from(args, i + 1, (Some(Style::UnderLine), fg, bg))
        } else if a == 5 {
            sgr_from(args, i + 1, (Some(Style::Blink), fg, bg))
        } else if a == 7 {
            sgr_from(args, i + 1, (Some(Style::Reverse), fg, bg))
        } else if (30 <= a <= 38) || (90 <= a <= 97) {
            proof {
                lemma_color_from(a, args, i + 1);
            }
            match color_from(a, args, i + 1) {
                (Some(c), j) => sgr_from(args, j, (style, Some(c), bg)),
                (None, _) => None,
            }
        } else if (40 <= a <= 48) || (100 <= a <= 107) {
            proof {
                lemma_color_from(a, args, i + 1);
            }
            match color_from(a, args, i + 1) {
                (Some(c), j) => sgr_from(args, j, (style, fg, Some(c))),
                (None, _) => None,
            }
        } else {
            sgr_from(args, i + 1, r)
        }
    }
}

/// Applies SGR parameters: resets, styles and colors.
fn parse_sgr(args: &Vec<Option<i64>>) -> (r: Option<Rendition>)
    ensures
        r == sgr_from(args@, 0, (None, None, None)),
{
    let mut style: Option<Style> = None;
    let mut fg: Option<Color> = None;
    let mut bg: Option<Color> = None;
    let mut i: usize = 0;
    while i < args.len()
        invariant
            i <= args@.len(),
            sgr_from(args@, i as int, (style, fg, bg)) == sgr_from(args@, 0, (None, None, None)),
        decreases args@.len() - i,
    {
        let arg = args[i];
        i = i + 1;
        let a = match arg {
            Some(v) => v,
            None => 0,
        };
        if a == 0 {
            let def = CellAttribute::default();
            style = Some(def.style);
            fg = Some(def.fg);
            bg = Some(def.bg);
        } else if a == 1 {
            style = Some(Style::Bold);
        } else if a == 4 {
            style = Some(Style::UnderLine);
        } else if a == 5 {
            style = Some(Style::Blink);
        } else if a == 7 {
            style = Some(Style::Reverse);
        } else if (30 <= a && a <= 38) || (90 <= a && a <= 97) {
            match parse_color(a, args, &mut i) {
                Some(c) => fg = Some(c),
                None => {
                    return None;
                },
            }
        } else if (40 <= a && a <= 48) || (100 <= a && a <= 107) {
            match parse_color(a, args, &mut i) {
                Some(c) => bg = Some(c),
                None => {
                    return None;
                },
            }
        }
    }
    Some((style, fg, bg))
}

/// An argument, with `d` standing for an empty one.
pub open spec fn or_default(a: Option<i64>, d: i64) -> i64 {
    match a {
        Some(v) => v,
        None => d,
    }
}

/// The operation of a control sequence with arguments `args` and final
/// character `fin`, other than the private `?` sequences.
pub open spec fn csi_op(args: Seq<Option<i64>>, fin: char) -> Option<ControlOp> {
    if fin == 'f' || fin == 'H' {
        if args.len() == 1 && args[0] is None {
            Some(ControlOp::CursorHome(Point { x: 0, y: 0 }))
        } else if args.len() == 2 {
            Some(
                ControlOp::CursorHome(
                    Point {
                        x: (or_default(args[1], 1) - 1) as i64 as i32,
                        y: (or_default(args[0], 1) - 1) as i64 as i32,
                    },
                ),
            )
        } else {
            None
        }
    } else if args.len() == 1 && fin == 'A' {
        Some(ControlOp::CursorUp(or_default(args[0], 1) as usize))
    } else if args.len() == 1 && fin == 'B' {
        Some(ControlOp::CursorDown(or_default(args[0], 1) as usize))
    } else if args.len() == 1 && fin == 'C' {
        Some(ControlOp::CursorForward(or_default(args[0], 1) as usize))
    } else if args.len() == 1 && fin == 'D' {
        Some(ControlOp::CursorBackward(or_default(args[0], 1) as usize))
    } else if args == seq![None::<i64>] && fin == 's' {
        Some(ControlOp::SaveCursor)
    } else if args == seq![None::<i64>] && fin == 'u' {
        Some(ControlOp::RestoreCursor)
    } else if (args == seq![None::<i64>] || args == seq![Some(0i64)]) && fin == 'K' {
        Some(ControlOp::EraseEndOfLine)
    } else if args == seq![Some(1i64)] && fin == 'K' {
        Some(ControlOp::EraseStartOfLine)
    } else if args == seq![Some(2i64)] && fin == 'K' {
        Some(ControlOp::EraseLine)
    } else if (args == seq![None::<i64>] || args == seq![Some(0i64)]) && fin == 'J' {
        Some(ControlOp::EraseDown)
    } else if args == seq![Some(1i64)] && fin == 'J' {
        Some(ControlOp::EraseUp)
    } else if args == seq![Some(2i64)] && fin == 'J' {
        Some(ControlOp::EraseScreen)
    } else if args.len() == 2 && args[0] is Some && args[1] is Some && fin == 'r' {
        let top = args[0]->0 as i32;
        let bot = args[1]->0 as i32;
        if top == i32::MIN || bot == i32::MIN {
            None
        } else {
            Some(ControlOp::SetTopBottom((top - 1) as i32..bot))
        }
    } else if fin == 'm' {
        match sgr_from(args, 0, (None, None, None)) {
            Some((style, fg, bg)) => Some(ControlOp::ChangeCellAttribute(style, fg, bg)),
            None => None,
        }
    } else {
        None
    }
}

/// The style that an SGR parameter selects (ECMA-48): 1 bold, 4 underlined,
/// 5 blinking, 7 reverse video; `None` for a parameter that selects no style.
pub open spec fn style_of_param(p: i64) -> Option<Style> {
    if p == 1 {
        Some(Style::Bold)
    } else if p == 4 {
        Some(Style::UnderLine)
    } else if p == 5 {
        Some(Style::Blink)
    } else if p == 7 {
        Some(Style::Reverse)
    } else {
        None
    }
}

/// A style parameter sets the style that it selects and leaves the colors,
/// whatever was set before; the parameters after it go on from there.
pub proof fn lemma_sgr_style_param(args: Seq<Option<i64>>, i: int, r: Rendition)
    requires
        0 <= i < args.len(),
        args[i] matches Some(p) && style_of_param(p) is Some,
    ensures
        sgr_from(args, i, r) == sgr_from(args, i + 1, (style_of_param(args[i]->0), r.1, r.2)),
{
}

/// `ESC [ p m` with one style parameter `p` changes the style to the one
/// `p` selects and no color.
pub proof fn lemma_sgr_single_style(p: i64)
    requires
        style_of_param(p) is Some,
    ensures
        csi_op(seq![Some(p)], 'm') == Some(ControlOp::ChangeCellAttribute(style_of_param(p), None, None)),
{
    reveal_with_fuel(sgr_from, 2);
}

/// The cursor and erase sequences of ECMA-48: `A` up, `B` down, `C`
/// forward, `D` backward by the parameter (1 when empty); `J` erases below
/// (0 or empty), above (1) or the whole screen (2); `K` the same in the line.
pub proof fn lemma_cursor_and_erase_sequences(n: i64)
    ensures
        csi_op(seq![Some(n)], 'A') == Some(ControlOp::CursorUp(n as usize)),
        csi_op(seq![Some(n)], 'B') == Some(ControlOp::CursorDown(n as usize)),
        csi_op(seq![Some(n)], 'C') == Some(ControlOp::CursorForward(n as usize)),
        csi_op(seq![Some(n)], 'D') == Some(ControlOp::CursorBackward(n as usize)),
        csi_op(seq![None::<i64>], 'A') == Some(ControlOp::CursorUp(1)),
        csi_op(seq![Some(0i64)], 'J') == Some(ControlOp::EraseDown),
        csi_op(seq![Some(1i64)], 'J') == Some(ControlOp::EraseUp),
        csi_op(seq![Some(2i64)], 'J') == Some(ControlOp::EraseScreen),
        csi_op(seq![Some(0i64)], 'K') == Some(ControlOp::EraseEndOfLine),
        csi_op(seq![Some(1i64)], 'K') == Some(ControlOp::EraseStartOfLine),
        csi_op(seq![Some(2i64)], 'K') == Some(ControlOp::EraseLine),
{
    assert(seq![Some(0i64)] != seq![None::<i64>]) by {
        assert(seq![Some(0i64)][0] != seq![None::<i64>][0]);
    }
    assert(seq![Some(1i64)] != seq![None::<i64>]) by {
        assert(seq![Some(1i64)][0] != seq![None::<i64>][0]);
    }
    assert(seq![Some(2i64)] != seq![None::<i64>]) by {
        assert(seq![Some(2i64)][0] != seq![None::<i64>][0]);
    }
    assert(seq![Some(1i64)] != seq![Some(0i64)]) by {
        assert(seq![Some(1i64)][0] != seq![Some(0i64)][0]);
    }
    assert(seq![Some(2i64)] != seq![Some(0i64)]) by {
        assert(seq![Some(2i64)][0] != seq![Some(0i64)][0]);
    }
    assert(seq![Some(2i64)] != seq![Some(1i64)]) by {
        assert(seq![Some(2i64)][0] != seq![Some(1i64)][0]);
    }
}

/// The operation of a private (`?`) control sequence.
pub open spec fn private_op(args: Seq<Option<i64>>, fin: char) -> Option<ControlOp> {
    if args == seq![Some(1i64)] && fin == 'h' {
        Some(ControlOp::SetCursorMode(true))
    } else if args == seq![Some(1i64)] && fin == 'l' {
        Some(ControlOp::SetCursorMode(false))
    } else if args == seq![Some(2004i64)] && (fin == 'h' || fin == 'l') {
        Some(ControlOp::Ignore)
    } else {
        None
    }
}

/// The control sequence (after `ESC [`) at `p`: the operation and the position
/// after it; the input is used up when it ends inside the sequence.
pub open spec fn csi_at(s: Seq<char>, p: int) -> (Option<ControlOp>, int) {
    match args_from(s, p, seq![]) {
        None => (None, s.len() as int),
        Some((args, fin, q)) => if args == seq![None::<i64>] && fin == '?' {
            match args_from(s, q, seq![]) {
                None => (None, s.len() as int),
                Some((a2, f2, q2)) => (private_op(a2, f2), q2),
            }
        } else {
            (csi_op(args, fin), q)
        },
    }
}

/// Every number of the control sequence at `p` fits in `i64`.
pub open spec fn csi_ok(s: Seq<char>, p: int) -> bool {
    &&& args_ok(s, p)
    &&& match args_from(s, p, seq![]) {
        Some((args, fin, q)) => (args == seq![None::<i64>] && fin == '?') ==> args_ok(s, q),
        None => true,
    }
}

fn is_single(args: &Vec<Option<i64>>, v: Option<i64>) -> (b: bool)
    ensures
        b == (args@ == seq![v]),
        b == (args@.len() == 1 && args@[0] == v),
{
    if args.len() == 1 {
        let a = args[0];
        let r = match (a, v) {
            (Some(x), Some(y)) => x == y,
            (None, None) => true,
            _ => false,
        };
        assert(r ==> args@ =~= seq![v]);
        assert(args@ == seq![v] ==> args@[0] == v);
        r
    } else {
        false
    }
}

/// Decodes a control sequence (the part after `ESC [`).
fn csi(itr: &mut CharStream) -> (op: Option<ControlOp>)
    requires
        csi_ok(old(itr).text(), old(itr).at()),
    ensures
        final(itr).text() == old(itr).text(),
        (op, final(itr).at()) == csi_at(old(itr).text(), old(itr).at()),
{
    proof {
        lemma_args_from(old(itr).text(), old(itr).at(), seq![]);
    }
    let (args, fin_char) = match parse_args(itr) {
        Some(r) => r,
        None => {
            return None;
        },
    };
    if fin_char == 'f' || fin_char == 'H' {
        if is_single(&args, None) {
            Some(ControlOp::CursorHome(Point { x: 0, y: 0 }))
        } else if args.len() == 2 {
            let x = match args[1] {
                Some(v) => v,
                None => 1,
            };
            let y = match args[0] {
                Some(v) => v,
                None => 1,
            };
            assert(args@[1] matches Some(v) ==> v >= 0);
            assert(args@[0] matches Some(v) ==> v >= 0);
            let x = match x.checked_sub(1) {
                Some(v) => v,
                None => {
                    return None;
                },
            };
            let y = match y.checked_sub(1) {
                Some(v) => v,
                None => {
                    return None;
                },
            };
            Some(ControlOp::CursorHome(Point { x: x as i32, y: y as i32 }))
        } else {
            None
        }
    } else if args.len() == 1 && fin_char == 'A' {
        Some(ControlOp::CursorUp(unwrap_or(args[0], 1) as usize))
    } else if args.len() == 1 && fin_char == 'B' {
        Some(ControlOp::CursorDown(unwrap_or(args[0], 1) as usize))
    } else if args.len() == 1 && fin_char == 'C' {
        Some(ControlOp::CursorForward(unwrap_or(args[0], 1) as usize))
    } else if args.len() == 1 && fin_char == 'D' {
        Some(ControlOp::CursorBackward(unwrap_or(args[0], 1) as usize))
    } else if is_single(&args, None) && fin_char == 's' {
        Some(ControlOp::SaveCursor)
    } else if is_single(&args, None) && fin_char == 'u' {
        Some(ControlOp::RestoreCursor)
    } else if (is_single(&args, None) || is_single(&args, Some(0))) && fin_char == 'K' {
        Some(ControlOp::EraseEndOfLine)
    } else if is_single(&args, Some(1)) && fin_char == 'K' {
        Some(ControlOp::EraseStartOfLine)
    } else if is_single(&args, Some(2)) && fin_char == 'K' {
        Some(ControlOp::EraseLine)
    } else if (is_single(&args, None) || is_single(&args, Some(0))) && fin_char == 'J' {
        Some(ControlOp::EraseDown)
    } else if is_single(&args, Some(1)) && fin_char == 'J' {
        Some(ControlOp::EraseUp)
    } else if is_single(&args, Some(2)) && fin_char == 'J' {
        Some(ControlOp::EraseScreen)
    } else if args.len() == 2 && args[0].is_some() && args[1].is_some() && fin_char == 'r' {
        let top = match args[0] {
            Some(v) => v as i32,
            None => 0,
        };
        let bot = match args[1] {
            Some(v) => v as i32,
            None => 0,
        };
        let top = match top.checked_sub(1) {
            Some(v) => v,
            None => {
                return None;
            },
        };
        let bot = match bot.checked_sub(1) {
            Some(v) => v,
            None => {
                return None;
            },
        };
        Some(ControlOp::SetTopBottom(top..(bot + 1)))
    } else if fin_char == 'm' {
        match parse_sgr(&args) {
            Some((style, fg, bg)) => Some(ControlOp::ChangeCellAttribute(style, fg, bg)),
            None => None,
        }
    } else if is_single(&args, None) && fin_char == '?' {
        let (arg, fin_char) = match parse_args(itr) {
            Some(r) => r,
            None => {
                return None;
            },
        };
        if is_single(&arg, Some(1)) && fin_char == 'h' {
            Some(ControlOp::SetCursorMode(true))
        } else if is_single(&arg, Some(1)) && fin_char == 'l' {
            Some(ControlOp::SetCursorMode(false))
        } else if is_single(&arg, Some(2004)) && fin_char == 'h' {
            Some(ControlOp::Ignore)
        } else if is_single(&arg, Some(2004)) && fin_char == 'l' {
            Some(ControlOp::Ignore)
        } else {
            None
        }
    } else {
        None
    }
}

fn unwrap_or(a: Option<i64>, d: i64) -> (v: i64)
    ensures
        v == or_default(a, d),
{
    match a {
        Some(v) => v,
        None => d,
    }
}

/// The position after the first `q` at or after `p`, or the end of `s`.
pub open spec fn skip_past_q(s: Seq<char>, p: int) -> int
    decreases s.len() - p,
{
    if p < 0 || p >= s.len() {
        s.len() as int
    } else if s[p] == 'q' {
        p + 1
    } else {
        skip_past_q(s, p + 1)
    }
}

/// The channel order of the sixel images this decoder makes: blue, green, red, alpha.
pub open spec fn bgra() -> Seq<usize> {
    seq![3usize, 2usize, 1usize, 0usize]
}

/// The escape sequence (after `ESC`) at `p`, other than a device control
/// string: the operation and the position after it.  Where no operation is
/// recognised the position stays at `p`.
pub open spec fn escape_at(s: Seq<char>, p: int) -> (Option<ControlOp>, int) {
    let (op, q) = match char_at(s, p) {
        None => (None, p),
        Some(c) => if c == '[' {
            csi_at(s, p + 1)
        } else if c == 'D' {
            (Some(ControlOp::ScrollUp), p + 1)
        } else if c == 'M' {
            (Some(ControlOp::ScrollDown), p + 1)
        } else if c == '=' || c == '>' {
            (Some(ControlOp::Ignore), p + 1)
        } else if c == 'c' {
            (Some(ControlOp::Reset), p + 1)
        } else {
            (None, p + 1)
        },
    };
    if op is None {
        (None, p)
    } else {
        (op, q)
    }
}

/// Decodes an escape sequence (the part after `ESC`); on failure the stream is
/// left where it was.  A device control string (`P ... q`) is decoded as a
/// sixel image with the color registers in `palette`.
pub fn parse_escape_sequence(itr: &mut CharStream, palette: &mut Vec<sixel_codec::Color>) -> (op: Option<ControlOp>)
    requires
        old(palette)@.len() == 256,
        char_at(old(itr).text(), old(itr).at()) == Some('[') ==> csi_ok(old(itr).text(), old(itr).at() + 1),
        char_at(old(itr).text(), old(itr).at()) == Some('P') ==> decode_ok(
            old(itr).text(),
            skip_past_q(old(itr).text(), old(itr).at() + 1),
            0,
            None,
            old(palette)@,
            bgra(),
        ),
    ensures
        final(itr).text() == old(itr).text(),
        char_at(old(itr).text(), old(itr).at()) != Some('P') ==> {
            &&& (op, final(itr).at()) == escape_at(old(itr).text(), old(itr).at())
            &&& final(palette)@ == old(palette)@
        },
        char_at(old(itr).text(), old(itr).at()) == Some('P') ==> {
            let (fin, q) = run(
                old(itr).text(),
                skip_past_q(old(itr).text(), old(itr).at() + 1),
                initial_state(0, None, old(palette)@),
                bgra(),
            );
            &&& op matches Some(ControlOp::Sixel(img)) && img.height == fin.height && img.width
                == fin.width && img.buf@ == fin.buf
            &&& final(palette)@ == fin.palette
            &&& final(itr).at() == q
        },
{
    let backup = itr.position();
    let ghost s = itr.text();
    let c = match itr.next() {
        Some(c) => c,
        None => {
            return None;
        },
    };
    let op = if c == '[' {
        csi(itr)
    } else if c == 'D' {
        Some(ControlOp::ScrollUp)
    } else if c == 'M' {
        Some(ControlOp::ScrollDown)
    } else if c == 'P' {
        loop
            invariant_except_break
                skip_past_q(s, itr.at()) == skip_past_q(s, backup + 1),
            invariant
                itr.text() == s,
                0 <= itr.at() <= s.len(),
            ensures
                itr.text() == s,
                itr.at() == skip_past_q(s, backup + 1),
            decreases s.len() - itr.at(),
        {
            match itr.next() {
                Some(c) => {
                    if c == 'q' {
                        break;
                    }
                },
                None => {
                    break;
                },
            }
        }
        let ord: [usize; 4] = [3, 2, 1, 0];
        assert(ord@ =~= bgra());
        let img = sixel_codec::decode(itr, palette, ord, 0, None);
        Some(ControlOp::Sixel(img))
    } else if c == '=' {
        Some(ControlOp::Ignore)
    } else if c == '>' {
        Some(ControlOp::Ignore)
    } else if c == 'c' {
        Some(ControlOp::Reset)
    } else {
        None
    };
    if op.is_none() {
        itr.seek(backup);
    }
    op
}

} // verus!
