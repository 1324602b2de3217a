//! Tokenizer of sixel strings: one call reads one sixel control function.

use vstd::prelude::*;

use super::{Color, Op};
use crate::stream::{char_at, CharStream};

verus! {

/// `c` is one of the decimal digits `0`..`9`.
pub open spec fn is_digit(c: char) -> bool {
    '0' <= c && c <= '9'
}

/// `v` clamped to the range of `u64`.
pub open spec fn clamp_u64(v: int) -> u64 {
    if v > u64::MAX {
        u64::MAX
    } else if v < 0 {
        0
    } else {
        v as u64
    }
}

/// The accumulated number after reading one more digit, saturating at `u64::MAX`.
pub open spec fn numeric_step(acc: u64, c: char) -> u64 {
    clamp_u64(clamp_u64(acc * 10) + (c as int - '0' as int))
}

/// Reading the longest run of digits from position `p` on, starting from `acc`:
/// the number (saturating) and the position after the run.
pub open spec fn numeric_from(s: Seq<char>, p: int, acc: u64) -> (u64, int)
    decreases s.len() - p,
{
    if 0 <= p < s.len() && is_digit(s[p]) {
        numeric_from(s, p + 1, numeric_step(acc, s[p]))
    } else {
        (acc, p)
    }
}

/// A digit run never moves the position backwards.
pub proof fn lemma_numeric_from_advances(s: Seq<char>, p: int, acc: u64)
    ensures
        numeric_from(s, p, acc).1 >= p,
        0 <= p <= s.len() ==> numeric_from(s, p, acc).1 <= s.len(),
    decreases s.len() - p,
{
    if 0 <= p < s.len() && is_digit(s[p]) {
        lemma_numeric_from_advances(s, p + 1, numeric_step(acc, s[p]));
    }
}

/// Reading a `;`-separated list of numbers from position `p` on, appending to `ps`:
/// the list and the position after it.
pub open spec fn parameters_from(s: Seq<char>, p: int, ps: Seq<u64>) -> (Seq<u64>, int)
    decreases s.len() - p,
{
    if 0 <= p < s.len() {
        let (n, q) = numeric_from(s, p, 0);
        proof {
            lemma_numeric_from_advances(s, p, 0);
        }
        if q < s.len() && s[q] == ';' {
            parameters_from(s, q + 1, ps.push(n))
        } else {
            (ps.push(n), q)
        }
    } else {
        (ps, p)
    }
}

pub proof fn lemma_parameters_from_advances(s: Seq<char>, p: int, ps: Seq<u64>)
    requires
        0 <= p <= s.len(),
    ensures
        p <= parameters_from(s, p, ps).1 <= s.len(),
        parameters_from(s, p, ps).0.len() >= ps.len(),
        p < s.len() ==> parameters_from(s, p, ps).0.len() > ps.len(),
    decreases s.len() - p,
{
    if p < s.len() {
        lemma_numeric_from_advances(s, p, 0);
        let (n, q) = numeric_from(s, p, 0);
        if q < s.len() && s[q] == ';' {
            lemma_parameters_from_advances(s, q + 1, ps.push(n));
        }
    }
}

/// The six-bit pattern carried by a sixel data character.
pub open spec fn sixel_bits(c: char) -> u8 {
    (c as u32 - '?' as u32) as u8
}

/// `c` is a sixel data character (`?`..`~`).
pub open spec fn is_sixel_char(c: char) -> bool {
    '?' <= c && c <= '~'
}

/// A color component given in percent, scaled to 0..255 as the tokenizer does.
pub open spec fn percent_to_byte(v: u64) -> u8 {
    ((v * 255) / 100) as u8
}

/// The function read at position `p` of `s`, and the position after it.
pub open spec fn parse_at(s: Seq<char>, p: int) -> (Option<Op>, int) {
    match char_at(s, p) {
        None => (None, p),
        Some(c) => if c == '"' {
            let (ps, q) = parameters_from(s, p + 1, seq![]);
            (Some(Op::RasterAttributes(ps[0], ps[1], ps[2], ps[3])), q)
        } else if c == '$' {
            (Some(Op::CarriageReturn), p + 1)
        } else if c == '-' {
            (Some(Op::NextLine), p + 1)
        } else if c == '#' {
            let (ps, q) = parameters_from(s, p + 1, seq![]);
            if ps.len() == 1 {
                (Some(Op::UseColor(ps[0] as u8)), q)
            } else if ps.len() == 5 && ps[1] == 2 {
                (
                    Some(
                        Op::SetColor(
                            ps[0] as u8,
                            Color {
                                a: 255,
                                r: percent_to_byte(ps[2]),
                                g: percent_to_byte(ps[3]),
                                b: percent_to_byte(ps[4]),
                            },
                        ),
                    ),
                    q,
                )
            } else {
                (None, q)
            }
        } else if c == '\x1b' {
            if char_at(s, p + 1) == Some('\\') {
                (Some(Op::Finish), p + 2)
            } else {
                (None, p + 1)
            }
        } else if c == '!' {
            let (rep, q) = numeric_from(s, p + 1, 0);
            match char_at(s, q) {
                None => (None, q),
                Some(x) => (Some(Op::Sixel { bits: sixel_bits(x), rep }), q + 1),
            }
        } else if is_sixel_char(c) {
            (Some(Op::Sixel { bits: sixel_bits(c), rep: 1 }), p + 1)
        } else {
            (None, p)
        },
    }
}

/// The inputs on which reading a function at `p` panics: raster attributes with
/// fewer than four parameters, a color definition in the HLS system (not
/// implemented), an RGB component whose scaling overflows `u64`, and a repeat
/// introducer followed by a character that is not sixel data.
pub open spec fn parse_panics(s: Seq<char>, p: int) -> bool {
    match char_at(s, p) {
        None => false,
        Some(c) => {
            ||| (c == '"' && parameters_from(s, p + 1, seq![]).0.len() < 4)
            ||| (c == '#' && {
                let ps = parameters_from(s, p + 1, seq![]).0;
                &&& ps.len() == 5
                &&& (ps[1] == 1 || (ps[1] == 2 && (ps[2] * 255 > u64::MAX || ps[3] * 255
                    > u64::MAX || ps[4] * 255 > u64::MAX)))
            })
            ||| (c == '!' && {
                let q = numeric_from(s, p + 1, 0).1;
                0 <= q < s.len() && !is_sixel_char(s[q])
            })
        },
    }
}

/// Reads a decimal number (saturating at `u64::MAX`); stops before the first non-digit.
pub fn numeric(seq: &mut CharStream) -> (num: u64)
    ensures
        final(seq).text() == old(seq).text(),
        (num, final(seq).at()) == numeric_from(old(seq).text(), old(seq).at(), 0),
{
    let mut num: u64 = 0;
    let ghost s = seq.text();
    let ghost start = seq.at();
    loop
        invariant
            seq.text() == s,
            numeric_from(s, seq.at(), num) == numeric_from(s, start, 0),
        ensures
            seq.text() == s,
            (num, seq.at()) == numeric_from(s, start, 0),
        decreases s.len() - seq.at(),
    {
        match seq.peek() {
            Some(c) => {
                if '0' <= c && c <= '9' {
                    seq.next();
                    let m: u64 = if num > u64::MAX / 10 {
                        u64::MAX
                    } else {
                        num * 10
                    };
                    let d: u64 = (c as u32 - '0' as u32) as u64;
                    num = m.saturating_add(d);
                } else {
                    break;
                }
            },
            None => {
                break;
            },
        }
    }
    num
}

/// Reads a `;`-separated list of decimal numbers.
pub fn parameters(seq: &mut CharStream) -> (ps: Vec<u64>)
    ensures
        final(seq).text() == old(seq).text(),
        (ps@, final(seq).at()) == parameters_from(old(seq).text(), old(seq).at(), seq![]),
{
    let mut ps: Vec<u64> = Vec::new();
    let ghost s = seq.text();
    let ghost start = seq.at();
    loop
        invariant_except_break
            parameters_from(s, seq.at(), ps@) == parameters_from(s, start, seq![]),
        invariant
            seq.text() == s,
        ensures
            seq.text() == s,
            (ps@, seq.at()) == parameters_from(s, start, seq![]),
        decreases s.len() - seq.at(),
    {
        match seq.peek() {
            Some(_) => {
                let ghost p = seq.at();
                let tmp = numeric(seq);
                proof {
                    lemma_numeric_from_advances(s, p, 0);
                }
                ps.push(tmp);
                match seq.peek() {
                    Some(c) => {
                        if c != ';' {
                            break;
                        }
                    },
                    None => {
                        break;
                    },
                }
                seq.next();
            },
            None => {
                break;
            },
        }
    }
    ps
}

/// Reads one sixel control function; `None` where the input does not start with one.
pub fn parse(seq: &mut CharStream) -> (op: Option<Op>)
    requires
        !parse_panics(old(seq).text(), old(seq).at()),
    ensures
        final(seq).text() == old(seq).text(),
        (op, final(seq).at()) == parse_at(old(seq).text(), old(seq).at()),
{
    let ghost s = seq.text();
    let ghost p = seq.at();
    match seq.peek() {
        Some(x) => {
            if x == '"' {
                seq.next();
                let ps = parameters(seq);
                Some(Op::RasterAttributes(ps[0], ps[1], ps[2], ps[3]))
            } else if x == '$' {
                seq.next();
                Some(Op::CarriageReturn)
            } else if x == '-' {
                seq.next();
                Some(Op::NextLine)
            } else if x == '#' {
                seq.next();
                let ps = parameters(seq);
                if ps.len() == 1 {
                    Some(Op::UseColor(ps[0] as u8))
                } else if ps.len() == 5 {
                    let reg = ps[0] as u8;
                    let typ = ps[1];
                    if typ == 2 {
                        let r = (ps[2] * 255 / 100) as u8;
                        let g = (ps[3] * 255 / 100) as u8;
                        let b = (ps[4] * 255 / 100) as u8;
                        Some(Op::SetColor(reg, Color::new(r, g, b)))
                    } else {
                        None
                    }
                } else {
                    None
                }
            } else if x == '\x1b' {
                seq.next();
                if seq.peek() == Some('\\') {
                    seq.next();
                    Some(Op::Finish)
                } else {
                    None
                }
            } else if x == '!' {
                seq.next();
                let rep = numeric(seq);
                match seq.peek() {
                    None => None,
                    Some(c) => {
                        seq.next();
                        Some(Op::Sixel { bits: ((c as u32) - ('?' as u32)) as u8, rep })
                    },
                }
            } else if '?' <= x && x <= '~' {
                seq.next();
                Some(Op::Sixel { bits: ((x as u32) - ('?' as u32)) as u8, rep: 1 })
            } else {
                None
            }
        },
        None => None,
    }
}

} // verus!
