//! Sixel graphics decoder producing RGB bitmaps.
//!
//! Reference: the sixel chapter of the VT330/VT340 programmer reference manual.

use vstd::prelude::*;

use crate::sixel_codec::parser::{
    is_sixel_char, lemma_numeric_from_advances, lemma_parameters_from_advances, numeric_from,
    parameters_from, percent_to_byte, sixel_bits,
};
use crate::sixel_codec::{add_wrap, bit_set, resized};
use crate::stream::{char_at, CharStream};

verus! {

/// Bytes per pixel (red, green, blue).
pub const PIXEL_SIZE: usize = 3;

/// A decoded image: `height` rows of `width` RGB pixels.
#[derive(Debug)]
pub struct Image {
    pub width: u64,
    pub height: u64,
    pub data: Vec<u8>,
}

/// `h` rounded up to a multiple of six.
pub open spec fn round6(h: int) -> int {
    (h + 5) / 6 * 6
}

impl Image {
    /// An image `width` pixels wide whose height is `height` rounded up to a
    /// multiple of six; the buffer holds `width * height` black pixels.
    fn new(width: u64, height: u64) -> (img: Self)
        requires
            height + 5 <= u64::MAX,
            width * height <= u64::MAX,
            3 * (width * height) <= usize::MAX,
        ensures
            img.width == width,
            img.height == round6(height as int),
            img.data@ == Seq::new((3 * (width * height)) as nat, |i: int| 0u8),
    {
        let n = PIXEL_SIZE * (width * height) as usize;
        let data = vec![0_u8; n];
        assert(data@ =~= Seq::new((3 * (width * height)) as nat, |i: int| 0u8));
        Image { width, height: (height + 5) / 6 * 6, data }
    }

    /// Sets the size to `new_width` by `new_height` rounded up to a multiple of
    /// six, cutting or zero-extending the buffer to match.
    fn resize(&mut self, new_width: u64, new_height: u64)
        requires
            new_height + 5 <= u64::MAX,
            round6(new_height as int) * new_width <= u64::MAX,
            3 * (round6(new_height as int) * new_width) <= usize::MAX,
        ensures
            final(self).width == new_width,
            final(self).height == round6(new_height as int),
            final(self).data@ == resized(
                old(self).data@,
                3 * (round6(new_height as int) * new_width),
            ),
    {
        self.width = new_width;
        self.height = (new_height + 5) / 6 * 6;
        let size = PIXEL_SIZE * (self.height * self.width) as usize;
        let ghost before = self.data@;
        self.data.resize(size, 0_u8);
        assert(self.data@ =~= resized(before, size as int));
    }
}

/// An RGB color.
#[derive(Debug, Clone, Copy, PartialEq, Eq, Structural)]
pub struct Color {
    pub r: u8,
    pub g: u8,
    pub b: u8,
}

/// A sixel control function.
#[derive(Debug, Clone, Copy, PartialEq, Eq, Structural)]
pub enum Function {
    Sixel { bits: u8, repeat: usize },
    RasterAttributes(u64, u64, u64, u64),
    CarriageReturn,
    NewLine,
    SelectColor(u8),
    DefineColor(u8, Color),
}

/// Decoder of sixel strings; keeps the 256 color registers from one string to the next.
#[derive(Debug)]
pub struct Parser {
    colors: Vec<Color>,
}

/// The function read at position `p` of `s`, and the position after it.
pub open spec fn function_at(s: Seq<char>, p: int) -> (Option<Function>, int) {
    match char_at(s, p) {
        None => (None, p),
        Some(c) => if c == '"' {
            let (ps, q) = parameters_from(s, p + 1, seq![]);
            if ps.len() == 4 {
                (Some(Function::RasterAttributes(ps[0], ps[1], ps[2], ps[3])), q)
            } else {
                (None, q)
            }
        } else if c == '$' {
            (Some(Function::CarriageReturn), p + 1)
        } else if c == '-' {
            (Some(Function::NewLine), p + 1)
        } else if c == '#' {
            let (ps, q) = parameters_from(s, p + 1, seq![]);
            if ps.len() == 1 {
                (Some(Function::SelectColor(ps[0] as u8)), q)
            } else if ps.len() == 5 && ps[1] == 2 {
                (
                    Some(
                        Function::DefineColor(
                            ps[0] as u8,
                            Color {
                                r: percent_to_byte(ps[2]),
                                g: percent_to_byte(ps[3]),
                                b: percent_to_byte(ps[4]),
                            },
                        ),
                    ),
                    q,
                )
            } else {
                (None, q)
            }
        } else if c == '!' {
            let (rep, q) = numeric_from(s, p + 1, 0);
            match char_at(s, q) {
                Some(x) => if is_sixel_char(x) {
                    (Some(Function::Sixel { bits: sixel_bits(x), repeat: rep as usize }), q + 1)
                } else {
                    (None, q)
                },
                None => (None, q),
            }
        } else if is_sixel_char(c) {
            (Some(Function::Sixel { bits: sixel_bits(c), repeat: 1 }), p + 1)
        } else {
            (None, p)
        },
    }
}

/// The inputs on which reading a function at `p` panics: a color definition in
/// the HLS system (not implemented) or an RGB component whose scaling overflows.
pub open spec fn function_panics(s: Seq<char>, p: int) -> bool {
    match char_at(s, p) {
        Some(c) => c == '#' && {
            let ps = parameters_from(s, p + 1, seq![]).0;
            &&& ps.len() == 5
            &&& (ps[1] == 1 || (ps[1] == 2 && (ps[2] * 255 > u64::MAX || ps[3] * 255 > u64::MAX
                || ps[4] * 255 > u64::MAX)))
        },
        None => false,
    }
}

pub proof fn lemma_function_at_advances(s: Seq<char>, p: int)
    requires
        0 <= p,
    ensures
        function_at(s, p).0 is Some ==> p < function_at(s, p).1 <= s.len(),
        p <= s.len() ==> p <= function_at(s, p).1 <= s.len(),
{
    if 0 <= p < s.len() {
        lemma_numeric_from_advances(s, p + 1, 0);
        lemma_parameters_from_advances(s, p + 1, seq![]);
    }
}

impl Parser {
    #[verifier::type_invariant]
    spec fn inv(self) -> bool {
        self.colors@.len() == 256
    }

    /// The color registers.
    pub closed spec fn colors(self) -> Seq<Color> {
        self.colors@
    }

    /// A decoder whose 256 color registers are all black.
    pub fn new() -> (p: Self)
        ensures
            p.colors().len() == 256,
            forall|i: int| 0 <= i < 256 ==> #[trigger] p.colors()[i] == (Color { r: 0, g: 0, b: 0 }),
    {
        let mut colors: Vec<Color> = Vec::new();
        let mut i: usize = 0;
        while i < 256
            invariant
                i <= 256,
                colors@.len() == i,
                forall|j: int| 0 <= j < i ==> #[trigger] colors@[j] == (Color { r: 0, g: 0, b: 0 }),
            decreases 256 - i,
        {
            colors.push(Color { r: 0, g: 0, b: 0 });
            i += 1;
        }
        Parser { colors }
    }

    /// Reads a decimal number (saturating at `u64::MAX`).
    fn parse_numeric(&mut self, iter: &mut CharStream) -> (num: u64)
        ensures
            final(self).colors() == old(self).colors(),
            final(iter).text() == old(iter).text(),
            (num, final(iter).at()) == numeric_from(old(iter).text(), old(iter).at(), 0),
    {
        let mut num = 0u64;
        let ghost s = iter.text();
        let ghost start = iter.at();
        loop
            invariant
                iter.text() == s,
                numeric_from(s, iter.at(), num) == numeric_from(s, start, 0),
            ensures
                iter.text() == s,
                (num, iter.at()) == numeric_from(s, start, 0),
            decreases s.len() - iter.at(),
        {
            match iter.peek() {
                Some(digit) => {
                    if '0' <= digit && digit <= '9' {
                        iter.next();
                        let d = (digit as u32 - '0' as u32) as u64;
                        let m: u64 = if num > u64::MAX / 10 {
                            u64::MAX
                        } else {
                            num * 10
                        };
                        num = m.saturating_add(d);
                    } else {
                        break;
                    }
                },
                None => {
                    break;
                },
            }
        }
        num
    }

    /// Reads a `;`-separated list of decimal numbers.
    fn parse_parameters(&mut self, iter: &mut CharStream) -> (ps: Vec<u64>)
        ensures
            final(self).colors() == old(self).colors(),
            final(iter).text() == old(iter).text(),
            (ps@, final(iter).at()) == parameters_from(old(iter).text(), old(iter).at(), seq![]),
    {
        let mut ps: Vec<u64> = Vec::new();
        let ghost s = iter.text();
        let ghost start = iter.at();
        loop
            invariant_except_break
                parameters_from(s, iter.at(), ps@) == parameters_from(s, start, seq![]),
            invariant
                iter.text() == s,
                self.colors() == old(self).colors(),
            ensures
                iter.text() == s,
                self.colors() == old(self).colors(),
                (ps@, iter.at()) == parameters_from(s, start, seq![]),
            decreases s.len() - iter.at(),
        {
            if iter.peek().is_none() {
                break;
            }
            let ghost p = iter.at();
            let param = self.parse_numeric(iter);
            proof {
                lemma_numeric_from_advances(s, p, 0);
            }
            ps.push(param);
            match iter.peek() {
                Some(c) => {
                    if c == ';' {
                        iter.next();
                    } else {
                        break;
                    }
                },
                None => {
                    break;
                },
            }
        }
        ps
    }

    /// Reads one sixel control function; `None` where the input does not start with one.
    fn parse(&mut self, iter: &mut CharStream) -> (f: Option<Function>)
        requires
            !function_panics(old(iter).text(), old(iter).at()),
        ensures
            final(self).colors() == old(self).colors(),
            final(iter).text() == old(iter).text(),
            (f, final(iter).at()) == function_at(old(iter).text(), old(iter).at()),
    {
        let next = match iter.peek() {
            Some(c) => c,
            None => {
                return None;
            },
        };
        if next == '"' {
            iter.next();
            let ps = self.parse_parameters(iter);
            if ps.len() == 4 {
                Some(Function::RasterAttributes(ps[0], ps[1], ps[2], ps[3]))
            } else {
                None
            }
        } else if next == '$' {
            iter.next();
            Some(Function::CarriageReturn)
        } else if next == '-' {
            iter.next();
            Some(Function::NewLine)
        } else if next == '#' {
            iter.next();
            let ps = self.parse_parameters(iter);
            if ps.len() == 1 {
                Some(Function::SelectColor(ps[0] as u8))
            } else if ps.len() == 5 && ps[1] == 2 {
                let reg = ps[0] as u8;
                let r = (ps[2] * 255 / 100) as u8;
                let g = (ps[3] * 255 / 100) as u8;
                let b = (ps[4] * 255 / 100) as u8;
                let color = Color { r, g, b };
                Some(Function::DefineColor(reg, color))
            } else {
                None
            }
        } else if next == '!' {
            iter.next();
            let repeat = self.parse_numeric(iter) as usize;
            match iter.peek() {
                Some(x) => {
                    if '?' <= x && x <= '~' {
                        iter.next();
                        let bits = ((x as u32) - ('?' as u32)) as u8;
                        Some(Function::Sixel { bits, repeat })
                    } else {
                        None
                    }
                },
                None => None,
            }
        } else if '?' <= next && next <= '~' {
            iter.next();
            let bits = ((next as u32) - ('?' as u32)) as u8;
            Some(Function::Sixel { bits, repeat: 1 })
        } else {
            None
        }
    }
}

/// Adds `c` (modulo 256 per channel) to the pixel whose red byte is at `off`.
pub open spec fn put_rgb(buf: Seq<u8>, off: int, c: Color) -> Seq<u8> {
    let b1 = buf.update(off, add_wrap(buf[off], c.r));
    let b2 = b1.update(off + 1, add_wrap(b1[off + 1], c.g));
    b2.update(off + 2, add_wrap(b2[off + 2], c.b))
}

/// Paints rows `row0 .. row0 + k` of column `col`, top to bottom.
pub open spec fn rgb_rows(buf: Seq<u8>, row0: int, width: int, col: int, k: int, c: Color) -> Seq<u8>
    decreases k,
{
    if k <= 0 {
        buf
    } else {
        put_rgb(rgb_rows(buf, row0, width, col, k - 1, c), 3 * ((row0 + k - 1) * width + col), c)
    }
}

/// Paints the first `i` bits of a sixel in column `col`, each bit `pixel_h` rows high.
pub open spec fn rgb_bits(
    buf: Seq<u8>,
    bits: u8,
    y: int,
    width: int,
    col: int,
    pixel_h: int,
    i: int,
    c: Color,
) -> Seq<u8>
    decreases i,
{
    if i <= 0 {
        buf
    } else {
        let prev = rgb_bits(buf, bits, y, width, col, pixel_h, i - 1, c);
        if bit_set(bits, i - 1) {
            rgb_rows(prev, y + (i - 1) * pixel_h, width, col, pixel_h, c)
        } else {
            prev
        }
    }
}

/// Paints one sixel in `t` consecutive columns starting at `x`.
pub open spec fn rgb_cols(
    buf: Seq<u8>,
    bits: u8,
    y: int,
    width: int,
    x: int,
    pixel_h: int,
    t: int,
    c: Color,
) -> Seq<u8>
    decreases t,
{
    if t <= 0 {
        buf
    } else {
        rgb_bits(rgb_cols(buf, bits, y, width, x, pixel_h, t - 1, c), bits, y, width, x + t - 1, pixel_h, 6, c)
    }
}

/// Byte `j` of an image of `height` rows widened from `width` to `new_width`
/// columns: old pixels keep their row and column, new columns are black.
pub open spec fn widened_byte(data: Seq<u8>, width: int, new_width: int, j: int) -> u8 {
    let pix = j / 3;
    let row = pix / new_width;
    let col = pix % new_width;
    if col < width {
        data[3 * (row * width + col) + j % 3]
    } else {
        0u8
    }
}

/// The bytes of an image of `height` rows widened from `width` to `new_width` columns.
pub open spec fn widened(data: Seq<u8>, width: int, height: int, new_width: int) -> Seq<u8> {
    Seq::new((3 * new_width * height) as nat, |j: int| widened_byte(data, width, new_width, j))
}

proof fn lemma_cell_index(row: int, col: int, ch: int, w: int)
    requires
        0 <= row,
        0 <= col < w,
        0 <= ch < 3,
    ensures
        (3 * (row * w + col) + ch) / 3 == row * w + col,
        (3 * (row * w + col) + ch) % 3 == ch,
        (row * w + col) / w == row,
        (row * w + col) % w == col,
{
    vstd::arithmetic::div_mod::lemma_fundamental_div_mod_converse(
        3 * (row * w + col) + ch,
        3,
        row * w + col,
        ch,
    );
    vstd::arithmetic::div_mod::lemma_fundamental_div_mod_converse(row * w + col, w, row, col);
}

proof fn lemma_cell_bound(row: int, col: int, w: int, h: int)
    requires
        0 <= row < h,
        0 <= col < w,
    ensures
        0 <= row * w,
        row * w + col + 1 <= w * h,
        3 * (row * w + col) + 3 <= 3 * w * h,
        w * h <= 3 * w * h,
        w * h == h * w,
{
    assert(row * w + col + 1 <= w * h) by (nonlinear_arith)
        requires
            0 <= row < h,
            0 <= col < w,
    ;
    assert(0 <= row * w) by (nonlinear_arith)
        requires
            0 <= row,
            0 <= w,
    ;
    assert(3 * (row * w + col) + 3 <= 3 * w * h) by (nonlinear_arith)
        requires
            row * w + col + 1 <= w * h,
    ;
    assert(w * h <= 3 * w * h) by (nonlinear_arith)
        requires
            0 <= w,
            0 <= h,
    ;
    assert(w * h == h * w) by (nonlinear_arith);
}

/// The byte of channel `ch` (0 red, 1 green, 2 blue) of color `c`.
pub open spec fn channel(c: Color, ch: int) -> u8 {
    if ch == 0 {
        c.r
    } else if ch == 1 {
        c.g
    } else {
        c.b
    }
}

/// Distinct pixels (or channels) of an image `w` pixels wide have distinct bytes.
proof fn lemma_pixel_bytes_distinct(r1: int, c1: int, ch1: int, r2: int, c2: int, ch2: int, w: int)
    requires
        0 <= r1,
        0 <= r2,
        0 <= c1 < w,
        0 <= c2 < w,
        0 <= ch1 < 3,
        0 <= ch2 < 3,
        3 * (r1 * w + c1) + ch1 == 3 * (r2 * w + c2) + ch2,
    ensures
        r1 == r2,
        c1 == c2,
        ch1 == ch2,
{
    lemma_cell_index(r1, c1, ch1, w);
    lemma_cell_index(r2, c2, ch2, w);
    assert(r1 * w + c1 == r2 * w + c2);
    assert(r1 == r2);
    assert(r1 * w == r2 * w);
}

/// Painting rows `row0 .. row0 + k` of column `col`: the byte of channel
/// `ch` of the pixel at `row`, `col2` has the color added exactly where that
/// pixel is one of the painted ones; every other byte is kept.
proof fn lemma_rgb_rows_pixel(
    buf: Seq<u8>,
    row0: int,
    width: int,
    col: int,
    k: int,
    c: Color,
    row: int,
    col2: int,
    ch: int,
)
    requires
        0 <= row0,
        0 <= k,
        0 <= row,
        0 <= col < width,
        0 <= col2 < width,
        0 <= ch < 3,
        3 * ((row0 + k) * width) <= buf.len(),
        3 * (row * width + col2) + ch < buf.len(),
    ensures
        rgb_rows(buf, row0, width, col, k, c).len() == buf.len(),
        rgb_rows(buf, row0, width, col, k, c)[3 * (row * width + col2) + ch] == if col2 == col && row0 <= row
            < row0 + k {
            add_wrap(buf[3 * (row * width + col2) + ch], channel(c, ch))
        } else {
            buf[3 * (row * width + col2) + ch]
        },
    decreases k,
{
    if k > 0 {
        assert(3 * ((row0 + k - 1) * width) <= 3 * ((row0 + k) * width)) by (nonlinear_arith)
            requires
                width >= 0,
                k >= 1,
        ;
        lemma_rgb_rows_pixel(buf, row0, width, col, k - 1, c, row, col2, ch);
        let prev = rgb_rows(buf, row0, width, col, k - 1, c);
        let p = row0 + k - 1;
        let off = 3 * (p * width + col);
        assert(off + 3 <= 3 * ((row0 + k) * width)) by (nonlinear_arith)
            requires
                off == 3 * (p * width + col),
                p == row0 + k - 1,
                col < width,
        ;
        let t = 3 * (row * width + col2) + ch;
        if t == off || t == off + 1 || t == off + 2 {
            let ch2 = t - off;
            lemma_cell_index(p, col, 0, width);
            assert(p >= 0);
            lemma_pixel_bytes_distinct(row, col2, ch, p, col, ch2, width);
        } else {
            if col2 == col && row == p {
                assert(t == off + ch);
            }
        }
    }
}

/// A sixel `bits` painted in column `col` with its band starting at row
/// `y`, each bit `pixel_h` rows high: bit `i` covers rows `y + i * pixel_h`
/// to `y + (i + 1) * pixel_h` (bit 0 is the top of the band), and the byte
/// of a pixel there has the color added exactly when that bit is set; every
/// pixel of another column, or outside the band, is kept.
pub proof fn lemma_sixel_bits_paint_their_rows(
    buf: Seq<u8>,
    bits: u8,
    y: int,
    width: int,
    col: int,
    pixel_h: int,
    c: Color,
    row: int,
    col2: int,
    ch: int,
)
    requires
        0 <= y,
        1 <= pixel_h,
        0 <= row,
        0 <= col < width,
        0 <= col2 < width,
        0 <= ch < 3,
        3 * ((y + 6 * pixel_h) * width) <= buf.len(),
        3 * (row * width + col2) + ch < buf.len(),
    ensures
        ({
            let out = rgb_bits(buf, bits, y, width, col, pixel_h, 6, c);
            let b = 3 * (row * width + col2) + ch;
            &&& out.len() == buf.len()
            &&& out[b] == if col2 == col && y <= row < y + 6 * pixel_h && bit_set(bits, (row - y) / pixel_h) {
                add_wrap(buf[b], channel(c, ch))
            } else {
                buf[b]
            }
        }),
{
    lemma_rgb_bits_pixel(buf, bits, y, width, col, pixel_h, c, row, col2, ch, 6);
}

/// A sixel `bits` painted in the `t` columns from `x` on: the byte of a
/// pixel in one of them, in the band from row `y`, has the color added
/// exactly when the bit for its row (bit 0 at the top) is set; every other
/// byte is kept.
pub proof fn lemma_sixel_paints_its_columns(
    buf: Seq<u8>,
    bits: u8,
    y: int,
    width: int,
    x: int,
    pixel_h: int,
    t: int,
    c: Color,
    row: int,
    col: int,
    ch: int,
)
    requires
        0 <= y,
        1 <= pixel_h,
        0 <= row,
        0 <= x,
        0 <= t,
        x + t <= width,
        0 <= col < width,
        0 <= ch < 3,
        3 * ((y + 6 * pixel_h) * width) <= buf.len(),
        3 * (row * width + col) + ch < buf.len(),
    ensures
        ({
            let out = rgb_cols(buf, bits, y, width, x, pixel_h, t, c);
            let b = 3 * (row * width + col) + ch;
            &&& out.len() == buf.len()
            &&& out[b] == if x <= col < x + t && y <= row < y + 6 * pixel_h && bit_set(bits, (row - y) / pixel_h) {
                add_wrap(buf[b], channel(c, ch))
            } else {
                buf[b]
            }
        }),
    decreases t,
{
    if t > 0 {
        lemma_sixel_paints_its_columns(buf, bits, y, width, x, pixel_h, t - 1, c, row, col, ch);
        let prev = rgb_cols(buf, bits, y, width, x, pixel_h, t - 1, c);
        lemma_sixel_bits_paint_their_rows(prev, bits, y, width, x + t - 1, pixel_h, c, row, col, ch);
    }
}

/// `lemma_sixel_bits_paint_their_rows` after the first `t` bits./// `lemma_sixel_bits_paint_their_rows` after the first `t` bits.
proof fn lemma_rgb_bits_pixel(
    buf: Seq<u8>,
    bits: u8,
    y: int,
    width: int,
    col: int,
    pixel_h: int,
    c: Color,
    row: int,
    col2: int,
    ch: int,
    t: int,
)
    requires
        0 <= y,
        1 <= pixel_h,
        0 <= row,
        0 <= col < width,
        0 <= col2 < width,
        0 <= ch < 3,
        0 <= t <= 6,
        3 * ((y + 6 * pixel_h) * width) <= buf.len(),
        3 * (row * width + col2) + ch < buf.len(),
    ensures
        ({
            let out = rgb_bits(buf, bits, y, width, col, pixel_h, t, c);
            let b = 3 * (row * width + col2) + ch;
            &&& out.len() == buf.len()
            &&& out[b] == if col2 == col && y <= row < y + t * pixel_h && bit_set(bits, (row - y) / pixel_h) {
                add_wrap(buf[b], channel(c, ch))
            } else {
                buf[b]
            }
        }),
    decreases t,
{
    if t > 0 {
        lemma_rgb_bits_pixel(buf, bits, y, width, col, pixel_h, c, row, col2, ch, t - 1);
        let prev = rgb_bits(buf, bits, y, width, col, pixel_h, t - 1, c);
        let row0 = y + (t - 1) * pixel_h;
        assert(row0 + pixel_h == y + t * pixel_h) by (nonlinear_arith)
            requires
                row0 == y + (t - 1) * pixel_h,
        ;
        assert(y + t * pixel_h <= y + 6 * pixel_h) by (nonlinear_arith)
            requires
                t <= 6,
                pixel_h >= 1,
        ;
        assert(3 * ((row0 + pixel_h) * width) <= 3 * ((y + 6 * pixel_h) * width)) by (nonlinear_arith)
            requires
                row0 + pixel_h <= y + 6 * pixel_h,
                width >= 0,
        ;
        assert(row0 >= 0) by (nonlinear_arith)
            requires
                row0 == y + (t - 1) * pixel_h,
                y >= 0,
                t >= 1,
                pixel_h >= 1,
        ;
        if row0 <= row < row0 + pixel_h {
            vstd::arithmetic::div_mod::lemma_fundamental_div_mod_converse(row - y, pixel_h, t - 1, row - row0);
            assert((row - y) / pixel_h == t - 1);
        }
        if y <= row < row0 {
            assert((row - y) / pixel_h < t - 1) by (nonlinear_arith)
                requires
                    0 <= row - y < (t - 1) * pixel_h,
                    pixel_h >= 1,
            ;
        }
        if bit_set(bits, t - 1) {
            lemma_rgb_rows_pixel(prev, row0, width, col, pixel_h, c, row, col2, ch);
        }
    }
}

/// Widens an image of `height` rows from `width` to `new_width` columns./// Widens an image of `height` rows from `width` to `new_width` columns.
fn widen(data: &Vec<u8>, width: u64, height: u64, new_width: u64) -> (out: Vec<u8>)
    requires
        data@.len() == 3 * width * height,
        width <= new_width,
        3 * new_width * height <= usize::MAX,
    ensures
        out@ == widened(data@, width as int, height as int, new_width as int),
{
    let mut out: Vec<u8> = Vec::new();
    let dl = data.len();
    let mut row: u64 = 0;
    while row < height
        invariant
            row <= height,
            data@.len() == 3 * width * height,
            dl == data@.len(),
            width <= new_width,
            3 * new_width * height <= usize::MAX,
            out@.len() == 3 * (row * new_width),
            forall|j: int|
                0 <= j < out@.len() ==> out@[j] == #[trigger] widened_byte(
                    data@,
                    width as int,
                    new_width as int,
                    j,
                ),
        decreases height - row,
    {
        let mut col: u64 = 0;
        while col < new_width
            invariant
                row < height,
                col <= new_width,
                data@.len() == 3 * width * height,
                dl == data@.len(),
                width <= new_width,
                3 * new_width * height <= usize::MAX,
                out@.len() == 3 * (row * new_width + col),
                forall|j: int|
                    0 <= j < out@.len() ==> out@[j] == #[trigger] widened_byte(
                        data@,
                        width as int,
                        new_width as int,
                        j,
                    ),
            decreases new_width - col,
        {
            proof {
                lemma_cell_bound(row as int, col as int, new_width as int, height as int);
                lemma_cell_index(row as int, col as int, 0, new_width as int);
                lemma_cell_index(row as int, col as int, 1, new_width as int);
                lemma_cell_index(row as int, col as int, 2, new_width as int);
            }
            let ghost base = 3 * (row * new_width + col);
            if col < width {
                proof {
                    lemma_cell_bound(row as int, col as int, width as int, height as int);
                }
                let off = 3 * (row * width + col) as usize;
                out.push(data[off]);
                out.push(data[off + 1]);
                out.push(data[off + 2]);
            } else {
                out.push(0u8);
                out.push(0u8);
                out.push(0u8);
            }
            assert(out@.len() == base + 3);
            assert(widened_byte(data@, width as int, new_width as int, base) == out@[base]);
            assert(widened_byte(data@, width as int, new_width as int, base + 1) == out@[base + 1]);
            assert(widened_byte(data@, width as int, new_width as int, base + 2) == out@[base + 2]);
            col += 1;
        }
        assert(3 * (row * new_width + new_width) == 3 * ((row + 1) * new_width)) by (nonlinear_arith);
        row += 1;
    }
    assert(3 * (height * new_width) == 3 * new_width * height) by (nonlinear_arith);
    assert(out@ =~= widened(data@, width as int, height as int, new_width as int));
    out
}

/// Paints a sixel `bits` in `n` consecutive columns from `x` on, each bit
/// `pixel_h` rows high, with its top row at `y`.
fn paint_sixel(
    data: &mut Vec<u8>,
    width: u64,
    height: u64,
    bits: u8,
    y: u64,
    x: u64,
    pixel_h: u64,
    n: usize,
    c: Color,
)
    requires
        old(data)@.len() == 3 * width * height,
        3 * width * height <= usize::MAX,
        x + n <= width,
        y + 6 * pixel_h <= height,
    ensures
        final(data)@ == rgb_cols(old(data)@, bits, y as int, width as int, x as int, pixel_h as int, n as int, c),
        final(data)@.len() == old(data)@.len(),
{
    let ghost start = data@;
    let mut t: usize = 0;
    while t < n
        invariant
            0 <= t <= n,
            start.len() == 3 * width * height,
            3 * width * height <= usize::MAX,
            x + n <= width,
            y + 6 * pixel_h <= height,
            data@.len() == start.len(),
            data@ == rgb_cols(start, bits, y as int, width as int, x as int, pixel_h as int, t as int, c),
        decreases n - t,
    {
        let col = x + t as u64;
        let ghost before = data@;
        let mut i: u8 = 0;
        while i < 6
            invariant
                0 <= i <= 6,
                t < n,
                col == x + t,
                start.len() == 3 * width * height,
                3 * width * height <= usize::MAX,
                x + n <= width,
                y + 6 * pixel_h <= height,
                data@.len() == start.len(),
                data@ == rgb_bits(before, bits, y as int, width as int, col as int, pixel_h as int, i as int, c),
            decreases 6 - i,
        {
            if (bits >> i) & 1u8 > 0 {
                assert(bit_set(bits, i as int));
                let ghost mid = data@;
                let mut k: u64 = 0;
                while k < pixel_h
                    invariant
                        0 <= k <= pixel_h,
                        0 <= i < 6,
                        col < width,
                        start.len() == 3 * width * height,
                        3 * width * height <= usize::MAX,
                        y + 6 * pixel_h <= height,
                        data@.len() == start.len(),
                        data@ == rgb_rows(mid, y + i * pixel_h, width as int, col as int, k as int, c),
                    decreases pixel_h - k,
                {
                    assert(i * pixel_h + k < 6 * pixel_h) by (nonlinear_arith)
                        requires
                            0 <= i < 6,
                            0 <= k < pixel_h,
                    ;
                    let yy = y + (i as u64) * pixel_h + k;
                    proof {
                        lemma_cell_bound(yy as int, col as int, width as int, height as int);
                    }
                    let offset = 3 * (yy * width + col) as usize;
                    let v = data[offset];
                    data[offset] = v.wrapping_add(c.r);
                    let v = data[offset + 1];
                    data[offset + 1] = v.wrapping_add(c.g);
                    let v = data[offset + 2];
                    data[offset + 2] = v.wrapping_add(c.b);
                    k += 1;
                }
            }
            i += 1;
        }
        t += 1;
    }
}

/// The decoder's state between two sixel control functions.
pub struct DecodeState {
    pub width: u64,
    pub height: u64,
    pub data: Seq<u8>,
    pub x: u64,
    pub y: u64,
    pub color: Color,
    pub colors: Seq<Color>,
    pub pixel_w: u64,
    pub pixel_h: u64,
}

/// The image width after making room for `n` columns at the current column.
pub open spec fn sixel_width(st: DecodeState, n: int) -> int {
    if st.x + n > st.width {
        st.x + n
    } else {
        st.width as int
    }
}

/// The image bytes after making room for `n` columns at the current column.
pub open spec fn sixel_wide_data(st: DecodeState, n: int) -> Seq<u8> {
    if st.x + n > st.width {
        widened(st.data, st.width as int, st.height as int, st.x + n)
    } else {
        st.data
    }
}

/// Bytes needed for six pixel rows below `y` at the widened width.
pub open spec fn sixel_total(st: DecodeState, n: int) -> int {
    3 * ((st.y + st.pixel_h * 6) * sixel_width(st, n))
}

/// The image height after growing the image to hold a sixel at the current row.
pub open spec fn sixel_height(st: DecodeState, n: int) -> int {
    if sixel_wide_data(st, n).len() < sixel_total(st, n) {
        round6(
            (sixel_total(st, n) + 3 * sixel_width(st, n) - 1) / (3 * sixel_width(st, n)),
        )
    } else {
        st.height as int
    }
}

/// The image bytes after growing the image to hold a sixel at the current row.
pub open spec fn sixel_data(st: DecodeState, n: int) -> Seq<u8> {
    if sixel_wide_data(st, n).len() < sixel_total(st, n) {
        resized(sixel_wide_data(st, n), 3 * (sixel_height(st, n) * sixel_width(st, n)))
    } else {
        sixel_wide_data(st, n)
    }
}

/// The decoder's state after carrying out `f` in state `st`.
///
/// A sixel beyond the right edge widens the image so that it is drawn whole.
pub open spec fn step(st: DecodeState, f: Function) -> DecodeState {
    match f {
        Function::RasterAttributes(pan, pad, ph, pv) => {
            let w = pad * ph;
            let h = round6(pan * pv);
            DecodeState {
                pixel_h: pan,
                pixel_w: pad,
                width: w as u64,
                height: h as u64,
                data: resized(st.data, 3 * (h * w)),
                ..st
            }
        },
        Function::CarriageReturn => DecodeState { x: 0, ..st },
        Function::NewLine => DecodeState { y: (st.y + st.pixel_h * 6) as u64, x: 0, ..st },
        Function::SelectColor(reg) => DecodeState { color: st.colors[reg as int], ..st },
        Function::DefineColor(reg, c) => DecodeState { colors: st.colors.update(reg as int, c), ..st },
        Function::Sixel { bits, repeat } => {
            let n = st.pixel_w * repeat;
            DecodeState {
                width: sixel_width(st, n) as u64,
                height: sixel_height(st, n) as u64,
                data: rgb_cols(
                    sixel_data(st, n),
                    bits,
                    st.y as int,
                    sixel_width(st, n),
                    st.x as int,
                    st.pixel_h as int,
                    n,
                    st.color,
                ),
                x: (st.x + n) as u64,
                ..st
            }
        },
    }
}

/// Carrying out `f` in state `st` overflows no integer.
pub open spec fn step_ok(st: DecodeState, f: Function) -> bool {
    match f {
        Function::RasterAttributes(pan, pad, ph, pv) => {
            &&& pad * ph <= u64::MAX
            &&& pan * pv + 5 <= u64::MAX
            &&& round6(pan * pv) * (pad * ph) <= u64::MAX
            &&& 3 * (round6(pan * pv) * (pad * ph)) <= usize::MAX
        },
        Function::NewLine => st.y + st.pixel_h * 6 <= u64::MAX,
        Function::Sixel { bits, repeat } => {
            let n = st.pixel_w * repeat;
            let w = sixel_width(st, n);
            &&& st.pixel_w <= usize::MAX
            &&& n <= usize::MAX
            &&& st.x + n <= u64::MAX
            &&& (st.x + n > st.width ==> 3 * w * st.height <= usize::MAX)
            &&& st.y + st.pixel_h * 6 <= u64::MAX
            &&& (st.y + st.pixel_h * 6) * w <= u64::MAX
            &&& sixel_total(st, n) <= usize::MAX
            &&& (sixel_wide_data(st, n).len() < sixel_total(st, n) ==> {
                let h = (sixel_total(st, n) + 3 * w - 1) / (3 * w);
                &&& sixel_total(st, n) + 3 * w - 1 <= usize::MAX
                &&& h + 5 <= u64::MAX
                &&& round6(h) * w <= u64::MAX
                &&& 3 * (round6(h) * w) <= usize::MAX
            })
        },
        _ => true,
    }
}

/// Decoding from position `p` in state `st`: the final state and the position
/// where decoding stopped (where no function could be read).
pub open spec fn run(s: Seq<char>, p: int, st: DecodeState) -> (DecodeState, int)
    decreases s.len() - p,
{
    if p < 0 {
        (st, p)
    } else {
        let (f, q) = function_at(s, p);
        match f {
            None => (st, q),
            Some(f) => {
                proof {
                    lemma_function_at_advances(s, p);
                }
                run(s, q, step(st, f))
            },
        }
    }
}

/// The color registers `colors` after every color definition read from
/// position `p` of `s` on, until decoding stops, is applied in order.
pub open spec fn colors_after(s: Seq<char>, p: int, colors: Seq<Color>) -> Seq<Color>
    decreases s.len() - p,
{
    if p < 0 {
        colors
    } else {
        let (f, q) = function_at(s, p);
        match f {
            None => colors,
            Some(f) => {
                proof {
                    lemma_function_at_advances(s, p);
                }
                match f {
                    Function::DefineColor(reg, c) => colors_after(s, q, colors.update(reg as int, c)),
                    _ => colors_after(s, q, colors),
                }
            },
        }
    }
}

/// Decoding applies each color definition to the registers in order.
pub proof fn lemma_run_colors(s: Seq<char>, p: int, st: DecodeState)
    ensures
        run(s, p, st).0.colors == colors_after(s, p, st.colors),
    decreases s.len() - p,
{
    if p >= 0 {
        let (f, q) = function_at(s, p);
        if let Some(f) = f {
            lemma_function_at_advances(s, p);
            lemma_run_colors(s, q, step(st, f));
        }
    }
}

/// Decoding from position `p` in state `st` never panics.
pub open spec fn run_ok(s: Seq<char>, p: int, st: DecodeState) -> bool
    decreases s.len() - p,
{
    if p < 0 {
        true
    } else {
        let (f, q) = function_at(s, p);
        &&& !function_panics(s, p)
        &&& match f {
            None => true,
            Some(f) => {
                proof {
                    lemma_function_at_advances(s, p);
                }
                step_ok(st, f) && run_ok(s, q, step(st, f))
            },
        }
    }
}

/// The decoder's state before the first function: an empty image six rows
/// high, black, one-by-one pixels at the top left corner.
pub open spec fn initial_state(colors: Seq<Color>) -> DecodeState {
    DecodeState {
        width: 0,
        height: 6,
        data: Seq::empty(),
        x: 0,
        y: 0,
        color: Color { r: 0, g: 0, b: 0 },
        colors,
        pixel_w: 1,
        pixel_h: 1,
    }
}

/// The decoder state held by the executable variables of `decode`.
pub open spec fn state_of(
    img: &Image,
    x: u64,
    y: u64,
    color: Color,
    colors: Seq<Color>,
    pixel_w: u64,
    pixel_h: u64,
) -> DecodeState {
    DecodeState { width: img.width, height: img.height, data: img.data@, x, y, color, colors, pixel_w, pixel_h }
}

proof fn lemma_ceil_rows(m: int, w: int)
    requires
        m >= 0,
        w > 0,
    ensures
        (3 * (m * w) + 3 * w - 1) / (3 * w) == m,
{
    assert(3 * (m * w) + 3 * w - 1 == m * (3 * w) + (3 * w - 1)) by (nonlinear_arith);
    vstd::arithmetic::div_mod::lemma_fundamental_div_mod_converse(
        3 * (m * w) + 3 * w - 1,
        3 * w,
        m,
        3 * w - 1,
    );
}

/// Whether carrying out `f` in the state `st` (whose image is `width` by
/// `height` with `len` bytes, the cursor at `x`, `y`, pixels `pixel_w` by
/// `pixel_h`) overflows no integer: `step_ok`, tested.
fn step_fits(
    f: Function,
    width: u64,
    height: u64,
    len: usize,
    x: u64,
    y: u64,
    pixel_w: u64,
    pixel_h: u64,
    Ghost(st): Ghost<DecodeState>,
) -> (b: bool)
    requires
        st.width == width,
        st.height == height,
        st.data.len() == len,
        len == 3 * width * height,
        st.x == x,
        st.y == y,
        st.pixel_w == pixel_w,
        st.pixel_h == pixel_h,
    ensures
        b == step_ok(st, f),
{
    let umax: u128 = usize::MAX as u128;
    let wmax: u128 = u64::MAX as u128;
    match f {
        Function::RasterAttributes(pan, pad, ph, pv) => {
            let (pan, pad, ph, pv): (u128, u128, u128, u128) = (pan as u128, pad as u128, ph as u128, pv as u128);
            assert(pad * ph <= u128::MAX && pan * pv <= u128::MAX) by (nonlinear_arith)
                requires
                    pad <= u64::MAX,
                    ph <= u64::MAX,
                    pan <= u64::MAX,
                    pv <= u64::MAX,
            ;
            let w: u128 = pad * ph;
            if w > wmax {
                return false;
            }
            let a: u128 = pan * pv;
            if a > wmax - 5 {
                return false;
            }
            let h: u128 = (a + 5) / 6 * 6;
            assert(h <= a + 5);
            assert(h * w <= 0xFFFF_FFFF_FFFF_FFFFint * 0xFFFF_FFFF_FFFF_FFFFint) by (nonlinear_arith)
                requires
                    0 <= h <= 0xFFFF_FFFF_FFFF_FFFFint,
                    0 <= w <= 0xFFFF_FFFF_FFFF_FFFFint,
            ;
            let hw: u128 = h * w;
            if hw > wmax {
                return false;
            }
            3 * hw <= umax
        },
        Function::NewLine => (y as u128) + (pixel_h as u128) * 6 <= wmax,
        Function::Sixel { bits, repeat } => {
            let pw: u128 = pixel_w as u128;
            let rp: u128 = repeat as u128;
            if pw > umax {
                return false;
            }
            assert(pw * rp <= u128::MAX) by (nonlinear_arith)
                requires
                    pw <= u64::MAX,
                    rp <= u64::MAX,
            ;
            let n: u128 = pw * rp;
            if n > umax {
                return false;
            }
            let xe: u128 = (x as u128) + n;
            if xe > wmax {
                return false;
            }
            let w: u128 = if xe > width as u128 { xe } else { width as u128 };
            let hh: u128 = height as u128;
            assert(w * hh <= u128::MAX) by (nonlinear_arith)
                requires
                    w <= u64::MAX,
                    hh <= u64::MAX,
            ;
            assert(3 * w * hh == 3 * (w * hh)) by (nonlinear_arith);
            if xe > width as u128 && w * hh > umax / 3 {
                return false;
            }
            let bottom: u128 = (y as u128) + (pixel_h as u128) * 6;
            if bottom > wmax {
                return false;
            }
            assert(bottom * w <= u128::MAX) by (nonlinear_arith)
                requires
                    w <= u64::MAX,
                    bottom <= u64::MAX,
            ;
            let bw: u128 = bottom * w;
            if bw > wmax {
                return false;
            }
            let total: u128 = 3 * bw;
            if total > umax {
                return false;
            }
            let wide_len: u128 = if xe > width as u128 { 3 * (w * hh) } else { len as u128 };
            proof {
                if xe > width as u128 {
                    assert(sixel_wide_data(st, n as int).len() == 3 * w * hh);
                }
            }
            if wide_len < total {
                assert(w > 0) by (nonlinear_arith)
                    requires
                        total == 3 * (bottom * w),
                        total > 0,
                        w >= 0,
                ;
                let line: u128 = 3 * w;
                if total + line - 1 > umax {
                    return false;
                }
                let h: u128 = (total + line - 1) / line;
                if h + 5 > wmax {
                    return false;
                }
                let r6: u128 = (h + 5) / 6 * 6;
                assert(r6 <= h + 5);
                assert(r6 * w <= 0xFFFF_FFFF_FFFF_FFFFint * 0xFFFF_FFFF_FFFF_FFFFint) by (nonlinear_arith)
                    requires
                        0 <= r6 <= 0xFFFF_FFFF_FFFF_FFFFint,
                        0 <= w <= 0xFFFF_FFFF_FFFF_FFFFint,
                ;
                let rw: u128 = r6 * w;
                if rw > wmax {
                    return false;
                }
                3 * rw <= umax
            } else {
                true
            }
        },
        _ => true,
    }
}

impl Parser {
    /// Decodes a sixel string (the part after `q` of a device control string)
    /// into an RGB image, reading until no function can be read.
    ///
    /// The image starts empty; raster attributes set its size and pixel aspect,
    /// sixels below the bottom grow it by whole rows and sixels beyond the right
    /// edge widen it.  Overlapping sixels add up their colors (modulo 256).
    pub fn decode(&mut self, iter: &mut CharStream) -> (img: Image)
        requires
            run_ok(old(iter).text(), old(iter).at(), initial_state(old(self).colors())),
        ensures
            final(iter).text() == old(iter).text(),
            ({
                let (fin, q) = run(old(iter).text(), old(iter).at(), initial_state(old(self).colors()));
                &&& img.width == fin.width
                &&& img.height == fin.height
                &&& img.data@ == fin.data
                &&& final(self).colors() == fin.colors
                &&& final(iter).at() == q
            }),
            img.height % 6 == 0,
            img.data@.len() == 3 * img.width * img.height,
            final(self).colors().len() == 256,
            final(self).colors() == colors_after(old(iter).text(), old(iter).at(), old(self).colors()),
    {
        let ghost s = iter.text();
        let ghost p0 = iter.at();
        let ghost init = initial_state(self.colors());
        proof {
            use_type_invariant(&*self);
        }
        let _ = iter.position();
        let mut img = Image::new(0, 6);
        assert(img.data@ =~= Seq::<u8>::empty());
        let mut color = Color { r: 0, g: 0, b: 0 };
        let mut x: u64 = 0;
        let mut y: u64 = 0;
        let mut pixel_w: u64 = 1;
        let mut pixel_h: u64 = 1;
        assert(state_of(&img, x, y, color, self.colors(), pixel_w, pixel_h) == init);
        loop
            invariant_except_break
                run(s, iter.at(), state_of(&img, x, y, color, self.colors(), pixel_w, pixel_h)) == run(
                    s,
                    p0,
                    init,
                ),
                run_ok(s, iter.at(), state_of(&img, x, y, color, self.colors(), pixel_w, pixel_h)),
            invariant
                iter.text() == s,
                0 <= iter.at() <= s.len(),
                self.colors().len() == 256,
                img.data@.len() == 3 * img.width * img.height,
                img.height % 6 == 0,
            ensures
                (state_of(&img, x, y, color, self.colors(), pixel_w, pixel_h), iter.at()) == run(
                    s,
                    p0,
                    init,
                ),
            decreases s.len() - iter.at(),
        {
            let ghost st = state_of(&img, x, y, color, self.colors(), pixel_w, pixel_h);
            let ghost p = iter.at();
            proof {
                lemma_function_at_advances(s, p);
            }
            let func = self.parse(iter);
            let _ = iter.position();
            proof {
                use_type_invariant(&*self);
            }
            let func = match func {
                Some(f) => f,
                None => {
                    break;
                },
            };
            match func {
                Function::RasterAttributes(pan, pad, ph, pv) => {
                    pixel_h = pan;
                    pixel_w = pad;
                    img.resize(pixel_w * ph, pixel_h * pv);
                    assert(3 * (img.height * img.width) == 3 * img.width * img.height) by (nonlinear_arith);
                },
                Function::CarriageReturn => {
                    x = 0;
                },
                Function::NewLine => {
                    y = y + pixel_h * 6;
                    x = 0;
                },
                Function::SelectColor(reg) => {
                    color = self.colors[reg as usize];
                },
                Function::DefineColor(reg, c) => {
                    let mut colors = self.colors.clone();
                    assert(colors@ =~= self.colors());
                    colors.set(reg as usize, c);
                    self.colors = colors;
                },
                Function::Sixel { bits, repeat } => {
                    let n = (pixel_w as usize) * repeat;
                    let needed = x + n as u64;
                    if needed > img.width {
                        let data = widen(&img.data, img.width, img.height, needed);
                        img.data = data;
                        img.width = needed;
                    }
                    assert(img.data@ == sixel_wide_data(st, n as int));
                    assert(img.data@.len() == 3 * img.width * img.height);
                    let total = PIXEL_SIZE * ((y + pixel_h * 6) * img.width) as usize;
                    if img.data.len() < total {
                        assert(img.width > 0) by (nonlinear_arith)
                            requires
                                3 * ((y + pixel_h * 6) * img.width) > 0,
                                img.width >= 0,
                        ;
                        let each_line = PIXEL_SIZE * img.width as usize;
                        let new_height = ((total + (each_line - 1)) / each_line) as u64;
                        proof {
                            lemma_ceil_rows(y + pixel_h * 6, img.width as int);
                        }
                        img.resize(img.width, new_height);
                        assert(3 * (img.height * img.width) == 3 * img.width * img.height) by (nonlinear_arith);
                    } else {
                        if img.width > 0 {
                            assert(y + pixel_h * 6 <= img.height) by (nonlinear_arith)
                                requires
                                    3 * ((y + pixel_h * 6) * img.width) <= 3 * img.width * img.height,
                                    img.width > 0,
                            ;
                        }
                    }
                    if n > 0 {
                        paint_sixel(&mut img.data, img.width, img.height, bits, y, x, pixel_h, n, color);
                    }
                    x = x + n as u64;
                },
            }
            assert(state_of(&img, x, y, color, self.colors(), pixel_w, pixel_h) == step(st, func));
        }
        proof {
            lemma_run_colors(s, p0, init);
        }
        img
    }

    /// Another decoder with the same color registers.
    pub fn duplicate(&self) -> (p: Parser)
        ensures
            p.colors() == self.colors(),
    {
        proof {
            use_type_invariant(self);
        }
        let colors = self.colors.clone();
        assert(colors@ =~= self.colors@);
        Parser { colors }
    }

    /// Whether the function at the position of `iter` is a color definition
    /// that decoding cannot carry out (`function_panics`); `iter` is left where it was.
    fn panics_here(&mut self, iter: &mut CharStream) -> (b: bool)
        ensures
            final(self).colors() == old(self).colors(),
            final(iter).text() == old(iter).text(),
            final(iter).at() == old(iter).at(),
            b == function_panics(old(iter).text(), old(iter).at()),
    {
        match iter.peek() {
            Some(c) => {
                if c != '#' {
                    return false;
                }
                let p = iter.position();
                iter.next();
                let ps = self.parse_parameters(iter);
                iter.seek(p);
                ps.len() == 5 && (ps[1] == 1 || (ps[1] == 2 && (ps[2] > 72340172838076673 || ps[3]
                    > 72340172838076673 || ps[4] > 72340172838076673)))
            },
            None => false,
        }
    }

    /// Whether the rest of `iter` can be decoded with these color registers
    /// without an overflow or an unsupported color system (`run_ok`), so
    /// that `decode` may be called on it.  Neither the decoder nor `iter` changes.
    pub fn can_decode(&self, iter: &CharStream) -> (ok: bool)
        ensures
            ok == run_ok(iter.text(), iter.at(), initial_state(self.colors())),
    {
        proof {
            use_type_invariant(self);
        }
        let colors = self.colors.clone();
        assert(colors@ =~= self.colors@);
        let mut probe = Parser { colors };
        let mut it = iter.duplicate();
        probe.checked_run(&mut it)
    }

    /// Decodes as `decode` does, testing before each function that it can
    /// be carried out; whether all could (`run_ok`).
    #[verifier::rlimit(60)]
    #[verifier::spinoff_prover]
    fn checked_run(&mut self, iter: &mut CharStream) -> (ok: bool)
        ensures
            ok == run_ok(old(iter).text(), old(iter).at(), initial_state(old(self).colors())),
    {
        let ghost s = iter.text();
        let ghost p0 = iter.at();
        let ghost init = initial_state(self.colors());
        proof {
            use_type_invariant(&*self);
        }
        let _ = iter.position();
        let mut img = Image::new(0, 6);
        assert(img.data@ =~= Seq::<u8>::empty());
        let mut color = Color { r: 0, g: 0, b: 0 };
        let mut x: u64 = 0;
        let mut y: u64 = 0;
        let mut pixel_w: u64 = 1;
        let mut pixel_h: u64 = 1;
        assert(state_of(&img, x, y, color, self.colors(), pixel_w, pixel_h) == init);
        loop
            invariant
                iter.text() == s,
                0 <= iter.at() <= s.len(),
                self.colors().len() == 256,
                img.data@.len() == 3 * img.width * img.height,
                img.height % 6 == 0,
                run_ok(s, p0, init) == run_ok(s, iter.at(), state_of(&img, x, y, color, self.colors(), pixel_w, pixel_h)),
                s == old(iter).text(),
                p0 == old(iter).at(),
                init == initial_state(old(self).colors()),
            decreases s.len() - iter.at(),
        {
            let ghost st = state_of(&img, x, y, color, self.colors(), pixel_w, pixel_h);
            let ghost p = iter.at();
            proof {
                lemma_function_at_advances(s, p);
            }
            if self.panics_here(iter) {
                assert(!run_ok(s, p, st));
                return false;
            }
            let func = self.parse(iter);
            let _ = iter.position();
            proof {
                use_type_invariant(&*self);
            }
            let func = match func {
                Some(f) => f,
                None => {
                    return true;
                },
            };
            if !step_fits(func, img.width, img.height, img.data.len(), x, y, pixel_w, pixel_h, Ghost(st)) {
                assert(!run_ok(s, p, st));
                return false;
            }
            match func {
                Function::RasterAttributes(pan, pad, ph, pv) => {
                    pixel_h = pan;
                    pixel_w = pad;
                    img.resize(pixel_w * ph, pixel_h * pv);
                    assert(3 * (img.height * img.width) == 3 * img.width * img.height) by (nonlinear_arith);
                },
                Function::CarriageReturn => {
                    x = 0;
                },
                Function::NewLine => {
                    y = y + pixel_h * 6;
                    x = 0;
                },
                Function::SelectColor(reg) => {
                    color = self.colors[reg as usize];
                },
                Function::DefineColor(reg, c) => {
                    let mut colors = self.colors.clone();
                    assert(colors@ =~= self.colors());
                    colors.set(reg as usize, c);
                    self.colors = colors;
                },
                Function::Sixel { bits, repeat } => {
                    let n = (pixel_w as usize) * repeat;
                    let needed = x + n as u64;
                    if needed > img.width {
                        let data = widen(&img.data, img.width, img.height, needed);
                        img.data = data;
                        img.width = needed;
                    }
                    assert(img.data@ == sixel_wide_data(st, n as int));
                    assert(img.data@.len() == 3 * img.width * img.height);
                    let total = PIXEL_SIZE * ((y + pixel_h * 6) * img.width) as usize;
                    if img.data.len() < total {
                        assert(img.width > 0) by (nonlinear_arith)
                            requires
                                3 * ((y + pixel_h * 6) * img.width) > 0,
                                img.width >= 0,
                        ;
                        let each_line = PIXEL_SIZE * img.width as usize;
                        let new_height = ((total + (each_line - 1)) / each_line) as u64;
                        proof {
                            lemma_ceil_rows(y + pixel_h * 6, img.width as int);
                        }
                        img.resize(img.width, new_height);
                        assert(3 * (img.height * img.width) == 3 * img.width * img.height) by (nonlinear_arith);
                    } else {
                        if img.width > 0 {
                            assert(y + pixel_h * 6 <= img.height) by (nonlinear_arith)
                                requires
                                    3 * ((y + pixel_h * 6) * img.width) <= 3 * img.width * img.height,
                                    img.width > 0,
                            ;
                        }
                    }
                    if n > 0 {
                        paint_sixel(&mut img.data, img.width, img.height, bits, y, x, pixel_h, n, color);
                    }
                    x = x + n as u64;
                },
            }
            assert(state_of(&img, x, y, color, self.colors(), pixel_w, pixel_h) == step(st, func));
        }
    }
}

} // verus!
