//! Sixel decoder producing a bitmap with four bytes per pixel in a caller-chosen
//! channel order.

use vstd::prelude::*;

pub mod parser;

use parser::{parse_at, parse_panics};
use crate::stream::CharStream;

verus! {

/// A color with alpha.
#[derive(Debug, Clone, Copy, PartialEq, Eq, Structural)]
pub struct Color {
    pub a: u8,
    pub r: u8,
    pub g: u8,
    pub b: u8,
}

impl Color {
    /// An opaque color.
    pub fn new(r: u8, g: u8, b: u8) -> (c: Self)
        ensures
            c == (Color { a: 255, r, g, b }),
    {
        Color { a: 255, r, g, b }
    }

    /// Opaque black, the color of every palette entry at first.
    pub fn black() -> (c: Self)
        ensures
            c == (Color { a: 255, r: 0, g: 0, b: 0 }),
    {
        Color { a: 255, r: 0, g: 0, b: 0 }
    }
}

/// A sixel control function.
#[derive(Debug, Clone, Copy, PartialEq, Eq, Structural)]
pub enum Op {
    Sixel { bits: u8, rep: u64 },
    RasterAttributes(u64, u64, u64, u64),
    CarriageReturn,
    NextLine,
    UseColor(u8),
    SetColor(u8, Color),
    Finish,
}

} // verus!

verus! {

/// Number of bytes per pixel.
pub const EACH_PIXEL: usize = 4;

/// `bits` has bit `i` set (bit 0 is the top row of a sixel).
pub open spec fn bit_set(bits: u8, i: int) -> bool {
    ((bits >> (i as u8)) & 1u8) > 0
}

/// Paints one pixel: the alpha byte is overwritten, the color bytes are added
/// (modulo 256) to what the pixel held, each at the offset that `ord` gives.
pub open spec fn put_pixel(buf: Seq<u8>, pos: int, ord: Seq<usize>, c: Color) -> Seq<u8> {
    let b1 = buf.update(pos * 4 + ord[0], c.a);
    let b2 = b1.update(pos * 4 + ord[1], add_wrap(b1[pos * 4 + ord[1]], c.r));
    let b3 = b2.update(pos * 4 + ord[2], add_wrap(b2[pos * 4 + ord[2]], c.g));
    b3.update(pos * 4 + ord[3], add_wrap(b3[pos * 4 + ord[3]], c.b))
}

/// Byte addition modulo 256.
pub open spec fn add_wrap(a: u8, b: u8) -> u8 {
    if a + b > 255 {
        (a + b - 256) as u8
    } else {
        (a + b) as u8
    }
}

/// Paints rows `row0 .. row0 + k` of column `col`, top to bottom.
pub open spec fn draw_rows(
    buf: Seq<u8>,
    row0: int,
    width: int,
    col: int,
    k: int,
    ord: Seq<usize>,
    c: Color,
) -> Seq<u8>
    decreases k,
{
    if k <= 0 {
        buf
    } else {
        put_pixel(draw_rows(buf, row0, width, col, k - 1, ord, c), (row0 + k - 1) * width + col, ord, c)
    }
}

/// Paints the first `i` bits of a sixel in column `col`, each bit `pixel_h` rows high.
pub open spec fn draw_bits(
    buf: Seq<u8>,
    bits: u8,
    y: int,
    width: int,
    col: int,
    pixel_h: int,
    i: int,
    ord: Seq<usize>,
    c: Color,
) -> Seq<u8>
    decreases i,
{
    if i <= 0 {
        buf
    } else {
        let prev = draw_bits(buf, bits, y, width, col, pixel_h, i - 1, ord, c);
        if bit_set(bits, i - 1) {
            draw_rows(prev, y + (i - 1) * pixel_h, width, col, pixel_h, ord, c)
        } else {
            prev
        }
    }
}

/// Paints one sixel in `t` consecutive columns starting at `x`.
pub open spec fn draw_cols(
    buf: Seq<u8>,
    bits: u8,
    y: int,
    width: int,
    x: int,
    pixel_h: int,
    t: int,
    ord: Seq<usize>,
    c: Color,
) -> Seq<u8>
    decreases t,
{
    if t <= 0 {
        buf
    } else {
        draw_bits(
            draw_cols(buf, bits, y, width, x, pixel_h, t - 1, ord, c),
            bits,
            y,
            width,
            x + t - 1,
            pixel_h,
            6,
            ord,
            c,
        )
    }
}

/// With the channel offsets distinct, painting a pixel sets its alpha byte
/// and adds the red, green and blue of `c` (modulo 256) to its color bytes;
/// every other byte is kept.
pub proof fn lemma_put_pixel_channels(buf: Seq<u8>, pos: int, ord: Seq<usize>, c: Color, b: int)
    requires
        ord_ok(ord),
        ord[0] != ord[1] && ord[0] != ord[2] && ord[0] != ord[3] && ord[1] != ord[2] && ord[1] != ord[3]
            && ord[2] != ord[3],
        0 <= pos,
        pos * 4 + 4 <= buf.len(),
        0 <= b < buf.len(),
    ensures
        put_pixel(buf, pos, ord, c).len() == buf.len(),
        put_pixel(buf, pos, ord, c)[b] == if b == pos * 4 + ord[0] {
            c.a
        } else if b == pos * 4 + ord[1] {
            add_wrap(buf[b], c.r)
        } else if b == pos * 4 + ord[2] {
            add_wrap(buf[b], c.g)
        } else if b == pos * 4 + ord[3] {
            add_wrap(buf[b], c.b)
        } else {
            buf[b]
        },
{
    assert(ord[0] < 4 && ord[1] < 4 && ord[2] < 4 && ord[3] < 4);
}

/// Painting rows `row0 .. row0 + k` of column `col`: a byte of the pixel at
/// `row`, `col2` is what painting that one pixel gives exactly where the
/// pixel is one of the painted ones; every other byte is kept.
proof fn lemma_draw_rows_byte(
    buf: Seq<u8>,
    row0: int,
    width: int,
    col: int,
    k: int,
    ord: Seq<usize>,
    c: Color,
    row: int,
    col2: int,
    j: int,
)
    requires
        ord_ok(ord),
        0 <= row0,
        0 <= k,
        0 <= row,
        0 <= col < width,
        0 <= col2 < width,
        0 <= j < 4,
        4 * ((row0 + k) * width) <= buf.len(),
        (row * width + col2) * 4 + j < buf.len(),
    ensures
        draw_rows(buf, row0, width, col, k, ord, c).len() == buf.len(),
        draw_rows(buf, row0, width, col, k, ord, c)[(row * width + col2) * 4 + j] == if col2 == col && row0
            <= row < row0 + k {
            put_pixel(buf, row * width + col2, ord, c)[(row * width + col2) * 4 + j]
        } else {
            buf[(row * width + col2) * 4 + j]
        },
    decreases k,
{
    if k > 0 {
        assert(4 * ((row0 + k - 1) * width) <= 4 * ((row0 + k) * width)) by (nonlinear_arith)
            requires
                width >= 0,
                k >= 1,
        ;
        lemma_draw_rows_byte(buf, row0, width, col, k - 1, ord, c, row, col2, j);
        let prev = draw_rows(buf, row0, width, col, k - 1, ord, c);
        let p = row0 + k - 1;
        let pos = p * width + col;
        let q = row * width + col2;
        assert(pos * 4 + 4 <= 4 * ((row0 + k) * width)) by (nonlinear_arith)
            requires
                pos == p * width + col,
                p == row0 + k - 1,
                col < width,
        ;
        assert(0 <= pos) by (nonlinear_arith)
            requires
                pos == p * width + col,
                p >= 0,
                col >= 0,
                width >= 0,
        ;
        assert(0 <= q) by (nonlinear_arith)
            requires
                q == row * width + col2,
                row >= 0,
                col2 >= 0,
                width >= 0,
        ;
        assert(ord[0] < 4 && ord[1] < 4 && ord[2] < 4 && ord[3] < 4);
        if q == pos {
            lemma_same_pixel(row, col2, p, col, width);
        } else {
            if col2 == col && row == p {
                assert(q == pos);
            }
        }
    }
}

/// Pixels of an image `w` pixels wide are numbered row by row, one for one.
proof fn lemma_same_pixel(r1: int, c1: int, r2: int, c2: int, w: int)
    requires
        0 <= r1,
        0 <= r2,
        0 <= c1 < w,
        0 <= c2 < w,
        r1 * w + c1 == r2 * w + c2,
    ensures
        r1 == r2,
        c1 == c2,
{
    vstd::arithmetic::div_mod::lemma_fundamental_div_mod_converse(r1 * w + c1, w, r1, c1);
    vstd::arithmetic::div_mod::lemma_fundamental_div_mod_converse(r2 * w + c2, w, r2, c2);
}

/// A sixel `bits` drawn in column `col` with its band from row `y`, each
/// bit `pixel_h` rows high: bit `i` covers rows `y + i * pixel_h` to
/// `y + (i + 1) * pixel_h` (bit 0 at the top), and a pixel there is painted
/// exactly when that bit is set; every pixel of another column, or outside
/// the band, is kept.
pub proof fn lemma_sixel_draws_its_bits(
    buf: Seq<u8>,
    bits: u8,
    y: int,
    width: int,
    col: int,
    pixel_h: int,
    ord: Seq<usize>,
    c: Color,
    row: int,
    col2: int,
    j: int,
)
    requires
        ord_ok(ord),
        0 <= y,
        1 <= pixel_h,
        0 <= row,
        0 <= col < width,
        0 <= col2 < width,
        0 <= j < 4,
        4 * ((y + 6 * pixel_h) * width) <= buf.len(),
        (row * width + col2) * 4 + j < buf.len(),
    ensures
        ({
            let out = draw_bits(buf, bits, y, width, col, pixel_h, 6, ord, c);
            let q = row * width + col2;
            &&& out.len() == buf.len()
            &&& out[q * 4 + j] == if col2 == col && y <= row < y + 6 * pixel_h && bit_set(bits, (row - y) / pixel_h) {
                put_pixel(buf, q, ord, c)[q * 4 + j]
            } else {
                buf[q * 4 + j]
            }
        }),
{
    lemma_draw_bits_byte(buf, bits, y, width, col, pixel_h, ord, c, row, col2, j, 6);
}

/// A sixel `bits` drawn in the `t` columns from `x` on: a pixel in one of
/// them, in the band from row `y`, is painted exactly when the bit for its
/// row (bit 0 at the top) is set; every other pixel is kept.
pub proof fn lemma_sixel_draws_its_columns(
    buf: Seq<u8>,
    bits: u8,
    y: int,
    width: int,
    x: int,
    pixel_h: int,
    t: int,
    ord: Seq<usize>,
    c: Color,
    row: int,
    col: int,
    j: int,
)
    requires
        ord_ok(ord),
        0 <= y,
        1 <= pixel_h,
        0 <= row,
        0 <= x,
        0 <= t,
        x + t <= width,
        0 <= col < width,
        0 <= j < 4,
        4 * ((y + 6 * pixel_h) * width) <= buf.len(),
        (row * width + col) * 4 + j < buf.len(),
    ensures
        ({
            let out = draw_cols(buf, bits, y, width, x, pixel_h, t, ord, c);
            let q = row * width + col;
            &&& out.len() == buf.len()
            &&& out[q * 4 + j] == if x <= col < x + t && y <= row < y + 6 * pixel_h && bit_set(bits, (row - y) / pixel_h) {
                put_pixel(buf, q, ord, c)[q * 4 + j]
            } else {
                buf[q * 4 + j]
            }
        }),
    decreases t,
{
    if t > 0 {
        lemma_sixel_draws_its_columns(buf, bits, y, width, x, pixel_h, t - 1, ord, c, row, col, j);
        let prev = draw_cols(buf, bits, y, width, x, pixel_h, t - 1, ord, c);
        lemma_sixel_draws_its_bits(prev, bits, y, width, x + t - 1, pixel_h, ord, c, row, col, j);
        let q = row * width + col;
        if col == x + t - 1 && y <= row < y + 6 * pixel_h && bit_set(bits, (row - y) / pixel_h) {
            assert(q * 4 + 4 <= 4 * ((y + 6 * pixel_h) * width)) by (nonlinear_arith)
                requires
                    q == row * width + col,
                    row < y + 6 * pixel_h,
                    0 <= col < width,
            ;
            assert(0 <= q) by (nonlinear_arith)
                requires
                    q == row * width + col,
                    row >= 0,
                    col >= 0,
                    width >= 0,
            ;
            assert forall|m: int| q * 4 <= m < q * 4 + 4 implies prev[m] == buf[m] by {
                lemma_sixel_draws_its_columns(buf, bits, y, width, x, pixel_h, t - 1, ord, c, row, col, m - q * 4);
            }
            lemma_put_pixel_same_bytes(prev, buf, q, ord, c, q * 4 + j);
        }
    }
}

/// `lemma_sixel_draws_its_bits` after the first `t` bits.
proof fn lemma_draw_bits_byte(
    buf: Seq<u8>,
    bits: u8,
    y: int,
    width: int,
    col: int,
    pixel_h: int,
    ord: Seq<usize>,
    c: Color,
    row: int,
    col2: int,
    j: int,
    t: int,
)
    requires
        ord_ok(ord),
        0 <= y,
        1 <= pixel_h,
        0 <= row,
        0 <= col < width,
        0 <= col2 < width,
        0 <= j < 4,
        0 <= t <= 6,
        4 * ((y + 6 * pixel_h) * width) <= buf.len(),
        (row * width + col2) * 4 + j < buf.len(),
    ensures
        ({
            let out = draw_bits(buf, bits, y, width, col, pixel_h, t, ord, c);
            let q = row * width + col2;
            &&& out.len() == buf.len()
            &&& out[q * 4 + j] == if col2 == col && y <= row < y + t * pixel_h && bit_set(bits, (row - y) / pixel_h) {
                put_pixel(buf, q, ord, c)[q * 4 + j]
            } else {
                buf[q * 4 + j]
            }
        }),
    decreases t,
{
    if t > 0 {
        lemma_draw_bits_byte(buf, bits, y, width, col, pixel_h, ord, c, row, col2, j, t - 1);
        let prev = draw_bits(buf, bits, y, width, col, pixel_h, t - 1, ord, c);
        let row0 = y + (t - 1) * pixel_h;
        let q = row * width + col2;
        assert(row0 + pixel_h == y + t * pixel_h) by (nonlinear_arith)
            requires
                row0 == y + (t - 1) * pixel_h,
        ;
        assert(y + t * pixel_h <= y + 6 * pixel_h) by (nonlinear_arith)
            requires
                t <= 6,
                pixel_h >= 1,
        ;
        assert(4 * ((row0 + pixel_h) * width) <= 4 * ((y + 6 * pixel_h) * width)) by (nonlinear_arith)
            requires
                row0 + pixel_h <= y + 6 * pixel_h,
                width >= 0,
        ;
        assert(row0 >= 0) by (nonlinear_arith)
            requires
                row0 == y + (t - 1) * pixel_h,
                y >= 0,
                t >= 1,
                pixel_h >= 1,
        ;
        if row0 <= row < row0 + pixel_h {
            vstd::arithmetic::div_mod::lemma_fundamental_div_mod_converse(row - y, pixel_h, t - 1, row - row0);
            assert((row - y) / pixel_h == t - 1);
        }
        if y <= row < row0 {
            assert((row - y) / pixel_h < t - 1) by (nonlinear_arith)
                requires
                    0 <= row - y < (t - 1) * pixel_h,
                    pixel_h >= 1,
            ;
        }
        if bit_set(bits, t - 1) {
            lemma_draw_rows_byte(prev, row0, width, col, pixel_h, ord, c, row, col2, j);
            if col2 == col && row0 <= row < row0 + pixel_h {
                assert(q * 4 + 4 <= 4 * ((y + 6 * pixel_h) * width)) by (nonlinear_arith)
                    requires
                        q == row * width + col2,
                        row < y + 6 * pixel_h,
                        0 <= col2 < width,
                ;
                assert(0 <= q) by (nonlinear_arith)
                    requires
                        q == row * width + col2,
                        row >= 0,
                        col2 >= 0,
                        width >= 0,
                ;
                assert forall|m: int| q * 4 <= m < q * 4 + 4 implies prev[m] == buf[m] by {
                    lemma_draw_bits_byte(buf, bits, y, width, col, pixel_h, ord, c, row, col2, m - q * 4, t - 1);
                }
                lemma_put_pixel_same_bytes(prev, buf, q, ord, c, q * 4 + j);
            }
        }
    }
}

/// Painting a pixel only reads its own bytes.
proof fn lemma_put_pixel_same_bytes(a: Seq<u8>, b: Seq<u8>, pos: int, ord: Seq<usize>, c: Color, i: int)
    requires
        ord_ok(ord),
        a.len() == b.len(),
        0 <= pos,
        pos * 4 + 4 <= a.len(),
        pos * 4 <= i < pos * 4 + 4,
        forall|m: int| pos * 4 <= m < pos * 4 + 4 ==> a[m] == b[m],
    ensures
        put_pixel(a, pos, ord, c)[i] == put_pixel(b, pos, ord, c)[i],
{
    assert(ord[0] < 4 && ord[1] < 4 && ord[2] < 4 && ord[3] < 4);
}

/// The pixel of bit `i`, sub-row `k`, column `x + t` of a sixel lies inside a
/// buffer of `len` bytes, and its row number fits in `usize`.
pub open spec fn pixel_ok(
    len: int,
    y: int,
    width: int,
    x: int,
    pixel_h: int,
    t: int,
    i: int,
    k: int,
) -> bool {
    &&& y + i * pixel_h + k <= usize::MAX
    &&& ((y + i * pixel_h + k) * width + x + t) * 4 + 4 <= len
}

/// Every pixel that painting a sixel in `n` columns touches lies inside the buffer.
pub open spec fn cols_in_bounds(
    len: int,
    bits: u8,
    y: int,
    width: int,
    x: int,
    pixel_h: int,
    n: int,
) -> bool {
    forall|t: int, i: int, k: int|
        0 <= t < n && 0 <= i < 6 && 0 <= k < pixel_h && bit_set(bits, i) ==> #[trigger] pixel_ok(
            len,
            y,
            width,
            x,
            pixel_h,
            t,
            i,
            k,
        )
}

/// The channel order names four distinct-or-not offsets inside a pixel.
pub open spec fn ord_ok(ord: Seq<usize>) -> bool {
    ord.len() == 4 && forall|j: int| 0 <= j < 4 ==> #[trigger] ord[j] < 4
}

fn paint_pixel(buf: &mut Vec<u8>, pos: usize, ord: &[usize; 4], c: Color)
    requires
        ord_ok(ord@),
        pos * 4 + 4 <= old(buf)@.len(),
    ensures
        final(buf)@ == put_pixel(old(buf)@, pos as int, ord@, c),
        final(buf)@.len() == old(buf)@.len(),
{
    let len = buf.len();
    assert(pos * 4 + 4 <= len);
    let p = pos * 4;
    let ghost b0 = buf@;
    let o0 = ord[0];
    let o1 = ord[1];
    let o2 = ord[2];
    let o3 = ord[3];
    assert(o0 < 4 && o1 < 4 && o2 < 4 && o3 < 4) by {
        assert(ord@[0] < 4);
        assert(ord@[1] < 4);
        assert(ord@[2] < 4);
        assert(ord@[3] < 4);
    }
    buf[p + o0] = c.a;
    let ghost b1 = buf@;
    assert(b1 == b0.update(pos * 4 + ord@[0], c.a));
    let v = buf[p + o1];
    buf[p + o1] = v.wrapping_add(c.r);
    let ghost b2 = buf@;
    assert(b2 == b1.update(pos * 4 + ord@[1], add_wrap(b1[pos * 4 + ord@[1]], c.r)));
    let v = buf[p + o2];
    buf[p + o2] = v.wrapping_add(c.g);
    let ghost b3 = buf@;
    assert(b3 == b2.update(pos * 4 + ord@[2], add_wrap(b2[pos * 4 + ord@[2]], c.g)));
    let v = buf[p + o3];
    buf[p + o3] = v.wrapping_add(c.b);
}

/// Paints a sixel `bits` in `n` consecutive columns starting at column `x`,
/// each bit `pixel_h` rows high, with its top row at `y`.
fn paint_sixel(
    buf: &mut Vec<u8>,
    bits: u8,
    y: usize,
    width: usize,
    x: usize,
    pixel_h: usize,
    n: usize,
    ord: &[usize; 4],
    c: Color,
)
    requires
        ord_ok(ord@),
        cols_in_bounds(old(buf)@.len() as int, bits, y as int, width as int, x as int, pixel_h as int, n as int),
        x + n <= usize::MAX,
    ensures
        final(buf)@ == draw_cols(old(buf)@, bits, y as int, width as int, x as int, pixel_h as int, n as int, ord@, c),
        final(buf)@.len() == old(buf)@.len(),
{
    let ghost start = buf@;
    let total = buf.len();
    let mut t: usize = 0;
    while t < n
        invariant
            0 <= t <= n,
            x + n <= usize::MAX,
            ord_ok(ord@),
            buf@.len() == start.len(),
            total == start.len(),
            cols_in_bounds(start.len() as int, bits, y as int, width as int, x as int, pixel_h as int, n as int),
            buf@ == draw_cols(start, bits, y as int, width as int, x as int, pixel_h as int, t as int, ord@, c),
        decreases n - t,
    {
        let col = x + t;
        let ghost before = buf@;
        let mut i: u8 = 0;
        while i < 6
            invariant
                0 <= i <= 6,
                t < n,
                col == x + t,
                x + n <= usize::MAX,
                ord_ok(ord@),
                buf@.len() == start.len(),
                total == start.len(),
                cols_in_bounds(start.len() as int, bits, y as int, width as int, x as int, pixel_h as int, n as int),
                buf@ == draw_bits(before, bits, y as int, width as int, col as int, pixel_h as int, i as int, ord@, c),
            decreases 6 - i,
        {
            if (bits >> i) & 1u8 > 0 {
                assert(bit_set(bits, i as int));
                let ghost mid = buf@;
                let mut k: usize = 0;
                while k < pixel_h
                    invariant
                        0 <= k <= pixel_h,
                        0 <= i < 6,
                        t < n,
                        col == x + t,
                        bit_set(bits, i as int),
                        ord_ok(ord@),
                        buf@.len() == start.len(),
                        total == start.len(),
                        cols_in_bounds(start.len() as int, bits, y as int, width as int, x as int, pixel_h as int, n as int),
                        buf@ == draw_rows(mid, y + i * pixel_h, width as int, col as int, k as int, ord@, c),
                    decreases pixel_h - k,
                {
                    assert(pixel_ok(start.len() as int, y as int, width as int, x as int, pixel_h as int, t as int, i as int, k as int));
                    let ii = i as usize;
                    assert(ii * pixel_h <= y + ii * pixel_h + k) by (nonlinear_arith)
                        requires ii >= 0, pixel_h >= 0, y >= 0, k >= 0;
                    let row = y + ii * pixel_h + k;
                    assert(row * width <= (row * width + x + t) * 4 + 4) by (nonlinear_arith)
                        requires row >= 0, width >= 0, x >= 0, t >= 0;
                    let pos = row * width + col;
                    paint_pixel(buf, pos, ord, c);
                    k += 1;
                }
            }
            i += 1;
        }
        t += 1;
    }
}

/// A decoded image: `height` rows of `width` pixels, four bytes each.
#[derive(Debug)]
pub struct Image {
    pub height: usize,
    pub width: usize,
    pub buf: Vec<u8>,
}

/// `buf` cut or zero-extended to `n` bytes.
pub open spec fn resized(buf: Seq<u8>, n: int) -> Seq<u8> {
    if n <= buf.len() {
        buf.subrange(0, n)
    } else {
        buf + Seq::new((n - buf.len()) as nat, |i: int| 0u8)
    }
}

impl Image {
    /// Fits the buffer to `height * width` pixels, keeping what it held and
    /// filling new bytes with zero.
    fn resize(&mut self)
        requires
            old(self).height * old(self).width * EACH_PIXEL <= usize::MAX,
        ensures
            final(self).height == old(self).height,
            final(self).width == old(self).width,
            final(self).buf@ == resized(old(self).buf@, old(self).height * old(self).width * 4),
    {
        let n = self.height * self.width * EACH_PIXEL;
        let ghost before = self.buf@;
        self.buf.resize(n, 0u8);
        assert(self.buf@ =~= resized(before, n as int));
    }
}

/// A bitmap `height` rows (a multiple of six) of `width` pixels held in
/// `len` bytes, the next sixel row starting at row `y`, a multiple of six.
#[verifier::opaque]
pub open spec fn well_shaped(height: int, width: int, len: int, y: int) -> bool {
    &&& height % 6 == 0
    &&& len == height * width * 4
    &&& y % 6 == 0
}

/// A bitmap sized for `rows` rows, rounded up to a multiple of six, is well shaped.
proof fn lemma_shape_of_size(rows: int, width: int, y: int)
    requires
        rows >= 0,
        y % 6 == 0,
    ensures
        well_shaped((rows + 5) / 6 * 6, width, (rows + 5) / 6 * 6 * width * 4, y),
{
    reveal(well_shaped);
    assert(((rows + 5) / 6 * 6) % 6 == 0) by (nonlinear_arith)
        requires
            rows >= 0,
    ;
}

/// The next sixel row of a well-shaped bitmap starts at a multiple of six.
proof fn lemma_shape_row(height: int, width: int, len: int, y: int)
    requires
        well_shaped(height, width, len, y),
    ensures
        y % 6 == 0,
{
    reveal(well_shaped);
}

/// The next sixel row keeps the bitmap well shaped.
proof fn lemma_shape_next_line(height: int, width: int, len: int, y: int, pixel_h: int)
    requires
        well_shaped(height, width, len, y),
    ensures
        well_shaped(height, width, len, y + 6 * pixel_h),
{
    reveal(well_shaped);
}

/// Growing a well-shaped bitmap to hold the sixel row at `y` gives it
/// exactly the rows down to the bottom of that row, a multiple of six.
proof fn lemma_shape_grown(height: int, width: int, len: int, y: int, pixel_h: int)
    requires
        well_shaped(height, width, len, y),
        height >= 0,
        width >= 0,
        len < (y + 6 * pixel_h) * width * 4,
    ensures
        width > 0,
        height + ((y + 6 * pixel_h) * width * 4 - len + width * 4 - 1) / (width * 4) == y + 6 * pixel_h,
        well_shaped(y + 6 * pixel_h, width, (y + 6 * pixel_h) * width * 4, y),
{
    reveal(well_shaped);
    let k = y + 6 * pixel_h;
    assert(width > 0) by (nonlinear_arith)
        requires
            len == height * width * 4,
            len < k * width * 4,
            height >= 0,
            width >= 0,
    ;
    assert(height < k) by (nonlinear_arith)
        requires
            len == height * width * 4,
            len < k * width * 4,
            width > 0,
    ;
    let e = width * 4;
    let m = k - height;
    assert(k * width * 4 - len == m * e) by (nonlinear_arith)
        requires
            e == width * 4,
            m == k - height,
            len == height * width * 4,
    ;
    vstd::arithmetic::div_mod::lemma_fundamental_div_mod_converse(m * e + e - 1, e, m, e - 1);
}

/// The decoder's state between two sixel control functions.
pub struct DecodeState {
    pub height: usize,
    pub width: usize,
    pub buf: Seq<u8>,
    pub x: usize,
    pub y: usize,
    pub color: Color,
    pub palette: Seq<Color>,
    pub pixel_w: usize,
    pub pixel_h: usize,
}

/// Bytes a sixel at the current row needs: the image must reach six pixel rows below `y`.
pub open spec fn sixel_required(st: DecodeState) -> int {
    (st.y + 6 * st.pixel_h) * st.width * 4
}

/// The image height after growing it (by whole rows) to hold a sixel at the current row.
pub open spec fn grown_height(st: DecodeState) -> int {
    if st.buf.len() < sixel_required(st) {
        st.height + (sixel_required(st) - st.buf.len() + st.width * 4 - 1) / (st.width * 4)
    } else {
        st.height as int
    }
}

/// The image bytes after growing the image to hold a sixel at the current row.
pub open spec fn grown_buf(st: DecodeState) -> Seq<u8> {
    if st.buf.len() < sixel_required(st) {
        resized(st.buf, grown_height(st) * st.width * 4)
    } else {
        st.buf
    }
}

/// The control function `op` can be carried out in state `st` without an
/// arithmetic overflow or an access outside the image.
pub open spec fn step_ok(st: DecodeState, op: Op) -> bool {
    match op {
        Op::RasterAttributes(pan, pad, ph, pv) => {
            &&& pan <= usize::MAX && pad <= usize::MAX && ph <= usize::MAX && pv <= usize::MAX
            &&& pan * pv + 5 <= usize::MAX
            &&& pad * ph <= usize::MAX
            &&& ((pan * pv + 5) / 6 * 6) * (pad * ph) * 4 <= usize::MAX
        },
        Op::NextLine => st.y + 6 * st.pixel_h <= usize::MAX,
        Op::Sixel { bits, rep } => {
            &&& st.y + 6 * st.pixel_h <= usize::MAX
            &&& sixel_required(st) <= usize::MAX
            &&& (st.buf.len() < sixel_required(st) ==> {
                &&& sixel_required(st) - st.buf.len() + st.width * 4 - 1 <= usize::MAX
                &&& grown_height(st) * st.width * 4 <= usize::MAX
            })
            &&& rep <= usize::MAX
            &&& rep * st.pixel_w <= usize::MAX
            &&& st.x + rep * st.pixel_w <= usize::MAX
            &&& cols_in_bounds(
                grown_buf(st).len() as int,
                bits,
                st.y as int,
                st.width as int,
                st.x as int,
                st.pixel_h as int,
                rep * st.pixel_w,
            )
        },
        _ => true,
    }
}

/// The decoder's state after carrying out `op` (other than `Finish`) in state `st`.
pub open spec fn step(st: DecodeState, op: Op, ord: Seq<usize>) -> DecodeState {
    match op {
        Op::RasterAttributes(pan, pad, ph, pv) => {
            let h = (pan * pv + 5) / 6 * 6;
            let w = pad * ph;
            DecodeState {
                pixel_h: pan as usize,
                pixel_w: pad as usize,
                height: h as usize,
                width: w as usize,
                buf: resized(st.buf, h * w * 4),
                ..st
            }
        },
        Op::CarriageReturn => DecodeState { x: 0, ..st },
        Op::NextLine => DecodeState { y: (st.y + 6 * st.pixel_h) as usize, x: 0, ..st },
        Op::SetColor(reg, c) => DecodeState { palette: st.palette.update(reg as int, c), ..st },
        Op::UseColor(reg) => DecodeState { color: st.palette[reg as int], ..st },
        Op::Sixel { bits, rep } => {
            let n = rep * st.pixel_w;
            DecodeState {
                height: grown_height(st) as usize,
                buf: draw_cols(
                    grown_buf(st),
                    bits,
                    st.y as int,
                    st.width as int,
                    st.x as int,
                    st.pixel_h as int,
                    n,
                    ord,
                    st.color,
                ),
                x: (st.x + n) as usize,
                ..st
            }
        },
        Op::Finish => st,
    }
}

/// A function that was read moves the position forward.
pub proof fn lemma_parse_at_advances(s: Seq<char>, p: int)
    requires
        0 <= p,
    ensures
        parse_at(s, p).0 is Some ==> p < parse_at(s, p).1 <= s.len(),
{
    if 0 <= p < s.len() {
        parser::lemma_numeric_from_advances(s, p + 1, 0);
        if p + 1 <= s.len() {
            parser::lemma_parameters_from_advances(s, p + 1, seq![]);
        }
    }
}

/// Decoding from position `p` in state `st`: the final state and the position
/// after the last function read.  Decoding stops at the string terminator
/// (`ESC \`) or where no function can be read.
pub open spec fn run(s: Seq<char>, p: int, st: DecodeState, ord: Seq<usize>) -> (DecodeState, int)
    decreases s.len() - p,
{
    if p < 0 {
        (st, p)
    } else {
        let (op, q) = parse_at(s, p);
        match op {
            None => (st, q),
            Some(Op::Finish) => (st, q),
            Some(o) => {
                proof {
                    lemma_parse_at_advances(s, p);
                }
                run(s, q, step(st, o, ord), ord)
            },
        }
    }
}

/// The color registers `palette` after every color definition read from
/// position `p` of `s` on, until decoding stops, is applied in order.
pub open spec fn palette_after(s: Seq<char>, p: int, palette: Seq<Color>) -> Seq<Color>
    decreases s.len() - p,
{
    if p < 0 {
        palette
    } else {
        let (op, q) = parse_at(s, p);
        match op {
            None => palette,
            Some(Op::Finish) => palette,
            Some(o) => {
                proof {
                    lemma_parse_at_advances(s, p);
                }
                match o {
                    Op::SetColor(reg, c) => palette_after(s, q, palette.update(reg as int, c)),
                    _ => palette_after(s, q, palette),
                }
            },
        }
    }
}

/// No raster attributes are read from position `p` of `s` on, until decoding stops.
pub open spec fn no_raster_after(s: Seq<char>, p: int) -> bool
    decreases s.len() - p,
{
    if p < 0 {
        true
    } else {
        let (op, q) = parse_at(s, p);
        match op {
            None => true,
            Some(Op::Finish) => true,
            Some(o) => {
                proof {
                    lemma_parse_at_advances(s, p);
                }
                !(o is RasterAttributes) && no_raster_after(s, q)
            },
        }
    }
}

/// Decoding applies each color definition to the registers in order, and
/// without raster attributes the bitmap keeps its width.
pub proof fn lemma_run_palette_and_width(s: Seq<char>, p: int, st: DecodeState, ord: Seq<usize>)
    ensures
        run(s, p, st, ord).0.palette == palette_after(s, p, st.palette),
        no_raster_after(s, p) ==> run(s, p, st, ord).0.width == st.width,
    decreases s.len() - p,
{
    if p >= 0 {
        let (op, q) = parse_at(s, p);
        match op {
            None => {},
            Some(Op::Finish) => {},
            Some(o) => {
                lemma_parse_at_advances(s, p);
                lemma_run_palette_and_width(s, q, step(st, o, ord), ord);
            },
        }
    }
}

/// Decoding from position `p` in state `st` never panics.
pub open spec fn run_ok(s: Seq<char>, p: int, st: DecodeState, ord: Seq<usize>) -> bool
    decreases s.len() - p,
{
    if p < 0 {
        true
    } else {
        let (op, q) = parse_at(s, p);
        &&& !parse_panics(s, p)
        &&& match op {
            None => true,
            Some(Op::Finish) => true,
            Some(o) => {
                proof {
                    lemma_parse_at_advances(s, p);
                }
                step_ok(st, o) && run_ok(s, q, step(st, o, ord), ord)
            },
        }
    }
}

/// The image height before any raster attributes: the requested one rounded up
/// to a multiple of six, or six.
pub open spec fn initial_height(image_height: Option<usize>) -> int {
    match image_height {
        Some(h) => (h + 5) / 6 * 6,
        None => 6,
    }
}

/// The decoder's state before the first function.
pub open spec fn initial_state(image_width: usize, image_height: Option<usize>, palette: Seq<Color>) -> DecodeState {
    let h = initial_height(image_height);
    DecodeState {
        height: h as usize,
        width: image_width,
        buf: Seq::new((h * image_width * 4) as nat, |i: int| 0u8),
        x: 0,
        y: 0,
        color: Color { a: 255, r: 0, g: 0, b: 0 },
        palette,
        pixel_w: 1,
        pixel_h: 1,
    }
}

/// Decoding the sixel string at position `p` never panics.
pub open spec fn decode_ok(
    s: Seq<char>,
    p: int,
    image_width: usize,
    image_height: Option<usize>,
    palette: Seq<Color>,
    ord: Seq<usize>,
) -> bool {
    &&& (image_height matches Some(h) ==> h + 5 <= usize::MAX)
    &&& initial_height(image_height) * image_width * 4 <= usize::MAX
    &&& run_ok(s, p, initial_state(image_width, image_height, palette), ord)
}

/// A palette of 256 opaque black entries.
pub fn default_palette() -> (palette: Vec<Color>)
    ensures
        palette@.len() == 256,
        forall|i: int| 0 <= i < 256 ==> #[trigger] palette@[i] == (Color { a: 255, r: 0, g: 0, b: 0 }),
{
    let mut palette: Vec<Color> = Vec::new();
    let mut i: usize = 0;
    while i < 256
        invariant
            i <= 256,
            palette@.len() == i,
            forall|j: int| 0 <= j < i ==> #[trigger] palette@[j] == (Color { a: 255, r: 0, g: 0, b: 0 }),
        decreases 256 - i,
    {
        palette.push(Color::black());
        i += 1;
    }
    palette
}

/// The decoder state held by the executable variables of `decode`.
pub open spec fn state_of(
    img: &Image,
    x: usize,
    y: usize,
    color: Color,
    palette: Seq<Color>,
    pixel_w: usize,
    pixel_h: usize,
) -> DecodeState {
    DecodeState {
        height: img.height,
        width: img.width,
        buf: img.buf@,
        x,
        y,
        color,
        palette,
        pixel_w,
        pixel_h,
    }
}

/// Decodes a sixel string into a bitmap.
///
/// The bitmap starts `image_width` pixels wide and `image_height` rounded up to a
/// multiple of six (or six) rows high; raster attributes resize it and sixels below
/// its bottom grow it.  Each pixel has four bytes at the offsets `argb_ord` gives
/// for alpha, red, green and blue.  The color registers are read from and left in
/// `palette`, so that one string can use the colors another defined: each
/// color definition is applied to them in order (`palette_after`).
#[verifier::rlimit(60)]
#[verifier::spinoff_prover]
pub fn decode(
    seq: &mut CharStream,
    palette: &mut Vec<Color>,
    argb_ord: [usize; 4],
    image_width: usize,
    image_height: Option<usize>,
) -> (img: Image)
    requires
        old(palette)@.len() == 256,
        ord_ok(argb_ord@),
        decode_ok(old(seq).text(), old(seq).at(), image_width, image_height, old(palette)@, argb_ord@),
    ensures
        final(seq).text() == old(seq).text(),
        ({
            let (fin, q) = run(
                old(seq).text(),
                old(seq).at(),
                initial_state(image_width, image_height, old(palette)@),
                argb_ord@,
            );
            &&& img.height == fin.height
            &&& img.width == fin.width
            &&& img.buf@ == fin.buf
            &&& final(palette)@ == fin.palette
            &&& final(seq).at() == q
        }),
        final(palette)@.len() == 256,
        final(palette)@ == palette_after(old(seq).text(), old(seq).at(), old(palette)@),
        no_raster_after(old(seq).text(), old(seq).at()) ==> img.width == image_width,
        img.height % 6 == 0,
        img.buf@.len() == img.height * img.width * 4,
{
    let ghost s = seq.text();
    let ghost p0 = seq.at();
    let ghost ord = argb_ord@;
    let ghost init = initial_state(image_width, image_height, palette@);
    let _ = seq.position();
    let height = match image_height {
        Some(h) => (h + 5) / 6 * 6,
        None => 6,
    };
    let mut img = Image { buf: Vec::new(), width: image_width, height };
    img.resize();
    proof {
        match image_height {
            Some(h) => lemma_shape_of_size(h as int, image_width as int, 0),
            None => lemma_shape_of_size(1, image_width as int, 0),
        }
    }
    assert(img.buf@ =~= init.buf);
    let mut y: usize = 0;
    let mut x: usize = 0;
    let mut color = Color::black();
    let mut pixel_w: usize = 1;
    let mut pixel_h: usize = 1;
    assert(state_of(&img, x, y, color, palette@, pixel_w, pixel_h) == init);
    loop
        invariant_except_break
            run(s, seq.at(), state_of(&img, x, y, color, palette@, pixel_w, pixel_h), ord) == run(
                s,
                p0,
                init,
                ord,
            ),
            run_ok(s, seq.at(), state_of(&img, x, y, color, palette@, pixel_w, pixel_h), ord),
        invariant
            seq.text() == s,
            0 <= seq.at() <= s.len(),
            ord == argb_ord@,
            ord_ok(ord),
            palette@.len() == 256,
            well_shaped(img.height as int, img.width as int, img.buf@.len() as int, y as int),
        ensures
            (state_of(&img, x, y, color, palette@, pixel_w, pixel_h), seq.at()) == run(
                s,
                p0,
                init,
                ord,
            ),
        decreases s.len() - seq.at(),
    {
        let ghost st = state_of(&img, x, y, color, palette@, pixel_w, pixel_h);
        let ghost p = seq.at();
        proof {
            lemma_parse_at_advances(s, p);
        }
        let op = parser::parse(seq);
        let _ = seq.position();
        match op {
            None => {
                break;
            },
            Some(op) => {
                match op {
                    Op::Finish => {
                        break;
                    },
                    Op::RasterAttributes(pan, pad, ph, pv) => {
                        proof {
                            lemma_shape_row(img.height as int, img.width as int, img.buf@.len() as int, y as int);
                        }
                        pixel_h = pan as usize;
                        pixel_w = pad as usize;
                        img.height = (pixel_h * pv as usize + 5) / 6 * 6;
                        img.width = pixel_w * ph as usize;
                        img.resize();
                        proof {
                            lemma_shape_of_size((pixel_h * pv) as int, img.width as int, y as int);
                        }
                    },
                    Op::CarriageReturn => {
                        x = 0;
                    },
                    Op::NextLine => {
                        proof {
                            lemma_shape_next_line(img.height as int, img.width as int, img.buf@.len() as int, y as int, pixel_h as int);
                        }
                        y = y + 6 * pixel_h;
                        x = 0;
                    },
                    Op::SetColor(reg, c) => {
                        palette.set(reg as usize, c);
                    },
                    Op::UseColor(reg) => {
                        color = palette[reg as usize];
                    },
                    Op::Sixel { bits, rep } => {
                        let required = (y + 6 * pixel_h) * img.width * EACH_PIXEL;
                        if img.buf.len() < required {
                            assert(img.width > 0) by (nonlinear_arith)
                                requires
                                    (y + 6 * pixel_h) * img.width * 4 > 0,
                                    img.width >= 0;
                            let each_line = img.width * EACH_PIXEL;
                            let ghost gh = img.height + (required - img.buf.len() + (each_line - 1)) / (each_line as int);
                            assert(gh == grown_height(st));
                            assert(gh <= gh * img.width * 4) by (nonlinear_arith)
                                requires
                                    img.width > 0,
                                    gh >= 0;
                            proof {
                                lemma_shape_grown(img.height as int, img.width as int, img.buf@.len() as int, y as int, pixel_h as int);
                            }
                            img.height = img.height + (required - img.buf.len() + (each_line - 1))
                                / each_line;
                            img.resize();
                        }
                        let n = rep as usize * pixel_w;
                        paint_sixel(&mut img.buf, bits, y, img.width, x, pixel_h, n, &argb_ord, color);
                        x = x + n;
                    },
                }
                assert(state_of(&img, x, y, color, palette@, pixel_w, pixel_h) == step(st, op, ord));
            },
        }
    }
    proof {
        reveal(well_shaped);
        lemma_run_palette_and_width(s, p0, init, ord);
    }
    img
}

} // verus!
