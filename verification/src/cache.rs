//! The glyph cache: where each glyph lies in the cache texture.

use vstd::prelude::*;

use lru::LruCache;

use crate::basics::{lemma_cell_index, lemma_index_cell};
use crate::font::{FontStyle, GlyphMetrics};
use crate::terminal::CellSize;
use crate::view::PixelRect;

verus! {

/// Bits of a glyph index that hold the style; enough for every `FontStyle`.
pub const STYLES_BITS: usize = 2;

/// The number of a style, in the order `FontStyle::all` lists them.
pub open spec fn style_number(style: FontStyle) -> nat {
    match style {
        FontStyle::Regular => 0,
        FontStyle::Bold => 1,
        FontStyle::Faint => 2,
    }
}

/// The slot of the glyph of the ASCII character `ch` in `style`: the
/// character's code shifted past the style bits, then the style's number.
pub fn get_ascii_index(ch: char, style: FontStyle) -> (i: usize)
    requires
        (ch as u32) < 0x80,
    ensures
        i == (ch as u32) * 4 + style_number(style),
{
    let code = ch as usize;
    let style: usize = match style {
        FontStyle::Regular => 0,
        FontStyle::Bold => 1,
        FontStyle::Faint => 2,
    };
    assert((code << 2usize) | style == code * 4 + style) by (bit_vector)
        requires
            code < 0x80,
            style < 3,
    ;
    (code << STYLES_BITS) | style
}

/// Doubling `w` until it reaches `target`.
pub open spec fn doubled_up_to(w: nat, target: nat) -> nat
    decreases (if w >= target { 0 } else { target - w }),
{
    if w == 0 || w >= target {
        w
    } else {
        doubled_up_to(2 * w, target)
    }
}

/// The smallest power of two that is at least `target`.
pub open spec fn side_for(target: nat) -> nat {
    doubled_up_to(1, target)
}

/// The smallest power of two that is at least `target`; see `side_for`.
pub fn texture_side(target: u32) -> (w: u32)
    requires
        target <= 0x8000_0000,
    ensures
        w == side_for(target as nat),
{
    let mut w: u32 = 1;
    while w < target
        invariant
            1 <= w,
            w < target ==> w < 0x8000_0000,
            target <= 0x8000_0000,
            doubled_up_to(w as nat, target as nat) == side_for(target as nat),
        decreases (if w >= target { 0 } else { target - w }),
    {
        w = w * 2;
    }
    w
}

/// The size of the cache texture for cells `cell` large: room for the visible ASCII characters (sixteen a row, six rows for
/// each style, in cells a pixel larger than `cell`) and 1024 pixels more each
/// way for other glyphs, rounded up to powers of two.
pub fn texture_size(cell: CellSize) -> (r: (u32, u32))
    requires
        16 * (cell.w + 1) + 1024 <= 0x8000_0000,
        6 * (cell.h + 1) * 3 + 1024 <= 0x8000_0000,
    ensures
        r.0 == side_for((16 * (cell.w + 1) + 1024) as nat),
        r.1 == side_for((6 * (cell.h + 1) * 3 + 1024) as nat),
{
    let styles = FontStyle::all().len() as u32;
    let w = texture_side(16 * (cell.w + 1) + 1024);
    let h = texture_side(6 * (cell.h + 1) * styles + 1024);
    (w, h)
}

/// Where the glyph of the visible ASCII character `ch` in the style
/// numbered `style` is drawn in the cache texture, for a glyph image `gw`
/// by `gh` pixels: column `code % 16` and row `code / 16 - 2` of the
/// style's block of six rows, in cells a pixel larger than `cell`.
pub fn ascii_glyph_region(ch: char, style: u32, cell: CellSize, gw: u32, gh: u32) -> (r: PixelRect)
    requires
        ' ' <= ch <= '~',
        style < 3,
        16 * (cell.w + 1) <= i32::MAX,
        18 * (cell.h + 1) <= i32::MAX,
    ensures
        r == (PixelRect {
            x: ((ch as u32 % 16) * (cell.w + 1)) as i32,
            y: (6 * (cell.h + 1) * style + (ch as u32 / 16 - 2) * (cell.h + 1)) as i32,
            w: gw,
            h: gh,
        }),
{
    let code = ch as u32;
    assert((code & 0xF) == code % 16 && (code & 0x70) >> 4 == code / 16) by (bit_vector)
        requires
            code < 0x80,
    ;
    let col = code & 0xF;
    let row = ((code & 0x70) >> 4) - 2;
    let cw = cell.w + 1;
    let chh = cell.h + 1;
    assert(col * cw <= 15 * cw && row * chh <= 5 * chh && 6 * chh * style <= 12 * chh) by (nonlinear_arith)
        requires
            col < 16,
            row <= 5,
            style < 3,
    ;
    let y_origin = 6 * chh * style;
    let y = row * chh;
    let x = col * cw;
    PixelRect { x: x as i32, y: (y_origin + y) as i32, w: gw, h: gh }
}

/// The slots for other glyphs below the ASCII glyphs, which start at row
/// `top` of the texture and take `height` rows of its `width` columns:
/// whole slots of `slot_w` by `slot_h` pixels, row by row from the top left,
/// each empty so far.
pub open spec fn slots_spec(top: u32, width: u32, height: u32, slot_w: u32, slot_h: u32) -> Seq<PixelRect> {
    let cols = width / slot_w;
    let rows = height / slot_h;
    Seq::new(
        (rows * cols) as nat,
        |k: int| PixelRect { x: ((k % cols as int) * slot_w) as i32, y: (top + (k / cols as int) * slot_h) as i32, w: 0, h: 0 },
    )
}

/// The slots for other glyphs; see `slots_spec`.
pub fn glyph_slots(top: u32, width: u32, height: u32, slot_w: u32, slot_h: u32) -> (r: Vec<PixelRect>)
    requires
        slot_w >= 1,
        slot_h >= 1,
        top + height <= i32::MAX,
        width <= i32::MAX,
    ensures
        r@ == slots_spec(top, width, height, slot_w, slot_h),
{
    let rows = height / slot_h;
    let cols = width / slot_w;
    let ghost s = slots_spec(top, width, height, slot_w, slot_h);
    assert(rows * cols <= height * width) by (nonlinear_arith)
        requires
            rows == height / slot_h,
            cols == width / slot_w,
            slot_w >= 1,
            slot_h >= 1,
    ;
    let mut r: Vec<PixelRect> = Vec::new();
    let mut row: u32 = 0;
    assert(s.len() == rows * cols);
    assert(r@ =~= s.subrange(0, 0));
    while row < rows
        invariant
            row <= rows,
            rows == height / slot_h,
            cols == width / slot_w,
            slot_w >= 1,
            slot_h >= 1,
            top + height <= i32::MAX,
            width <= i32::MAX,
            s == slots_spec(top, width, height, slot_w, slot_h),
            r@ == s.subrange(0, row * cols),
            row * cols <= rows * cols,
            s.len() == rows * cols,
            rows * cols <= height * width,
        decreases rows - row,
    {
        let mut col: u32 = 0;
        while col < cols
            invariant
                col <= cols,
                row < rows,
                rows == height / slot_h,
                cols == width / slot_w,
                slot_w >= 1,
                slot_h >= 1,
                top + height <= i32::MAX,
                width <= i32::MAX,
                s == slots_spec(top, width, height, slot_w, slot_h),
                r@ == s.subrange(0, row * cols + col),
                row * cols + col <= rows * cols,
                s.len() == rows * cols,
                rows * cols <= height * width,
            decreases cols - col,
        {
            proof {
                lemma_cell_index(cols as int, rows as int, col as int, row as int);
                assert((cols as int) * (rows as int) == (rows as int) * (cols as int)) by (nonlinear_arith);
                assert(col * slot_w <= width && row * slot_h + slot_h <= height) by (nonlinear_arith)
                    requires
                        col < cols,
                        row < rows,
                        cols == width / slot_w,
                        rows == height / slot_h,
                        slot_w >= 1,
                        slot_h >= 1,
                ;
            }
            let x = col * slot_w;
            let y = top + row * slot_h;
            r.push(PixelRect { x: x as i32, y: y as i32, w: 0, h: 0 });
            proof {
                let k = row * cols + col;
                assert(k / (cols as int) == row as int);
                assert(k % (cols as int) == col as int);
                assert(s[k as int] == PixelRect { x: x as i32, y: y as i32, w: 0, h: 0 });
                assert(r@ =~= s.subrange(0, row * cols + col + 1));
            }
            col += 1;
        }
        proof {
            assert((row + 1) * cols == row * cols + cols) by (nonlinear_arith);
            assert((row + 1) * cols <= rows * cols) by (nonlinear_arith)
                requires
                    row < rows,
            ;
        }
        row += 1;
    }
    assert(s.len() == rows * cols);
    assert(r@ =~= s);
    r
}


/// A slot of the cache texture for a glyph other than ASCII: where it lies,
/// the metrics of the glyph drawn there, and the frame that last used it
/// (`None` while the slot holds no glyph yet).
#[derive(Debug, Clone, Copy, PartialEq, Eq, Structural)]
pub struct GlyphSlot {
    pub region: PixelRect,
    pub metrics: GlyphMetrics,
    pub tag: Option<u64>,
}

#[verifier::external_type_specification]
#[verifier::external_body]
#[verifier::reject_recursive_types(K)]
#[verifier::reject_recursive_types(V)]
#[verifier::reject_recursive_types(S)]
pub struct ExLruCache<K, V, S>(LruCache<K, V, S>);

#[verifier::external_type_specification]
#[verifier::external_body]
pub struct ExLruHasher(lru::DefaultHasher);

/// The entries of an LRU cache of glyph slots, keyed by character code and
/// style number, from the most recently used to the least.
pub uninterp spec fn lru_entries(c: LruCache<(u32, u8), GlyphSlot>) -> Seq<((u32, u8), GlyphSlot)>;

/// The number of entries an LRU cache of glyph slots was made to hold.
pub uninterp spec fn lru_cap(c: LruCache<(u32, u8), GlyphSlot>) -> nat;

/// Some entry of `es` has key `k`.
pub open spec fn has_key(es: Seq<((u32, u8), GlyphSlot)>, k: (u32, u8)) -> bool {
    exists|i: int| 0 <= i < es.len() && (#[trigger] es[i]).0 == k
}

/// The position of the entry of `es` with key `k`.
pub open spec fn key_pos(es: Seq<((u32, u8), GlyphSlot)>, k: (u32, u8)) -> int {
    choose|i: int| 0 <= i < es.len() && (#[trigger] es[i]).0 == k
}

/// No two entries of `es` have the same key.
pub open spec fn keys_distinct(es: Seq<((u32, u8), GlyphSlot)>) -> bool {
    forall|i: int, j: int| 0 <= i < es.len() && 0 <= j < es.len() && i != j ==> (#[trigger] es[i]).0 != (#[trigger] es[j]).0
}

/// `es` with its entry at `i` moved to the front.
pub open spec fn to_front(es: Seq<((u32, u8), GlyphSlot)>, i: int) -> Seq<((u32, u8), GlyphSlot)> {
    seq![es[i]] + es.remove(i)
}

/// The entries after pushing `v` under key `k` into a cache holding `es`
/// with room for `cap`: an entry with that key takes the new value and moves
/// to the front; else the new entry goes to the front, the least recently
/// used one leaving a full cache, and nothing changing in a cache of no room.
pub open spec fn pushed(es: Seq<((u32, u8), GlyphSlot)>, cap: nat, k: (u32, u8), v: GlyphSlot) -> Seq<((u32, u8), GlyphSlot)> {
    if has_key(es, k) {
        seq![(k, v)] + es.remove(key_pos(es, k))
    } else if cap == 0 {
        es
    } else if es.len() >= cap {
        seq![(k, v)] + es.drop_last()
    } else {
        seq![(k, v)] + es
    }
}

/// `LruCache::new`: an empty cache with room for `cap` entries.  (The
/// underlying hash table panics on capacity overflow: on a 32-bit machine
/// from about 2^29 entries on; the bound keeps below that.)
#[verifier::external_body]
fn lru_new(cap: usize) -> (c: LruCache<(u32, u8), GlyphSlot>)
    requires
        cap <= 0x1000_0000,
    ensures
        lru_entries(c) == Seq::<((u32, u8), GlyphSlot)>::empty(),
        lru_cap(c) == cap,
{
    LruCache::new(cap)
}

/// `LruCache::get`: the value under `k`, its entry moved to the front; the
/// cache unchanged where no entry has that key.
#[verifier::external_body]
fn lru_get(c: &mut LruCache<(u32, u8), GlyphSlot>, k: (u32, u8)) -> (r: Option<GlyphSlot>)
    requires
        keys_distinct(lru_entries(*old(c))),
    ensures
        lru_cap(*final(c)) == lru_cap(*old(c)),
        has_key(lru_entries(*old(c)), k) ==> {
            let i = key_pos(lru_entries(*old(c)), k);
            &&& r == Some(lru_entries(*old(c))[i].1)
            &&& lru_entries(*final(c)) == to_front(lru_entries(*old(c)), i)
        },
        !has_key(lru_entries(*old(c)), k) ==> r is None && lru_entries(*final(c)) == lru_entries(*old(c)),
{
    c.get(&k).copied()
}

/// `LruCache::push`: the entries become `pushed(..)`; it gives back the
/// entry that had key `k` (with key `k`), else the entry that had to leave.
#[verifier::external_body]
fn lru_push(c: &mut LruCache<(u32, u8), GlyphSlot>, k: (u32, u8), v: GlyphSlot) -> (r: Option<((u32, u8), GlyphSlot)>)
    requires
        keys_distinct(lru_entries(*old(c))),
        lru_entries(*old(c)).len() <= lru_cap(*old(c)),
    ensures
        lru_cap(*final(c)) == lru_cap(*old(c)),
        lru_entries(*final(c)) == pushed(lru_entries(*old(c)), lru_cap(*old(c)), k, v),
        r == (if has_key(lru_entries(*old(c)), k) {
            Some((k, lru_entries(*old(c))[key_pos(lru_entries(*old(c)), k)].1))
        } else if lru_cap(*old(c)) > 0 && lru_entries(*old(c)).len() >= lru_cap(*old(c)) {
            Some(lru_entries(*old(c)).last())
        } else {
            None
        }),
{
    c.push(k, v)
}

/// `LruCache::peek_lru`: the least recently used entry, if any; the order
/// is left as it is.
#[verifier::external_body]
fn lru_peek_lru(c: &LruCache<(u32, u8), GlyphSlot>) -> (r: Option<((u32, u8), GlyphSlot)>)
    ensures
        r == (if lru_entries(*c).len() == 0 { None } else { Some(lru_entries(*c).last()) }),
{
    match c.peek_lru() {
        Some((k, v)) => Some((*k, *v)),
        None => None,
    }
}

/// `LruCache::pop_lru`: removes and gives the least recently used entry.
#[verifier::external_body]
fn lru_pop_lru(c: &mut LruCache<(u32, u8), GlyphSlot>) -> (r: Option<((u32, u8), GlyphSlot)>)
    ensures
        lru_cap(*final(c)) == lru_cap(*old(c)),
        lru_entries(*old(c)).len() == 0 ==> r is None && lru_entries(*final(c)) == lru_entries(*old(c)),
        lru_entries(*old(c)).len() > 0 ==> r == Some(lru_entries(*old(c)).last())
            && lru_entries(*final(c)) == lru_entries(*old(c)).drop_last(),
{
    c.pop_lru()
}

/// The glyph cache: the regions of the ASCII glyphs drawn when it was
/// built, by glyph index, and the slots for other glyphs, used in
/// least-recently-used order.
pub struct GlyphCache {
    ascii_glyph_region: Vec<Option<(PixelRect, GlyphMetrics)>>,
    other_glyph_region: LruCache<(u32, u8), GlyphSlot>,
}

/// What a glyph cache holds: the ASCII glyphs by index, the other slots from
/// the most recently used to the least, and the number of slots.
pub struct GlyphCacheView {
    pub ascii: Seq<Option<(PixelRect, GlyphMetrics)>>,
    pub others: Seq<((u32, u8), GlyphSlot)>,
    pub cap: nat,
}

impl View for GlyphCache {
    type V = GlyphCacheView;

    closed spec fn view(&self) -> GlyphCacheView {
        GlyphCacheView {
            ascii: self.ascii_glyph_region@,
            others: lru_entries(self.other_glyph_region),
            cap: lru_cap(self.other_glyph_region),
        }
    }
}

/// A slot for every ASCII character in every style; slots with distinct
/// keys, no more than there is room for.
pub open spec fn cache_wf(v: GlyphCacheView) -> bool {
    &&& v.ascii.len() == 0x80 * 4
    &&& keys_distinct(v.others)
    &&& v.others.len() <= v.cap
}

/// The key of a glyph other than ASCII: its character's code and its style's number.
pub open spec fn glyph_key(ch: char, style: FontStyle) -> (u32, u8) {
    (ch as u32, style_number(style) as u8)
}

/// The code of the placeholder character of the `k`-th slot: the `k + 1`-th
/// Unicode scalar value, counting from 1.
pub open spec fn placeholder_code(k: int) -> int {
    if k + 1 < 0xD800 {
        k + 1
    } else {
        k + 1 + 0x800
    }
}

/// The entry of the `k`-th slot before any glyph is put in it: held under a
/// placeholder character in the regular style, with the given metrics and no tag.
pub open spec fn placeholder(slots: Seq<PixelRect>, m: GlyphMetrics, k: int) -> ((u32, u8), GlyphSlot) {
    ((placeholder_code(k) as u32, 0u8), GlyphSlot { region: slots[k], metrics: m, tag: None })
}

/// The entries after the first `n` slots were pushed in order: the last
/// one pushed is the most recently used.
pub open spec fn placeholders(slots: Seq<PixelRect>, m: GlyphMetrics, n: int) -> Seq<((u32, u8), GlyphSlot)> {
    Seq::new(n as nat, |i: int| placeholder(slots, m, n - 1 - i))
}

/// Looking up glyph `ch` in `style` for frame `tag`: an ASCII glyph is read
/// from the ASCII regions; another is found by its key, moved to the front,
/// and given, its tag set to `tag`, unless its slot holds no glyph yet.
pub open spec fn get_spec(v: GlyphCacheView, ch: char, style: FontStyle, tag: u64) -> (GlyphCacheView, Option<(PixelRect, GlyphMetrics)>) {
    if (ch as u32) < 0x80 {
        (v, v.ascii[(ch as u32) * 4 + style_number(style)])
    } else {
        let k = glyph_key(ch, style);
        if !has_key(v.others, k) {
            (v, None)
        } else {
            let i = key_pos(v.others, k);
            let s = v.others[i].1;
            let moved = to_front(v.others, i);
            if s.tag is None {
                (GlyphCacheView { others: moved, ..v }, None)
            } else {
                (
                    GlyphCacheView { others: moved.update(0, (k, GlyphSlot { tag: Some(tag), ..s })), ..v },
                    Some((s.region, s.metrics)),
                )
            }
        }
    }
}

/// Putting the glyph `ch` in `style`, `w` by `h` pixels with metrics `m`,
/// for frame `tag`: it takes the least recently used slot, at its place in
/// the texture, and goes to the front.
pub open spec fn insert_spec(v: GlyphCacheView, ch: char, style: FontStyle, tag: u64, w: u32, h: u32, m: GlyphMetrics) -> (GlyphCacheView, (PixelRect, GlyphMetrics)) {
    let last = v.others.last().1;
    let region = PixelRect { w, h, ..last.region };
    let slot = GlyphSlot { region, metrics: m, tag: Some(tag) };
    (
        GlyphCacheView { others: pushed(v.others.drop_last(), v.cap, glyph_key(ch, style), slot), ..v },
        (region, m),
    )
}

/// The key of the entry at the front is found at the front.
proof fn lemma_front_key(es: Seq<((u32, u8), GlyphSlot)>)
    requires
        keys_distinct(es),
        es.len() > 0,
    ensures
        has_key(es, es[0].0),
        key_pos(es, es[0].0) == 0,
{
    assert(es[0].0 == es[0].0);
    let j = key_pos(es, es[0].0);
    if j != 0 {
        assert(es[j].0 == es[0].0);
    }
}

/// Moving an entry to the front keeps the keys distinct.
proof fn lemma_to_front_distinct(es: Seq<((u32, u8), GlyphSlot)>, i: int)
    requires
        keys_distinct(es),
        0 <= i < es.len(),
    ensures
        keys_distinct(to_front(es, i)),
        to_front(es, i).len() == es.len(),
        to_front(es, i)[0] == es[i],
{
    let t = to_front(es, i);
    assert forall|a: int, b: int| 0 <= a < t.len() && 0 <= b < t.len() && a != b implies (#[trigger] t[a]).0 != (#[trigger] t[b]).0 by {
        let ia = if a == 0 { i } else if a - 1 < i { a - 1 } else { a };
        let ib = if b == 0 { i } else if b - 1 < i { b - 1 } else { b };
        assert(t[a] == es[ia]);
        assert(t[b] == es[ib]);
    }
}

/// Pushing keeps the keys distinct and the entries within the room.
proof fn lemma_pushed_wf(es: Seq<((u32, u8), GlyphSlot)>, cap: nat, k: (u32, u8), v: GlyphSlot)
    requires
        keys_distinct(es),
        es.len() <= cap,
    ensures
        keys_distinct(pushed(es, cap, k, v)),
        pushed(es, cap, k, v).len() <= cap,
        cap > 0 ==> pushed(es, cap, k, v)[0] == (k, v),
{
    let p = pushed(es, cap, k, v);
    if has_key(es, k) {
        let i = key_pos(es, k);
        let t = to_front(es, i);
        lemma_to_front_distinct(es, i);
        assert(p =~= t.update(0, (k, v)));
        assert forall|a: int, b: int| 0 <= a < p.len() && 0 <= b < p.len() && a != b implies (#[trigger] p[a]).0 != (#[trigger] p[b]).0 by {
            assert(t[0].0 == k);
            if a != 0 {
                assert(p[a] == t[a]);
            }
            if b != 0 {
                assert(p[b] == t[b]);
            }
        }
    } else if cap == 0 {
    } else {
        let rest = if es.len() >= cap { es.drop_last() } else { es };
        assert(p =~= seq![(k, v)] + rest);
        assert forall|a: int, b: int| 0 <= a < p.len() && 0 <= b < p.len() && a != b implies (#[trigger] p[a]).0 != (#[trigger] p[b]).0 by {
            if a == 0 {
                assert(p[b] == rest[b - 1]);
                assert(p[b] == es[b - 1]);
            } else if b == 0 {
                assert(p[a] == rest[a - 1]);
                assert(p[a] == es[a - 1]);
            } else {
                assert(p[a] == es[a - 1]);
                assert(p[b] == es[b - 1]);
            }
        }
    }
}

/// The metrics of a drawn ASCII glyph.
pub open spec fn metrics_of(g: Option<(PixelRect, GlyphMetrics)>) -> GlyphMetrics {
    match g {
        Some((_, m)) => m,
        None => GlyphMetrics { hori_advance: 0, hori_bearing_y: 0, height: 0 },
    }
}

/// A glyph put in the cache is found there: looking it up right after,
/// for any frame, gives its place and metrics.
pub proof fn lemma_get_after_insert(
    v: GlyphCacheView,
    ch: char,
    style: FontStyle,
    tag: u64,
    w: u32,
    h: u32,
    m: GlyphMetrics,
    later: u64,
)
    requires
        cache_wf(v),
        v.others.len() > 0,
        (ch as u32) >= 0x80,
    ensures
        get_spec(insert_spec(v, ch, style, tag, w, h, m).0, ch, style, later).1 == Some(
            insert_spec(v, ch, style, tag, w, h, m).1,
        ),
{
    let rest = v.others.drop_last();
    assert forall|a: int, b: int| 0 <= a < rest.len() && 0 <= b < rest.len() && a != b implies (#[trigger] rest[a]).0 != (#[trigger] rest[b]).0 by {
        assert(rest[a] == v.others[a] && rest[b] == v.others[b]);
    }
    let (v2, r) = insert_spec(v, ch, style, tag, w, h, m);
    let k = glyph_key(ch, style);
    let slot = GlyphSlot { region: r.0, metrics: m, tag: Some(tag) };
    lemma_pushed_wf(rest, v.cap, k, slot);
    lemma_front_key(v2.others);
}

/// Whether `v` is a Unicode scalar value, the code of a `char`.
fn is_scalar_value(v: u32) -> (b: bool)
    ensures
        b == (v < 0xD800 || (0xE000 <= v && v <= 0x10FFFF)),
{
    v < 0xD800 || (0xE000 <= v && v <= 0x10FFFF)
}

/// The number of a style, `style_number`, as a byte.
fn style_code(style: FontStyle) -> (n: u8)
    ensures
        n == style_number(style),
{
    match style {
        FontStyle::Regular => 0,
        FontStyle::Bold => 1,
        FontStyle::Faint => 2,
    }
}

impl GlyphCache {
    /// The cache of the ASCII glyphs drawn at `ascii` (by glyph index) and
    /// of the slots `slots` for other glyphs, each holding a placeholder
    /// under a character of its own with the metrics of the regular space,
    /// the first slot the least recently used.
    pub fn build_ascii_visible(ascii: Vec<Option<(PixelRect, GlyphMetrics)>>, slots: &Vec<PixelRect>) -> (c: Self)
        requires
            ascii@.len() == 0x80 * 4,
            ascii@[0x80int] is Some,
            slots@.len() <= 0x10F7FF,
        ensures
            cache_wf(c@),
            c@ == (GlyphCacheView {
                ascii: ascii@,
                others: placeholders(slots@, metrics_of(ascii@[0x80int]), slots@.len() as int),
                cap: slots@.len() as nat,
            }),
    {
        let n = slots.len();
        let dummy_metrics = ascii[get_ascii_index(' ', FontStyle::Regular)].unwrap().1;
        let mut lru = lru_new(n);
        let mut dummy_next: u32 = 0;
        let mut k: usize = 0;
        while k < n
            invariant
                k <= n,
                n == slots@.len(),
                n <= 0x10F7FF,
                dummy_next == (if k == 0 { 0 } else { placeholder_code(k - 1) }),
                lru_cap(lru) == n,
                lru_entries(lru) == placeholders(slots@, dummy_metrics, k as int),
                keys_distinct(lru_entries(lru)),
                forall|i: int| 0 <= i < k ==> (#[trigger] lru_entries(lru)[i]).0.0 <= dummy_next,
            decreases n - k,
        {
            let ghost before = lru_entries(lru);
            loop
                invariant_except_break
                    k < n,
                    n <= 0x10F7FF,
                    (if k == 0 { 0 } else { placeholder_code(k - 1) }) <= dummy_next < placeholder_code(k as int),
                ensures
                    dummy_next == placeholder_code(k as int),
                decreases placeholder_code(k as int) - dummy_next,
            {
                dummy_next += 1;
                if is_scalar_value(dummy_next) {
                    break;
                }
            }
            let key = (dummy_next, 0u8);
            let val = GlyphSlot { region: slots[k], metrics: dummy_metrics, tag: None };
            proof {
                assert(dummy_next == placeholder_code(k as int));
                assert(!has_key(before, key)) by {
                    if has_key(before, key) {
                        let j = choose|j: int| 0 <= j < before.len() && (#[trigger] before[j]).0 == key;
                        assert(before[j].0.0 <= placeholder_code(k - 1));
                    }
                }
            }
            lru_push(&mut lru, key, val);
            proof {
                lemma_pushed_wf(before, n as nat, key, val);
                assert(lru_entries(lru) =~= placeholders(slots@, dummy_metrics, k + 1));
            }
            k += 1;
        }
        GlyphCache { ascii_glyph_region: ascii, other_glyph_region: lru }
    }

    /// The glyph `ch` in `style` as frame `tag` draws it: where it lies in
    /// the texture and its metrics, if it is there; see `get_spec`.
    pub fn get(&mut self, ch: char, style: FontStyle, tag: u64) -> (r: Option<(PixelRect, GlyphMetrics)>)
        requires
            cache_wf(old(self)@),
        ensures
            cache_wf(final(self)@),
            (final(self)@, r) == get_spec(old(self)@, ch, style, tag),
    {
        if (ch as u32) < 0x80 {
            let idx = get_ascii_index(ch, style);
            return self.ascii_glyph_region[idx];
        }
        let key = (ch as u32, style_code(style));
        let ghost es = lru_entries(self.other_glyph_region);
        match lru_get(&mut self.other_glyph_region, key) {
            None => None,
            Some(slot) => {
                let ghost i = key_pos(es, key);
                let ghost moved = to_front(es, i);
                proof {
                    lemma_to_front_distinct(es, i);
                    assert(es[i].0 == key);
                }
                if slot.tag.is_none() {
                    return None;
                }
                let updated = GlyphSlot { region: slot.region, metrics: slot.metrics, tag: Some(tag) };
                proof {
                    lemma_front_key(moved);
                }
                lru_push(&mut self.other_glyph_region, key, updated);
                proof {
                    lemma_pushed_wf(moved, lru_cap(self.other_glyph_region), key, updated);
                    assert(lru_entries(self.other_glyph_region) =~= moved.update(0, (key, updated)));
                }
                Some((slot.region, slot.metrics))
            },
        }
    }

    /// Whether the least recently used slot may take a new glyph for frame
    /// `tag`: not where that frame itself drew it; `None` where there is no
    /// slot at all.
    pub fn evictable(&self, tag: u64) -> (r: Option<bool>)
        ensures
            r == (if self@.others.len() == 0 {
                None
            } else {
                Some(self@.others.last().1.tag != Some(tag))
            }),
    {
        match lru_peek_lru(&self.other_glyph_region) {
            None => None,
            Some((_, slot)) => match slot.tag {
                Some(t) => Some(t != tag),
                None => Some(true),
            },
        }
    }

    /// Puts the glyph `ch` in `style`, `w` by `h` pixels with metrics
    /// `metrics`, drawn by frame `tag`, in the least recently used slot: its
    /// place in the texture, where the caller draws the glyph, and its
    /// metrics; see `insert_spec`.
    pub fn insert(&mut self, ch: char, style: FontStyle, tag: u64, w: u32, h: u32, metrics: GlyphMetrics) -> (r: (PixelRect, GlyphMetrics))
        requires
            cache_wf(old(self)@),
            old(self)@.others.len() > 0,
            (ch as u32) >= 0x80,
        ensures
            cache_wf(final(self)@),
            (final(self)@, r) == insert_spec(old(self)@, ch, style, tag, w, h, metrics),
    {
        let ghost es = lru_entries(self.other_glyph_region);
        let popped = lru_pop_lru(&mut self.other_glyph_region);
        let (_, last) = popped.unwrap();
        let region = PixelRect { x: last.region.x, y: last.region.y, w, h };
        let key = (ch as u32, style_code(style));
        let slot = GlyphSlot { region, metrics, tag: Some(tag) };
        proof {
            let rest = es.drop_last();
            assert forall|a: int, b: int| 0 <= a < rest.len() && 0 <= b < rest.len() && a != b implies (#[trigger] rest[a]).0 != (#[trigger] rest[b]).0 by {
                assert(rest[a] == es[a] && rest[b] == es[b]);
            }
        }
        lru_push(&mut self.other_glyph_region, key, slot);
        proof {
            lemma_pushed_wf(es.drop_last(), lru_cap(self.other_glyph_region), key, slot);
        }
        (region, metrics)
    }
}

} // verus!
