use toyterm::cache::{glyph_slots, GlyphCache};
use toyterm::font::{FontStyle, GlyphMetrics};
use toyterm::view::PixelRect;

fn metrics(advance: i64) -> GlyphMetrics {
    GlyphMetrics { hori_advance: advance, hori_bearing_y: 10, height: 12 }
}

fn rect(x: i32, y: i32, w: u32, h: u32) -> PixelRect {
    PixelRect { x, y, w, h }
}

fn ascii_regions() -> Vec<Option<(PixelRect, GlyphMetrics)>> {
    let mut ascii = vec![None; 0x80 * 4];
    ascii[0x20 * 4] = Some((rect(0, 0, 0, 0), metrics(8)));
    ascii[('A' as usize) * 4 + 1] = Some((rect(8, 36, 7, 11), metrics(8)));
    ascii
}

#[test]
fn ascii_glyphs_are_read_from_their_regions() {
    let mut cache = GlyphCache::build_ascii_visible(ascii_regions(), &Vec::new());
    assert_eq!(cache.get('A', FontStyle::Bold, 1), Some((rect(8, 36, 7, 11), metrics(8))));
    assert_eq!(cache.get('A', FontStyle::Regular, 1), None);
    assert_eq!(cache.get('B', FontStyle::Bold, 1), None);
    assert_eq!(cache.get('é', FontStyle::Regular, 1), None);
}

#[test]
fn a_cache_without_slots_has_nothing_to_evict() {
    let cache = GlyphCache::build_ascii_visible(ascii_regions(), &Vec::new());
    assert_eq!(cache.evictable(0), None);
}

#[test]
fn glyphs_take_the_least_recently_used_slot() {
    let slots = glyph_slots(100, 40, 15, 20, 15);
    assert_eq!(slots, vec![rect(0, 100, 0, 0), rect(20, 100, 0, 0)]);
    let mut cache = GlyphCache::build_ascii_visible(ascii_regions(), &slots);
    assert_eq!(cache.get('é', FontStyle::Regular, 1), None);
    assert_eq!(cache.evictable(1), Some(true));

    let e = cache.insert('é', FontStyle::Regular, 1, 7, 12, metrics(7));
    assert_eq!(e, (rect(0, 100, 7, 12), metrics(7)));
    assert_eq!(cache.get('é', FontStyle::Regular, 2), Some(e));
    assert_eq!(cache.get('é', FontStyle::Bold, 2), None);

    let s = cache.insert('ß', FontStyle::Regular, 2, 6, 12, metrics(6));
    assert_eq!(s, (rect(20, 100, 6, 12), metrics(6)));

    // 'é' was used last by frame 3, so 'ß' (frame 2) is now the least recently used.
    assert_eq!(cache.get('é', FontStyle::Regular, 3), Some(e));
    assert_eq!(cache.evictable(2), Some(false));
    assert_eq!(cache.evictable(3), Some(true));

    let n = cache.insert('ñ', FontStyle::Regular, 3, 7, 12, metrics(7));
    assert_eq!(n, (rect(20, 100, 7, 12), metrics(7)));
    assert_eq!(cache.get('ß', FontStyle::Regular, 3), None);
    assert_eq!(cache.get('é', FontStyle::Regular, 3), Some(e));
    assert_eq!(cache.get('ñ', FontStyle::Regular, 3), Some(n));
}
