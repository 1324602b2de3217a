//! Font styles.

use vstd::prelude::*;

verus! {

/// The styles a glyph can be drawn in.
#[derive(Debug, Clone, Copy, PartialEq, Eq, Hash, Structural)]
pub enum FontStyle {
    Regular,
    Bold,
    Faint,
}

impl FontStyle {
    /// Every style, regular first.
    pub fn all() -> (r: [FontStyle; 3])
        ensures
            r@ == seq![FontStyle::Regular, FontStyle::Bold, FontStyle::Faint],
    {
        let r = [FontStyle::Regular, FontStyle::Bold, FontStyle::Faint];
        assert(r@ =~= seq![FontStyle::Regular, FontStyle::Bold, FontStyle::Faint]);
        r
    }
}

/// The metrics of a glyph that the cell size depends on, in 1/64 pixel:
/// how far the pen advances, how far the glyph reaches above the baseline,
/// and its height.
#[derive(Debug, Clone, Copy, PartialEq, Eq, Structural)]
pub struct GlyphMetrics {
    pub hori_advance: i64,
    pub hori_bearing_y: i64,
    pub height: i64,
}

} // verus!
