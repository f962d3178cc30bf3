//! The metrics of a font, as 16.16 fixed-point numbers, with the values
//! that stand in for those that the font does not state.

use vstd::prelude::*;
use crate::scaled_math::trunc_div;

verus! {

/// The metrics of a font, each in units of 1/65536.
#[derive(Copy, Clone, Debug, PartialEq, Eq, Structural)]
pub struct FontMetrics {
    pub ascent: i32,
    pub descent: i32,
    pub x_height: i32,
    pub cap_height: i32,
    pub slant: i32,
}

/// What was found out about the glyph of a letter: the glyph, which is 0
/// where the font has none for the letter, and its height.
#[derive(Copy, Clone, Debug, PartialEq, Eq, Structural)]
pub struct GlyphProbe {
    pub glyph_id: u32,
    pub height: i32,
}

/// A height that the font may not state: the stated height where it is
/// not zero; else the height of the letter's glyph, or `fallback` where
/// the font has no glyph for the letter.
pub open spec fn height_or_fallback(stated: i32, probe: GlyphProbe, fallback: int) -> int {
    if stated != 0 {
        stated as int
    } else if probe.glyph_id == 0 {
        fallback
    } else {
        probe.height as int
    }
}

/// The metrics of a font, given what the font states and what was found
/// out about the glyphs of `x` and `X`. An x-height that is not stated is
/// the height of `x`, or half the ascent; a cap-height that is not stated
/// is the height of `X`, or the ascent.
pub fn ot_get_font_metrics(stated: FontMetrics, x: GlyphProbe, cap: GlyphProbe) -> (r: FontMetrics)
    ensures
        r.ascent == stated.ascent,
        r.descent == stated.descent,
        r.slant == stated.slant,
        r.x_height == height_or_fallback(stated.x_height, x, trunc_div(stated.ascent as int, 2)),
        r.cap_height == height_or_fallback(stated.cap_height, cap, stated.ascent as int),
{
    let mut x_height: i32 = stated.x_height;
    if x_height == 0 {
        if x.glyph_id == 0 {
            x_height = stated.ascent / 2;
        } else {
            x_height = x.height;
        }
    }
    let mut cap_height: i32 = stated.cap_height;
    if cap_height == 0 {
        if cap.glyph_id == 0 {
            cap_height = stated.ascent;
        } else {
            cap_height = cap.height;
        }
    }
    FontMetrics {
        ascent: stated.ascent,
        descent: stated.descent,
        x_height,
        cap_height,
        slant: stated.slant,
    }
}

/// Which letters the metrics need the glyphs of: `x` where the x-height
/// is not stated, `X` where the cap-height is not.
pub fn letters_to_probe(stated: FontMetrics) -> (r: (bool, bool))
    ensures
        r.0 == (stated.x_height == 0),
        r.1 == (stated.cap_height == 0),
{
    (stated.x_height == 0, stated.cap_height == 0)
}

} // verus!
