//! The spacing of glyphs: advances on the cell grid, and offsets that make up for it.

use crate::compile::font::Font;
use crate::compile::units::{shrink_up, shrunk_up, snap, snapped, Halfwidth};
use crate::fixed::{clamp_i64, floor_raw, saturate, trunc_raw, Fixed};
use vstd::prelude::*;

verus! {

/// How the glyphs of a typeface are spaced at a size.
#[derive(Clone, Copy, Debug, PartialEq, Eq, Structural)]
pub struct GlyphSpacing {
    pub halfwidth: Halfwidth,
    pub is_code: bool,
}

/// The advance `advance` on the grid: its whole pixels, counted away from zero for a
/// negative one, snapped to the unit `h`, with the advance's sign.
pub open spec fn floor_halfwidths(advance: int, h: int) -> int {
    if advance > 0 {
        clamp_i64(snapped(clamp_i64(floor_raw(advance)), h))
    } else if advance < 0 {
        clamp_i64(-clamp_i64(snapped(clamp_i64(-floor_raw(advance)), h)))
    } else {
        0
    }
}

/// The advance `advance` shrunk by the factor 1.2 and rounded away from zero to whole
/// pixels.
pub open spec fn ceil_halfwidths(advance: int) -> int {
    if advance > 0 {
        clamp_i64(shrunk_up(advance))
    } else if advance < 0 {
        clamp_i64(-clamp_i64(shrunk_up(clamp_i64(-advance))))
    } else {
        0
    }
}

impl GlyphSpacing {
    pub fn from_font(font: &Font, pixels_per_em: Fixed) -> (spacing: Self)
        ensures
            spacing.halfwidth == Halfwidth::spec_new(
                pixels_per_em,
                font.spec_halfwidth_thousandths(),
            ),
            spacing.is_code == font.spec_is_code(),
    {
        GlyphSpacing { halfwidth: Halfwidth::from_font(font, pixels_per_em), is_code: font.is_code() }
    }

    /// Whether the spacing has a unit to snap to: every unit is above zero.
    pub open spec fn wf(&self) -> bool {
        self.halfwidth matches Halfwidth::Floor(h) ==> h@ > 0
    }

    /// The advance width of a glyph whose outline advances by `advance_width`. A typeface of
    /// variable width keeps the advances of its outlines, and so does an advance of zero.
    pub open spec fn spec_halfwidths(&self, advance_width: Fixed) -> int {
        if self.is_code && advance_width@ != 0 {
            match self.halfwidth {
                Halfwidth::Floor(h) => floor_halfwidths(advance_width@, h@),
                Halfwidth::Ceil => ceil_halfwidths(advance_width@),
                Halfwidth::Zero => 0,
            }
        } else {
            advance_width@
        }
    }

    pub fn halfwidths(&self, advance_width: Fixed) -> (r: Fixed)
        requires
            self.wf(),
        ensures
            r@ == self.spec_halfwidths(advance_width),
    {
        if !self.is_code || advance_width.raw == 0 {
            return advance_width;
        }
        match self.halfwidth {
            Halfwidth::Floor(h) => {
                let whole = advance_width.floor();
                if advance_width.raw > 0 {
                    Fixed { raw: snap(whole.raw, h.raw) }
                } else {
                    let away = saturate(-(whole.raw as i128));
                    Fixed { raw: saturate(-(snap(away, h.raw) as i128)) }
                }
            },
            Halfwidth::Ceil => {
                if advance_width.raw > 0 {
                    Fixed { raw: shrink_up(advance_width.raw) }
                } else {
                    let size = saturate(-(advance_width.raw as i128));
                    Fixed { raw: saturate(-(shrink_up(size) as i128)) }
                }
            },
            Halfwidth::Zero => Fixed::zero(),
        }
    }

    /// The horizontal offset of a glyph whose outline is offset by `x_offset`: moved toward
    /// zero by the fraction of the unit, or one pixel in its direction, or none. A typeface
    /// of variable width keeps the offsets of its outlines, and so does an offset of zero.
    pub open spec fn spec_compensate(&self, x_offset: Fixed) -> int {
        if self.is_code && x_offset@ != 0 {
            match self.halfwidth {
                Halfwidth::Floor(h) => if x_offset@ > 0 {
                    clamp_i64(x_offset@ - (h@ - trunc_raw(h@)))
                } else {
                    clamp_i64(x_offset@ + (h@ - trunc_raw(h@)))
                },
                Halfwidth::Ceil => if x_offset@ > 0 {
                    65536
                } else {
                    -65536
                },
                Halfwidth::Zero => 0,
            }
        } else {
            x_offset@
        }
    }

    pub fn compensate(&self, x_offset: Fixed) -> (r: Fixed)
        ensures
            r@ == self.spec_compensate(x_offset),
    {
        if !self.is_code || x_offset.raw == 0 {
            return x_offset;
        }
        match self.halfwidth {
            Halfwidth::Floor(h) => {
                if x_offset.raw > 0 {
                    x_offset.saturating_sub(h.fract())
                } else {
                    x_offset.saturating_add(h.fract())
                }
            },
            Halfwidth::Ceil => {
                if x_offset.raw > 0 {
                    Fixed::from_int(1)
                } else {
                    Fixed::from_int(-1)
                }
            },
            Halfwidth::Zero => Fixed::zero(),
        }
    }
}

} // verus!
