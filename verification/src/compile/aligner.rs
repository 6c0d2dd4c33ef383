//! The alignment of glyph advances and offsets by direction.

use crate::compile::font::Font;
use crate::compile::halfwidth::Halfwidth;
use crate::compile::spacing::floor_halfwidths;
use crate::compile::units::{halfwidth_unit, shrink_up, shrunk_up, snap};
use crate::fixed::{clamp_i64, saturate, trunc_raw, Fixed};
use vstd::prelude::*;

verus! {

/// The direction in which advances are rounded at a size.
#[derive(Clone, Copy, Debug, PartialEq, Eq, Structural)]
pub enum GlyphAlignDir {
    /// Down to the grid of the unit.
    Floor(Halfwidth),
    /// Up, after shrinking.
    Ceil,
    /// To nothing: below 1.25 pixels per em no glyph can be read, and widths collapse.
    Unit,
}

/// How the glyphs of a typeface are aligned at a size.
#[derive(Clone, Copy, Debug, PartialEq, Eq, Structural)]
pub struct GlyphAligner {
    pub is_code: bool,
    pub dir: GlyphAlignDir,
}

impl GlyphAlignDir {
    /// The direction at `pixels_per_em`: to nothing below 1.25 pixels, up below 2 pixels,
    /// and down to the grid of `halfwidth` from there on.
    pub fn new(pixels_per_em: Fixed, halfwidth: Halfwidth) -> (dir: Self)
        ensures
            pixels_per_em@ < 81920 ==> dir == GlyphAlignDir::Unit,
            81920 <= pixels_per_em@ < 131072 ==> dir == GlyphAlignDir::Ceil,
            131072 <= pixels_per_em@ ==> dir == GlyphAlignDir::Floor(halfwidth),
    {
        if pixels_per_em.raw < 81920 {
            GlyphAlignDir::Unit
        } else if pixels_per_em.raw < 131072 {
            GlyphAlignDir::Ceil
        } else {
            GlyphAlignDir::Floor(halfwidth)
        }
    }

    pub fn from_font(font: &Font, pixels_per_em: Fixed) -> (dir: Self)
        ensures
            pixels_per_em@ < 81920 ==> dir == GlyphAlignDir::Unit,
            81920 <= pixels_per_em@ < 131072 ==> dir == GlyphAlignDir::Ceil,
            131072 <= pixels_per_em@ ==> dir == GlyphAlignDir::Floor(
                Halfwidth(
                    Fixed {
                        raw: halfwidth_unit(
                            pixels_per_em@,
                            font.spec_halfwidth_thousandths(),
                        ) as i64,
                    },
                ),
            ),
    {
        let halfwidth = Halfwidth(pixels_per_em.scale(font.halfwidth_thousandths(), 1000));
        Self::new(pixels_per_em, halfwidth)
    }

    /// The advance width in the direction: on the grid with its sign, or shrunk by the
    /// factor 1.2 and rounded up, or zero. An advance of zero stays zero.
    pub open spec fn spec_halfwidths(&self, advance_width: Fixed) -> int {
        if advance_width@ != 0 {
            match self {
                GlyphAlignDir::Floor(h) => floor_halfwidths(advance_width@, h.0@),
                GlyphAlignDir::Ceil => clamp_i64(shrunk_up(advance_width@)),
                GlyphAlignDir::Unit => 0,
            }
        } else {
            0
        }
    }

    pub fn halfwidths(&self, advance_width: Fixed) -> (r: Fixed)
        requires
            self matches GlyphAlignDir::Floor(h) ==> h.0@ > 0,
        ensures
            r@ == self.spec_halfwidths(advance_width),
    {
        if advance_width.raw == 0 {
            return advance_width;
        }
        match self {
            GlyphAlignDir::Floor(h) => {
                let whole = advance_width.floor();
                if advance_width.raw > 0 {
                    Fixed { raw: snap(whole.raw, h.0.raw) }
                } else {
                    let away = saturate(-(whole.raw as i128));
                    Fixed { raw: saturate(-(snap(away, h.0.raw) as i128)) }
                }
            },
            GlyphAlignDir::Ceil => Fixed { raw: shrink_up(advance_width.raw) },
            GlyphAlignDir::Unit => Fixed::zero(),
        }
    }

    /// The horizontal offset in the direction: an offset to the left is moved to the right
    /// by the fraction of the unit of the grid; every other offset stays.
    pub open spec fn spec_counteract(&self, x_offset: Fixed) -> int {
        if x_offset@ < 0 {
            match self {
                GlyphAlignDir::Floor(h) => clamp_i64(x_offset@ + (h.0@ - trunc_raw(h.0@))),
                _ => x_offset@,
            }
        } else {
            x_offset@
        }
    }

    pub fn counteract(&self, x_offset: Fixed) -> (r: Fixed)
        ensures
            r@ == self.spec_counteract(x_offset),
    {
        if x_offset.raw < 0 {
            match self {
                GlyphAlignDir::Floor(h) => x_offset.saturating_add(h.0.fract()),
                _ => x_offset,
            }
        } else {
            x_offset
        }
    }
}

impl GlyphAligner {
    pub fn from_font(font: &Font, pixels_per_em: Fixed) -> (aligner: Self)
        ensures
            aligner.is_code == font.spec_is_code(),
            pixels_per_em@ < 81920 ==> aligner.dir == GlyphAlignDir::Unit,
            81920 <= pixels_per_em@ < 131072 ==> aligner.dir == GlyphAlignDir::Ceil,
            131072 <= pixels_per_em@ ==> (aligner.dir matches GlyphAlignDir::Floor(h) && h.0@
                == halfwidth_unit(pixels_per_em@, font.spec_halfwidth_thousandths())),
    {
        GlyphAligner { is_code: font.is_code(), dir: GlyphAlignDir::from_font(font, pixels_per_em) }
    }

    /// The advance width of a typeface of fixed pitch in the aligner's direction; one of
    /// variable width keeps its advances.
    pub fn round_halfwidths(&self, advance_width: Fixed) -> (r: Fixed)
        requires
            self.dir matches GlyphAlignDir::Floor(h) ==> h.0@ > 0,
        ensures
            self.is_code ==> r@ == self.dir.spec_halfwidths(advance_width),
            !self.is_code ==> r == advance_width,
    {
        if self.is_code {
            self.dir.halfwidths(advance_width)
        } else {
            advance_width
        }
    }

    /// The horizontal offset of a typeface of fixed pitch in the aligner's direction; one
    /// of variable width keeps its offsets.
    pub fn round_counteract(&self, x_offset: Fixed) -> (r: Fixed)
        ensures
            self.is_code ==> r@ == self.dir.spec_counteract(x_offset),
            !self.is_code ==> r == x_offset,
    {
        if self.is_code {
            self.dir.counteract(x_offset)
        } else {
            x_offset
        }
    }
}

} // verus!
