//! The alignment of the advance of a whole cluster to the cell grid.

use crate::compile::font::Font;
use crate::compile::units::{halfwidth_unit, shrink_up, shrunk_up, snap, snapped};
use crate::fixed::{clamp_i64, floor_raw, Fixed};
use vstd::prelude::*;

verus! {

/// A half-width unit in pixels.
#[derive(Clone, Copy, Debug, PartialEq, Eq, Structural)]
pub struct Halfwidth(pub Fixed);

/// How the advances of clusters are aligned at a size.
#[derive(Clone, Copy, Debug, PartialEq, Eq, Structural)]
pub enum PixelAlignmentStrategy {
    Floor(Halfwidth),
    Ceil,
    Zero,
}

/// An advance width in whole pixels, with the strategy that aligns it.
#[derive(Clone, Copy, Debug, PartialEq, Eq, Structural)]
pub struct AdjustableAdvanceWidth {
    pub strategy: PixelAlignmentStrategy,
    pub advance_width: Fixed,
}

impl Halfwidth {
    /// What is added to `advance_width` to put it on the grid of the unit.
    pub fn adjustment(&self, advance_width: Fixed) -> (r: Fixed)
        requires
            self.0@ > 0,
        ensures
            r@ == clamp_i64(clamp_i64(snapped(advance_width@, self.0@)) - advance_width@),
    {
        let on_grid = Fixed { raw: snap(advance_width.raw, self.0.raw) };
        on_grid.saturating_sub(advance_width)
    }
}

impl PixelAlignmentStrategy {
    /// The strategy at `pixels_per_em`, for a half cell of `thousandths` of an em: none
    /// below 1.25 pixels, rounding up below 2 pixels, and the grid from there on.
    pub open spec fn spec_new(pixels_per_em: Fixed, thousandths: int) -> PixelAlignmentStrategy {
        if pixels_per_em@ < 81920 {
            PixelAlignmentStrategy::Zero
        } else if pixels_per_em@ < 131072 {
            PixelAlignmentStrategy::Ceil
        } else {
            PixelAlignmentStrategy::Floor(
                Halfwidth(Fixed { raw: halfwidth_unit(pixels_per_em@, thousandths) as i64 }),
            )
        }
    }

    pub fn new(pixels_per_em: Fixed, thousandths: i64) -> (strategy: Self)
        ensures
            strategy == Self::spec_new(pixels_per_em, thousandths as int),
    {
        if pixels_per_em.raw < 81920 {
            PixelAlignmentStrategy::Zero
        } else if pixels_per_em.raw < 131072 {
            PixelAlignmentStrategy::Ceil
        } else {
            PixelAlignmentStrategy::Floor(Halfwidth(pixels_per_em.scale(thousandths, 1000)))
        }
    }

    pub fn from_font(font: &Font, pixels_per_em: Fixed) -> (strategy: Self)
        ensures
            strategy == Self::spec_new(pixels_per_em, font.spec_halfwidth_thousandths()),
    {
        Self::new(pixels_per_em, font.halfwidth_thousandths())
    }

    /// The advance width in whole pixels: rounded down, or shrunk by the factor 1.2 and
    /// rounded up, or zero.
    pub open spec fn spec_whole(&self, advance_width: Fixed) -> int {
        match self {
            PixelAlignmentStrategy::Floor(_) => clamp_i64(floor_raw(advance_width@)),
            PixelAlignmentStrategy::Ceil => clamp_i64(shrunk_up(advance_width@)),
            PixelAlignmentStrategy::Zero => 0,
        }
    }

    pub fn with_advance_width(&self, advance_width: Fixed) -> (r: AdjustableAdvanceWidth)
        ensures
            r.strategy == *self,
            r.advance_width@ == self.spec_whole(advance_width),
    {
        let whole = match self {
            PixelAlignmentStrategy::Floor(_) => advance_width.floor(),
            PixelAlignmentStrategy::Ceil => Fixed { raw: shrink_up(advance_width.raw) },
            PixelAlignmentStrategy::Zero => Fixed::zero(),
        };
        AdjustableAdvanceWidth { strategy: *self, advance_width: whole }
    }
}

impl AdjustableAdvanceWidth {
    /// What is added to the advance width to align it: the step to the grid, or nothing.
    pub fn adjustment(&self) -> (r: Fixed)
        requires
            self.strategy matches PixelAlignmentStrategy::Floor(h) ==> h.0@ > 0,
        ensures
            self.strategy matches PixelAlignmentStrategy::Floor(h) ==> r@ == clamp_i64(
                clamp_i64(snapped(self.advance_width@, h.0@)) - self.advance_width@,
            ),
            !(self.strategy is Floor) ==> r@ == 0,
    {
        match self.strategy {
            PixelAlignmentStrategy::Floor(h) => h.adjustment(self.advance_width),
            _ => Fixed::zero(),
        }
    }

    pub fn into_inner(self) -> (r: Fixed)
        ensures
            r == self.advance_width,
    {
        self.advance_width
    }
}

} // verus!
