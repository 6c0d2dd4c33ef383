//! The vertical measures of a font, in pixels above the baseline.

use crate::fixed::{floor_div, Fixed};
use crate::rect::{extent_between, extent_of, to_i32_clamped};
use vstd::prelude::*;

verus! {

/// The line of a font that text is placed by.
#[derive(Clone, Copy, Debug, PartialEq, Eq, Structural, Hash)]
pub enum Baseline {
    Top,
    Bottom,
    Middle,
    Alphabetic,
}

/// The heights of the lines of a font above its baseline; those below it are negative.
#[derive(Clone, Copy, Debug, PartialEq, Eq, Structural)]
pub struct BitmapFontMetrics {
    pub top: Fixed,
    pub ascender: Fixed,
    pub cap_height: Fixed,
    pub x_height: Fixed,
    pub baseline: Fixed,
    pub descender: Fixed,
    pub bottom: Fixed,
}

/// Where a line under or through the text lies, and how thick it is.
#[derive(Clone, Copy, Debug, PartialEq, Eq, Structural)]
pub struct DecorationDimensions {
    pub offset: Fixed,
    pub height: Fixed,
}

/// `raw` units as whole pixels, rounded up and clamped to `i32`.
pub open spec fn pixels_up(raw: int) -> i32 {
    to_i32_clamped(-((-raw) / 65536))
}

/// Half of `raw` units as whole pixels, rounded up and clamped to `i32`.
pub open spec fn half_pixels_up(raw: int) -> i32 {
    to_i32_clamped(-((-raw) / 131072))
}

fn round_up(raw: i64, halved: bool) -> (r: i32)
    ensures
        !halved ==> r == pixels_up(raw as int),
        halved ==> r == half_pixels_up(raw as int),
{
    let down: i128 = if halved {
        floor_div(-(raw as i128), 131072)
    } else {
        floor_div(-(raw as i128), 65536)
    };
    let up: i128 = -down;
    if up < -2147483648i128 {
        i32::MIN
    } else if up > 2147483647i128 {
        i32::MAX
    } else {
        up as i32
    }
}

impl BitmapFontMetrics {
    /// The measures of a font without height.
    pub fn null() -> (m: Self)
        ensures
            m.in_order(),
            m.top@ == 0 && m.bottom@ == 0 && m.x_height@ == 0 && m.baseline@ == 0,
    {
        let zero = Fixed::zero();
        BitmapFontMetrics {
            top: zero,
            ascender: zero,
            cap_height: zero,
            x_height: zero,
            baseline: zero,
            descender: zero,
            bottom: zero,
        }
    }

    /// Whether no line lies above one that is named before it.
    pub open spec fn in_order(&self) -> bool {
        self.top@ >= self.ascender@ >= self.cap_height@ >= self.x_height@ >= self.baseline@
            >= self.descender@ >= self.bottom@
    }

    /// The whole pixels from the baseline up to the line that `baseline` names, rounded up;
    /// the middle line is at half the x-height.
    pub open spec fn spec_y_offset(&self, baseline: Baseline) -> i32 {
        match baseline {
            Baseline::Top => pixels_up(self.top@),
            Baseline::Bottom => pixels_up(self.bottom@),
            Baseline::Middle => half_pixels_up(self.x_height@),
            Baseline::Alphabetic => pixels_up(self.baseline@),
        }
    }

    pub fn y_offset(&self, baseline: Baseline) -> (r: i32)
        ensures
            r == self.spec_y_offset(baseline),
    {
        match baseline {
            Baseline::Top => round_up(self.top.raw, false),
            Baseline::Bottom => round_up(self.bottom.raw, false),
            Baseline::Middle => round_up(self.x_height.raw, true),
            Baseline::Alphabetic => round_up(self.baseline.raw, false),
        }
    }

    /// The rows from the top line to the bottom line; none where the top is not above the
    /// bottom.
    pub open spec fn spec_line_height(&self) -> u32 {
        extent_of(
            to_i32_clamped(
                self.spec_y_offset(Baseline::Top) - self.spec_y_offset(Baseline::Bottom),
            ),
        )
    }

    pub fn line_height(&self) -> (r: u32)
        ensures
            r == self.spec_line_height(),
    {
        extent_between(self.y_offset(Baseline::Bottom), self.y_offset(Baseline::Top))
    }
}

impl DecorationDimensions {
    pub fn null() -> (d: Self)
        ensures
            d.offset@ == 0 && d.height@ == 0,
    {
        DecorationDimensions { offset: Fixed::zero(), height: Fixed::zero() }
    }

    /// The whole pixels from the baseline up to the top of the line, rounded up.
    pub fn y_offset(&self) -> (r: i32)
        ensures
            r == pixels_up(self.offset@),
    {
        round_up(self.offset.raw, false)
    }

    /// The rows of the line, rounded up; a negative height is no row.
    pub fn stroke_width(&self) -> (r: u32)
        ensures
            r == extent_of(pixels_up(self.height@)),
    {
        let rows = round_up(self.height.raw, false);
        if rows < 0 {
            0
        } else {
            rows as u32
        }
    }
}

/// A line that is not below another one is not below it after rounding either, so the
/// line height of measures that are in order is the distance of the two rounded lines.
pub proof fn lemma_line_height_in_order(m: BitmapFontMetrics)
    requires
        m.in_order(),
    ensures
        m.spec_y_offset(Baseline::Top) >= m.spec_y_offset(Baseline::Alphabetic) >= m.spec_y_offset(
            Baseline::Bottom,
        ),
        m.spec_line_height() as int == to_i32_clamped(
            m.spec_y_offset(Baseline::Top) - m.spec_y_offset(Baseline::Bottom),
        ),
{
}

} // verus!
