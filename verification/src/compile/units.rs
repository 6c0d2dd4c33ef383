//! The half-width unit of the cell grid of a typeface of fixed pitch.

use crate::compile::font::Font;
use crate::fixed::{clamp_i64, floor_div, floor_raw, saturate, Fixed};
use vstd::prelude::*;

verus! {

/// How advances are put on the grid at a size: on multiples of a half-width unit, rounded up
/// after shrinking, or not at all.
#[derive(Clone, Copy, Debug, PartialEq, Eq, Structural)]
pub enum Halfwidth {
    /// From 2 pixels per em on: multiples of the unit that is held.
    Floor(Fixed),
    /// From 1.25 pixels per em on.
    Ceil,
    /// Below that, where nothing can be read.
    Zero,
}

/// The half-width unit at `pixels_per_em` for a typeface whose half cell takes
/// `thousandths` of an em, rounded down to the next raw unit.
pub open spec fn halfwidth_unit(pixels_per_em: int, thousandths: int) -> int {
    clamp_i64((pixels_per_em * thousandths) / 1000)
}

/// The number of units that are added to the whole pixels of the unit `h` to reach
/// `advance`: the least number with which the sum is not more than two fifths of a unit
/// short of `advance`.
pub open spec fn snap_steps(advance: int, h: int) -> int {
    let short = 5 * (advance - floor_raw(h)) - 2 * h;
    if short <= 0 {
        0
    } else {
        (short + 5 * h - 1) / (5 * h)
    }
}

/// `advance` on the grid of the unit `h`: the whole pixels of the unit and
/// [`snap_steps`] units, rounded down to whole pixels.
pub open spec fn snapped(advance: int, h: int) -> int {
    floor_raw(floor_raw(h) + snap_steps(advance, h) * h)
}

/// `raw * 5 / 6`, rounded up to whole pixels: what is left of an advance that is shrunk
/// by the factor 1.2.
pub open spec fn shrunk_up(raw: int) -> int {
    -((-(raw * 5)) / 393216) * 65536
}

/// [`snap_steps`] is the least number of steps that reaches the advance.
pub proof fn lemma_snap_steps_least(advance: int, h: int)
    requires
        h > 0,
    ensures
        snap_steps(advance, h) >= 0,
        5 * (advance - floor_raw(h) - snap_steps(advance, h) * h) <= 2 * h,
        snap_steps(advance, h) > 0 ==> 5 * (advance - floor_raw(h) - (snap_steps(advance, h) - 1)
            * h) > 2 * h,
{
    let short = 5 * (advance - floor_raw(h)) - 2 * h;
    if short > 0 {
        let k = (short + 5 * h - 1) / (5 * h);
        let r = (short + 5 * h - 1) % (5 * h);
        vstd::arithmetic::div_mod::lemma_fundamental_div_mod(short + 5 * h - 1, 5 * h);
        vstd::arithmetic::div_mod::lemma_mod_pos_bound(short + 5 * h - 1, 5 * h);
        assert(short + 5 * h - 1 == (5 * h) * k + r);
        assert(5 * (k * h) == (5 * h) * k) by (nonlinear_arith);
        assert(5 * ((k - 1) * h) == (5 * h) * k - 5 * h) by (nonlinear_arith);
        assert(k >= 1) by (nonlinear_arith)
            requires
                short + 5 * h - 1 == (5 * h) * k + r,
                0 <= r < 5 * h,
                short > 0,
                h > 0,
        ;
    } else {
        assert(0 * h == 0);
    }
}

/// `advance` on the grid of the unit `h`, clamped.
pub fn snap(advance: i64, h: i64) -> (r: i64)
    requires
        h > 0,
    ensures
        r == clamp_i64(snapped(advance as int, h as int)),
{
    let base: i128 = floor_div(h as i128, 65536) * 65536;
    let short: i128 = 5 * (advance as i128 - base) - 2 * (h as i128);
    let steps: i128 = if short <= 0 {
        0
    } else {
        floor_div(short + 5 * (h as i128) - 1, 5 * (h as i128))
    };
    proof {
        lemma_snap_steps_least(advance as int, h as int);
        let k = steps as int;
        assert(k == snap_steps(advance as int, h as int));
        assert(0 <= k * (h as int) <= 0x2_0000_0000_0000_0000) by (nonlinear_arith)
            requires
                k >= 0,
                h as int > 0,
                k > 0 ==> 5 * (advance as int - base as int - (k - 1) * (h as int)) > 2 * (
                h as int),
                -0x8000_0000_0000_0000 <= advance as int <= 0x7fff_ffff_ffff_ffff,
                0 <= base as int <= 0x7fff_ffff_ffff_ffff,
                h as int <= 0x7fff_ffff_ffff_ffff,
        ;
    }
    let stepped: i128 = base + wide_steps(steps, h);
    saturate(floor_div(stepped, 65536) * 65536)
}

fn wide_steps(steps: i128, h: i64) -> (r: i128)
    requires
        0 <= steps * h <= 0x2_0000_0000_0000_0000,
        h > 0,
        steps >= 0,
    ensures
        r == steps * h,
{
    proof {
        assert(steps <= 0x2_0000_0000_0000_0000) by (nonlinear_arith)
            requires
                0 <= steps * h <= 0x2_0000_0000_0000_0000,
                h >= 1,
                steps >= 0,
        ;
    }
    steps * (h as i128)
}

impl Halfwidth {
    /// How advances are put on the grid at `pixels_per_em`.
    pub open spec fn spec_new(pixels_per_em: Fixed, thousandths: int) -> Halfwidth {
        if pixels_per_em@ < 81920 {
            Halfwidth::Zero
        } else if pixels_per_em@ < 131072 {
            Halfwidth::Ceil
        } else {
            Halfwidth::Floor(Fixed { raw: halfwidth_unit(pixels_per_em@, thousandths) as i64 })
        }
    }

    pub fn from_font(font: &Font, pixels_per_em: Fixed) -> (halfwidth: Self)
        ensures
            halfwidth == Self::spec_new(pixels_per_em, font.spec_halfwidth_thousandths()),
    {
        if pixels_per_em.raw < 81920 {
            Halfwidth::Zero
        } else if pixels_per_em.raw < 131072 {
            Halfwidth::Ceil
        } else {
            Halfwidth::Floor(pixels_per_em.scale(font.halfwidth_thousandths(), 1000))
        }
    }
}

/// `raw * 5 / 6`, rounded up to whole pixels and clamped.
pub fn shrink_up(raw: i64) -> (r: i64)
    ensures
        r == clamp_i64(shrunk_up(raw as int)),
{
    let down: i128 = floor_div(-((raw as i128) * 5), 393216);
    saturate(-down * 65536)
}

} // verus!
