//! Fractional pixel quantities.
//!
//! Advances, offsets and metrics are measured in pixels with a fractional part. They are held
//! as signed fixed-point numbers with sixteen fractional bits, so that every operation on them
//! is exact integer arithmetic with a result that is the same on every machine. Operations that
//! could leave the representable range clamp to its ends.

use vstd::prelude::*;

verus! {

/// A pixel quantity: `raw / 65536` pixels.
#[derive(Clone, Copy, Debug, PartialEq, Eq, Structural, PartialOrd, Ord, Hash)]
pub struct Fixed {
    pub raw: i64,
}

/// Clamps an integer to the range of `i64`.
pub open spec fn clamp_i64(v: int) -> int {
    if v < i64::MIN {
        i64::MIN as int
    } else if v > i64::MAX {
        i64::MAX as int
    } else {
        v
    }
}

/// Clamps an integer to the range of `i32`.
pub open spec fn clamp_i32(v: int) -> int {
    if v < i32::MIN {
        i32::MIN as int
    } else if v > i32::MAX {
        i32::MAX as int
    } else {
        v
    }
}

/// The largest multiple of one pixel that is not above `raw`.
pub open spec fn floor_raw(raw: int) -> int {
    (raw / 65536) * 65536
}

/// The smallest multiple of one pixel that is not below `raw`.
pub open spec fn ceil_raw(raw: int) -> int {
    -floor_raw(-raw)
}

/// The multiple of one pixel next to `raw` in the direction of zero.
pub open spec fn trunc_raw(raw: int) -> int {
    if raw >= 0 {
        floor_raw(raw)
    } else {
        ceil_raw(raw)
    }
}

/// The whole pixels in `raw`, rounded toward zero.
pub open spec fn whole_pixels(raw: int) -> int {
    trunc_raw(raw) / 65536
}

/// The whole pixels in `raw`, rounded up.
pub open spec fn whole_pixels_up(raw: int) -> int {
    ceil_raw(raw) / 65536
}

/// Floor division of `a` by a positive `d`.
pub fn floor_div(a: i128, d: i128) -> (q: i128)
    requires
        d > 0,
    ensures
        q == a / d,
{
    if a >= 0 {
        a / d
    } else {
        let n: i128 = -(a + 1);
        let m: i128 = n / d;
        proof {
            let q = -(m as int) - 1;
            let r = (a as int) - q * (d as int);
            assert(n as int == (d as int) * (m as int) + (n as int) % (d as int)) by {
                vstd::arithmetic::div_mod::lemma_fundamental_div_mod(n as int, d as int);
            }
            assert(0 <= (n as int) % (d as int) < d) by {
                vstd::arithmetic::div_mod::lemma_mod_pos_bound(n as int, d as int);
            }
            assert(r == (d as int) - 1 - (n as int) % (d as int)) by (nonlinear_arith)
                requires
                    n as int == (d as int) * (m as int) + (n as int) % (d as int),
                    n as int == -((a as int) + 1),
                    q == -(m as int) - 1,
                    r == (a as int) - q * (d as int),
            ;
            assert(0 <= r < d);
            assert(a as int == q * (d as int) + r);
            vstd::arithmetic::div_mod::lemma_fundamental_div_mod_converse(
                a as int,
                d as int,
                q,
                r,
            );
        }
        -m - 1
    }
}

/// Clamps `v` to the range of `i64`.
pub fn saturate(v: i128) -> (r: i64)
    ensures
        r == clamp_i64(v as int),
{
    if v < -9223372036854775808i128 {
        i64::MIN
    } else if v > 9223372036854775807i128 {
        i64::MAX
    } else {
        v as i64
    }
}

impl Fixed {
    /// The quantity as a count of raw units.
    pub open spec fn view(&self) -> int {
        self.raw as int
    }

    /// Whether the quantity is a whole number of pixels.
    pub open spec fn is_whole(&self) -> bool {
        self.raw as int % 65536 == 0
    }

    pub fn zero() -> (r: Fixed)
        ensures
            r@ == 0,
    {
        Fixed { raw: 0 }
    }

    /// A whole number of pixels.
    pub fn from_int(pixels: i32) -> (r: Fixed)
        ensures
            r@ == pixels as int * 65536,
    {
        let wide: i64 = pixels as i64;
        Fixed { raw: wide * 65536 }
    }

    pub fn from_raw(raw: i64) -> (r: Fixed)
        ensures
            r@ == raw,
    {
        Fixed { raw }
    }

    /// `numerator / denominator` pixels, rounded down to the next raw unit and clamped.
    pub fn from_ratio(numerator: i64, denominator: i64) -> (r: Fixed)
        requires
            denominator > 0,
        ensures
            r@ == clamp_i64((numerator as int * 65536) / (denominator as int)),
    {
        let wide: i128 = (numerator as i128) * 65536;
        Fixed { raw: saturate(floor_div(wide, denominator as i128)) }
    }

    pub fn is_zero(&self) -> (r: bool)
        ensures
            r == (self@ == 0),
    {
        self.raw == 0
    }

    pub fn is_negative(&self) -> (r: bool)
        ensures
            r == (self@ < 0),
    {
        self.raw < 0
    }

    /// Rounds down to whole pixels.
    pub fn floor(&self) -> (r: Fixed)
        ensures
            r@ == clamp_i64(floor_raw(self@)),
            r@ <= self@,
    {
        let q: i128 = floor_div(self.raw as i128, 65536);
        Fixed { raw: saturate(q * 65536) }
    }

    /// Rounds up to whole pixels.
    pub fn ceil(&self) -> (r: Fixed)
        ensures
            r@ == clamp_i64(ceil_raw(self@)),
            r@ >= self@,
    {
        let q: i128 = floor_div(-(self.raw as i128), 65536);
        Fixed { raw: saturate(-(q * 65536)) }
    }

    /// Rounds toward zero to whole pixels.
    pub fn trunc(&self) -> (r: Fixed)
        ensures
            r@ == trunc_raw(self@),
    {
        if self.raw >= 0 {
            self.floor()
        } else {
            self.ceil()
        }
    }

    /// What is left of the quantity after rounding toward zero; it has the quantity's sign.
    pub fn fract(&self) -> (r: Fixed)
        ensures
            r@ == self@ - trunc_raw(self@),
            -65536 < r@ < 65536,
    {
        let t = self.trunc();
        Fixed { raw: self.raw - t.raw }
    }

    /// The whole pixels of the quantity, rounded toward zero and clamped to `i32`.
    pub fn to_i32(&self) -> (r: i32)
        ensures
            r == clamp_i32(whole_pixels(self@)),
    {
        let t = self.trunc();
        let q: i128 = floor_div(t.raw as i128, 65536);
        if q < -2147483648i128 {
            i32::MIN
        } else if q > 2147483647i128 {
            i32::MAX
        } else {
            q as i32
        }
    }

    /// The whole pixels of the quantity, rounded up and clamped to `i32`.
    pub fn ceil_to_i32(&self) -> (r: i32)
        ensures
            r == clamp_i32(whole_pixels_up(self@)),
    {
        let q: i128 = floor_div(-(self.raw as i128), 65536);
        let up: i128 = -q;
        if up < -2147483648i128 {
            i32::MIN
        } else if up > 2147483647i128 {
            i32::MAX
        } else {
            up as i32
        }
    }

    pub fn saturating_add(&self, other: Fixed) -> (r: Fixed)
        ensures
            r@ == clamp_i64(self@ + other@),
    {
        Fixed { raw: saturate(self.raw as i128 + other.raw as i128) }
    }

    pub fn saturating_sub(&self, other: Fixed) -> (r: Fixed)
        ensures
            r@ == clamp_i64(self@ - other@),
    {
        Fixed { raw: saturate(self.raw as i128 - other.raw as i128) }
    }

    pub fn saturating_neg(&self) -> (r: Fixed)
        ensures
            r@ == clamp_i64(-self@),
    {
        Fixed { raw: saturate(-(self.raw as i128)) }
    }

    /// The quantity times `numerator / denominator`, rounded down to the next raw unit and
    /// clamped.
    pub fn scale(&self, numerator: i64, denominator: i64) -> (r: Fixed)
        requires
            denominator > 0,
        ensures
            r@ == clamp_i64((self@ * numerator as int) / (denominator as int)),
    {
        let wide: i128 = wide_product(self.raw, numerator);
        Fixed { raw: saturate(floor_div(wide, denominator as i128)) }
    }
}

/// The sub-pixel position, out of `positions`, of a quantity of `raw` units: its fractional
/// part times `positions`, rounded down. A negative quantity is at position 0.
pub open spec fn subpixel_of(raw: int, positions: int) -> int {
    if raw < 0 {
        0
    } else {
        ((raw % 65536) * positions) / 65536
    }
}

/// The sub-pixel position of a quantity is one of the positions.
pub proof fn lemma_subpixel_in_range(raw: int, positions: int)
    requires
        positions > 0,
    ensures
        0 <= subpixel_of(raw, positions) < positions,
{
    if raw >= 0 {
        let f = raw % 65536;
        assert(0 <= f * positions <= 65535 * positions) by (nonlinear_arith)
            requires
                0 <= f <= 65535,
                positions > 0,
        ;
    }
}

impl Fixed {
    /// The sub-pixel position of the quantity, out of `positions`.
    pub fn subpixel(&self, positions: usize) -> (index: usize)
        requires
            positions > 0,
        ensures
            index == subpixel_of(self@, positions as int),
            index < positions,
    {
        proof {
            lemma_subpixel_in_range(self@, positions as int);
        }
        if self.raw < 0 {
            return 0;
        }
        let part: u128 = (self.raw % 65536) as u128;
        proof {
            assert(0 <= (part as int) * (positions as int) <= 65535 * (positions as int))
                by (nonlinear_arith)
                requires
                    0 <= part as int <= 65535,
                    positions as int > 0,
            ;
        }
        let scaled: u128 = part * (positions as u128);
        (scaled / 65536) as usize
    }
}

/// The product of two `i64` values, which always fits in `i128`.
pub fn wide_product(a: i64, b: i64) -> (p: i128)
    ensures
        p == a as int * b as int,
{
    proof {
        assert(-0x4000_0000_0000_0000_0000_0000_0000_0000 <= (a as int) * (b as int)
            <= 0x4000_0000_0000_0000_0000_0000_0000_0000) by (nonlinear_arith)
            requires
                -0x8000_0000_0000_0000 <= a as int <= 0x7fff_ffff_ffff_ffff,
                -0x8000_0000_0000_0000 <= b as int <= 0x7fff_ffff_ffff_ffff,
        ;
    }
    (a as i128) * (b as i128)
}

} // verus!
