//! Colors of the drawing surface, the ramp of colors from a background to a foreground that
//! gray levels are mapped through, and the screen blend of two colors of a ramp.

use vstd::arithmetic::div_mod::lemma_fundamental_div_mod;
use vstd::prelude::*;

verus! {

/// Entry `value` of a ramp of `n` channel values from `start` to `end`: the step between two
/// entries is `(end - start) / (n - 1)`, held with 23 fractional bits and cut off toward zero,
/// and the entry is `start` plus `value` steps, rounded to the nearest integer.
pub open spec fn ramp_channel(n: int, value: int, start: int, end: int) -> int {
    let diff = end - start;
    let step = if diff >= 0 {
        (diff * 8388608) / (n - 1)
    } else {
        -((-diff * 8388608) / (n - 1))
    };
    (step * value + start * 8388608 + 4194304) / 8388608
}

/// The first entry of a ramp is its start.
pub proof fn lemma_ramp_starts(n: int, start: u8, end: u8)
    requires
        2 <= n <= 256,
    ensures
        ramp_channel(n, 0, start as int, end as int) == start,
{
    let diff = end as int - start as int;
    let step = if diff >= 0 {
        (diff * 8388608) / (n - 1)
    } else {
        -((-diff * 8388608) / (n - 1))
    };
    assert(step * 0 == 0);
}

/// How far `value` steps of a ramp are from the exact share of the whole difference:
/// less than one raw unit for each step.
proof fn lemma_steps_bound(n: int, value: int, diff: int)
    requires
        2 <= n <= 256,
        0 <= value <= n - 1,
        0 <= diff <= 255,
    ensures
        0 <= ((diff * 8388608) / (n - 1)) * value <= diff * 8388608,
        value == n - 1 ==> diff * 8388608 - (n - 1) < ((diff * 8388608) / (n - 1)) * value,
{
    let big = diff * 8388608;
    let d = n - 1;
    let q = big / d;
    let r = big % d;
    lemma_fundamental_div_mod(big, d);
    vstd::arithmetic::div_mod::lemma_mod_pos_bound(big, d);
    assert(q >= 0) by (nonlinear_arith)
        requires
            big == d * q + r,
            0 <= r < d,
            big >= 0,
            d > 0,
    ;
    assert(0 <= q * value <= q * d) by (nonlinear_arith)
        requires
            q >= 0,
            0 <= value <= d,
    ;
    assert(q * d == big - r) by (nonlinear_arith)
        requires
            big == d * q + r,
    ;
}

/// Every entry of a ramp lies between its start and its end, and the last entry is its end.
pub proof fn lemma_ramp_range(n: int, value: int, start: u8, end: u8)
    requires
        2 <= n <= 256,
        0 <= value <= n - 1,
    ensures
        start <= end ==> start <= ramp_channel(n, value, start as int, end as int) <= end,
        start >= end ==> end <= ramp_channel(n, value, start as int, end as int) <= start,
        value == n - 1 ==> ramp_channel(n, value, start as int, end as int) == end,
{
    let diff = end as int - start as int;
    if diff >= 0 {
        lemma_steps_bound(n, value, diff);
    } else {
        lemma_steps_bound(n, value, -diff);
        let q = ((-diff) * 8388608) / (n - 1);
        assert((-q) * value == -(q * value)) by (nonlinear_arith);
    }
}

/// Entry `value` of a ramp of `N` channel values from `start` to `end`.
pub fn convert_channel<const N: usize>(value: u8, start: u8, end: u8) -> (r: u8)
    requires
        2 <= N <= 256,
        value < N,
    ensures
        r == ramp_channel(N as int, value as int, start as int, end as int),
{
    let steps: i64 = (N - 1) as i64;
    let diff: i64 = end as i64 - start as i64;
    let step: i64 = if diff >= 0 {
        (diff * 8388608) / steps
    } else {
        -((-diff * 8388608) / steps)
    };
    proof {
        lemma_ramp_range(N as int, value as int, start, end);
        if diff >= 0 {
            lemma_steps_bound(N as int, value as int, diff as int);
        } else {
            lemma_steps_bound(N as int, value as int, -diff as int);
            let q = ((-diff) * 8388608) / (N - 1) as int;
            assert((-q) * (value as int) == -(q * (value as int))) by (nonlinear_arith);
        }
    }
    let result: i64 = step * (value as i64) + (start as i64) * 8388608 + 4194304;
    (result / 8388608) as u8
}

/// `a / b`, cut off toward zero.
pub open spec fn div_toward_zero(a: int, b: int) -> int {
    if a >= 0 && b > 0 {
        a / b
    } else if a < 0 && b > 0 {
        -((-a) / b)
    } else if a >= 0 && b < 0 {
        -(a / (-b))
    } else {
        (-a) / (-b)
    }
}

/// The screen blend of two channel values of a ramp from `start` to `end`:
/// `end - (end - first) * (end - second) / (end - start)`, computed with 15 fractional bits,
/// rounded to the nearest integer and, where that is no channel value, taken modulo 256.
/// On a ramp of one color the blend is that color.
pub open spec fn screen_channel(first: int, second: int, start: int, end: int) -> int {
    if start == end {
        start
    } else {
        let product = (end - first) * ((end - second) * 32768 + 16384);
        let result = end * 32768 + 16384 - div_toward_zero(product, end - start);
        (result / 32768) % 256
    }
}

/// `a / b`, cut off toward zero.
fn divide_toward_zero(a: i64, b: i64) -> (q: i64)
    requires
        b != 0,
        -0x4000_0000_0000_0000 < a < 0x4000_0000_0000_0000,
        -0x4000_0000_0000_0000 < b < 0x4000_0000_0000_0000,
    ensures
        q == div_toward_zero(a as int, b as int),
{
    if a >= 0 && b > 0 {
        a / b
    } else if a < 0 && b > 0 {
        let m: i64 = (-a) / b;
        proof {
            lemma_quotient_bound(-a as int, b as int);
        }
        -m
    } else if a >= 0 && b < 0 {
        let m: i64 = a / (-b);
        proof {
            lemma_quotient_bound(a as int, -b as int);
        }
        -m
    } else {
        (-a) / (-b)
    }
}

/// A quotient of two positive numbers is not above the dividend.
proof fn lemma_quotient_bound(a: int, b: int)
    requires
        a >= 0,
        b > 0,
    ensures
        0 <= a / b <= a,
{
    lemma_fundamental_div_mod(a, b);
    vstd::arithmetic::div_mod::lemma_mod_pos_bound(a, b);
    let q = a / b;
    let r = a % b;
    assert(0 <= q <= a) by (nonlinear_arith)
        requires
            a == b * q + r,
            0 <= r < b,
            a >= 0,
            b > 0,
    ;
}

/// The screen blend of two channel values of a ramp from `start` to `end`.
pub fn screen_mix_channel(first: u8, second: u8, start: u8, end: u8) -> (r: u8)
    ensures
        r == screen_channel(first as int, second as int, start as int, end as int),
{
    if start == end {
        return start;
    }
    let diff: i64 = end as i64 - start as i64;
    let one: i64 = end as i64 - first as i64;
    let other: i64 = end as i64 - second as i64;
    let scaled: i64 = other * 32768 + 16384;
    proof {
        assert(-2147483648 < (one as int) * (scaled as int) < 2147483648) by (nonlinear_arith)
            requires
                -255 <= one as int <= 255,
                -8372224 <= scaled as int <= 8372224,
        ;
    }
    let product: i64 = one * scaled;
    let quotient: i64 = divide_toward_zero(product, diff);
    proof {
        if product >= 0 {
            lemma_quotient_bound(product as int, if diff > 0 {
                diff as int
            } else {
                -diff as int
            });
        } else {
            lemma_quotient_bound(-product as int, if diff > 0 {
                diff as int
            } else {
                -diff as int
            });
        }
    }
    let result: i64 = (end as i64) * 32768 + 16384 - quotient;
    let whole: i128 = crate::fixed::floor_div(result as i128, 32768);
    let low: i128 = crate::fixed::floor_div(whole, 256);
    (whole - low * 256) as u8
}

/// Blending the end of the ramp with any color gives the end of the ramp.
pub proof fn lemma_screen_with_end(second: u8, start: u8, end: u8)
    ensures
        screen_channel(end as int, second as int, start as int, end as int) == end,
{
    if start != end {
        let other = end as int - second as int;
        assert(0 * (other * 32768 + 16384) == 0);
    }
}

/// Turning a color into its opposite.
pub trait Invert: Sized {
    spec fn spec_invert(self) -> Self;

    fn invert(self) -> (r: Self)
        ensures
            r == self.spec_invert(),
    ;
}

/// The screen blend of two colors of a ramp from `start` to `end`.
pub trait Screen: Sized {
    spec fn spec_screen(self, other: Self, start: Self, end: Self) -> Self;

    fn screen(self, other: Self, start: Self, end: Self) -> (r: Self)
        ensures
            r == self.spec_screen(other, start, end),
    ;
}

/// Entry `index` of a ramp of `n` colors from `start` to `end`.
pub trait Linear: Sized {
    spec fn spec_ramp(n: int, index: int, start: Self, end: Self) -> Self;

    fn ramp<const N: usize>(index: u8, start: Self, end: Self) -> (r: Self)
        requires
            2 <= N <= 256,
            index < N,
        ensures
            r == Self::spec_ramp(N as int, index as int, start, end),
    ;
}

/// The color that stands for no light, and whether two colors are the same.
pub trait Dark: Sized {
    spec fn spec_dark() -> Self;

    fn dark() -> (r: Self)
        ensures
            r == Self::spec_dark(),
    ;

    fn same(&self, other: &Self) -> (r: bool)
        ensures
            r == (*self == *other),
    ;
}

/// A color that is on or off.
#[derive(Clone, Copy, Debug, PartialEq, Eq, Structural, Hash)]
pub enum BinaryColor {
    Off,
    On,
}

/// A gray value from 0 to `MAX`.
#[derive(Clone, Copy, Debug, PartialEq, Eq, Hash)]
pub struct Gray<const MAX: u8> {
    pub luma: u8,
}

/// A color of three channels, whose values go from 0 to `MAX_R`, `MAX_G` and `MAX_B`.
#[derive(Clone, Copy, Debug, PartialEq, Eq, Hash)]
pub struct Rgb<const MAX_R: u8, const MAX_G: u8, const MAX_B: u8> {
    pub r: u8,
    pub g: u8,
    pub b: u8,
}

pub type Gray2 = Gray<3>;

pub type Gray4 = Gray<15>;

pub type Gray8 = Gray<255>;

pub type Rgb555 = Rgb<31, 31, 31>;

pub type Rgb565 = Rgb<31, 63, 31>;

pub type Rgb666 = Rgb<63, 63, 63>;

pub type Rgb888 = Rgb<255, 255, 255>;

/// The opposite of a channel value whose highest value is `max`: what is left up to `max`,
/// of which the bits that `max` has. A value above `max` has no opposite but zero.
pub open spec fn inverted(value: u8, max: u8) -> u8 {
    if value > max {
        0
    } else {
        ((max - value) as u8) & max
    }
}

fn invert_channel(value: u8, max: u8) -> (r: u8)
    ensures
        r == inverted(value, max),
{
    if value > max {
        0
    } else {
        (max - value) & max
    }
}

impl<const MAX: u8> Gray<MAX> {
    /// The gray value of the bits of `luma` that `MAX` has.
    pub fn new(luma: u8) -> (r: Self)
        ensures
            r.luma == luma & MAX,
    {
        Gray { luma: luma & MAX }
    }

    pub fn luma(&self) -> (r: u8)
        ensures
            r == self.luma,
    {
        self.luma
    }
}

impl<const MAX_R: u8, const MAX_G: u8, const MAX_B: u8> Rgb<MAX_R, MAX_G, MAX_B> {
    /// The color of the three channel values, of each the bits that the highest value of
    /// its channel has.
    pub fn new(r: u8, g: u8, b: u8) -> (c: Self)
        ensures
            c.r == r & MAX_R,
            c.g == g & MAX_G,
            c.b == b & MAX_B,
    {
        Rgb { r: r & MAX_R, g: g & MAX_G, b: b & MAX_B }
    }
}

impl Invert for BinaryColor {
    open spec fn spec_invert(self) -> BinaryColor {
        match self {
            BinaryColor::Off => BinaryColor::On,
            BinaryColor::On => BinaryColor::Off,
        }
    }

    fn invert(self) -> (r: BinaryColor) {
        match self {
            BinaryColor::Off => BinaryColor::On,
            BinaryColor::On => BinaryColor::Off,
        }
    }
}

impl Screen for BinaryColor {
    open spec fn spec_screen(
        self,
        other: BinaryColor,
        start: BinaryColor,
        end: BinaryColor,
    ) -> BinaryColor {
        if self == end || other == end {
            end
        } else {
            start
        }
    }

    fn screen(self, other: BinaryColor, start: BinaryColor, end: BinaryColor) -> (r:
        BinaryColor) {
        if self == end || other == end {
            end
        } else {
            start
        }
    }
}

impl Linear for BinaryColor {
    open spec fn spec_ramp(n: int, index: int, start: BinaryColor, end: BinaryColor) -> BinaryColor {
        if index < n / 2 {
            start
        } else {
            end
        }
    }

    fn ramp<const N: usize>(index: u8, start: BinaryColor, end: BinaryColor) -> (r: BinaryColor) {
        if (index as usize) < N / 2 {
            start
        } else {
            end
        }
    }
}

impl Dark for BinaryColor {
    open spec fn spec_dark() -> BinaryColor {
        BinaryColor::Off
    }

    fn dark() -> (r: BinaryColor) {
        BinaryColor::Off
    }

    fn same(&self, other: &BinaryColor) -> (r: bool) {
        *self == *other
    }
}

impl<const MAX: u8> Invert for Gray<MAX> {
    open spec fn spec_invert(self) -> Self {
        Gray { luma: inverted(self.luma, MAX) }
    }

    fn invert(self) -> (r: Self) {
        Gray { luma: invert_channel(self.luma, MAX) }
    }
}

impl<const MAX: u8> Screen for Gray<MAX> {
    open spec fn spec_screen(self, other: Self, start: Self, end: Self) -> Self {
        Gray {
            luma: (screen_channel(
                self.luma as int,
                other.luma as int,
                start.luma as int,
                end.luma as int,
            ) as u8) & MAX,
        }
    }

    fn screen(self, other: Self, start: Self, end: Self) -> (r: Self) {
        Gray::new(screen_mix_channel(self.luma, other.luma, start.luma, end.luma))
    }
}

impl<const MAX: u8> Linear for Gray<MAX> {
    open spec fn spec_ramp(n: int, index: int, start: Self, end: Self) -> Self {
        Gray { luma: (ramp_channel(n, index, start.luma as int, end.luma as int) as u8) & MAX }
    }

    fn ramp<const N: usize>(index: u8, start: Self, end: Self) -> (r: Self) {
        Gray::new(convert_channel::<N>(index, start.luma, end.luma))
    }
}

impl<const MAX: u8> Dark for Gray<MAX> {
    open spec fn spec_dark() -> Self {
        Gray { luma: 0 }
    }

    fn dark() -> (r: Self) {
        Gray { luma: 0 }
    }

    fn same(&self, other: &Self) -> (r: bool) {
        self.luma == other.luma
    }
}

impl<const MAX_R: u8, const MAX_G: u8, const MAX_B: u8> Invert for Rgb<MAX_R, MAX_G, MAX_B> {
    open spec fn spec_invert(self) -> Self {
        Rgb {
            r: inverted(self.r, MAX_R),
            g: inverted(self.g, MAX_G),
            b: inverted(self.b, MAX_B),
        }
    }

    fn invert(self) -> (r: Self) {
        Rgb {
            r: invert_channel(self.r, MAX_R),
            g: invert_channel(self.g, MAX_G),
            b: invert_channel(self.b, MAX_B),
        }
    }
}

impl<const MAX_R: u8, const MAX_G: u8, const MAX_B: u8> Screen for Rgb<MAX_R, MAX_G, MAX_B> {
    open spec fn spec_screen(self, other: Self, start: Self, end: Self) -> Self {
        Rgb {
            r: (screen_channel(self.r as int, other.r as int, start.r as int, end.r as int) as u8) & MAX_R,
            g: (screen_channel(self.g as int, other.g as int, start.g as int, end.g as int) as u8) & MAX_G,
            b: (screen_channel(self.b as int, other.b as int, start.b as int, end.b as int) as u8) & MAX_B,
        }
    }

    fn screen(self, other: Self, start: Self, end: Self) -> (r: Self) {
        Rgb::new(
            screen_mix_channel(self.r, other.r, start.r, end.r),
            screen_mix_channel(self.g, other.g, start.g, end.g),
            screen_mix_channel(self.b, other.b, start.b, end.b),
        )
    }
}

impl<const MAX_R: u8, const MAX_G: u8, const MAX_B: u8> Linear for Rgb<MAX_R, MAX_G, MAX_B> {
    open spec fn spec_ramp(n: int, index: int, start: Self, end: Self) -> Self {
        Rgb {
            r: (ramp_channel(n, index, start.r as int, end.r as int) as u8) & MAX_R,
            g: (ramp_channel(n, index, start.g as int, end.g as int) as u8) & MAX_G,
            b: (ramp_channel(n, index, start.b as int, end.b as int) as u8) & MAX_B,
        }
    }

    fn ramp<const N: usize>(index: u8, start: Self, end: Self) -> (r: Self) {
        Rgb::new(
            convert_channel::<N>(index, start.r, end.r),
            convert_channel::<N>(index, start.g, end.g),
            convert_channel::<N>(index, start.b, end.b),
        )
    }
}

impl<const MAX_R: u8, const MAX_G: u8, const MAX_B: u8> Dark for Rgb<MAX_R, MAX_G, MAX_B> {
    open spec fn spec_dark() -> Self {
        Rgb { r: 0, g: 0, b: 0 }
    }

    fn dark() -> (r: Self) {
        Rgb { r: 0, g: 0, b: 0 }
    }

    fn same(&self, other: &Self) -> (r: bool) {
        self.r == other.r && self.g == other.g && self.b == other.b
    }
}

/// A ramp of `N` colors, from the color of gray level 0 to the color of the highest level.
#[derive(Debug)]
pub struct Colormap<T: Copy, const N: usize> {
    pub colors: Vec<T>,
}

impl<T: Copy, const N: usize> Colormap<T, N> {
    /// Whether the ramp holds its `N` colors, of which there is at least one.
    pub open spec fn wf(&self) -> bool {
        self.colors@.len() == N && N > 0
    }

    /// The color of gray level 0.
    pub fn first(&self) -> (r: T)
        requires
            self.wf(),
        ensures
            r == self.colors@[0],
    {
        self.colors[0]
    }

    /// The color of the highest gray level.
    pub fn last(&self) -> (r: T)
        requires
            self.wf(),
        ensures
            r == self.colors@[N - 1],
    {
        self.colors[N - 1]
    }

    /// The color of gray level `level`; levels are counted modulo `N`.
    pub fn get(&self, level: u8) -> (r: T)
        requires
            self.wf(),
        ensures
            r == self.colors@[(level as int) % (N as int)],
    {
        self.colors[(level as usize) % N]
    }
}

impl<T: Copy + Linear, const N: usize> Colormap<T, N> {
    /// The ramp of `N` colors from `start` to `end`.
    pub fn linear(start: T, end: T) -> (r: Self)
        requires
            2 <= N <= 256,
        ensures
            r.wf(),
            forall|i: int| 0 <= i < N ==> r.colors@[i] == T::spec_ramp(N as int, i, start, end),
    {
        let mut colors: Vec<T> = Vec::new();
        let mut index: usize = 0;
        while index < N
            invariant
                2 <= N <= 256,
                index <= N,
                colors@.len() == index,
                forall|i: int|
                    0 <= i < index ==> colors@[i] == T::spec_ramp(N as int, i, start, end),
            decreases N - index,
        {
            colors.push(T::ramp::<N>(index as u8, start, end));
            index = index + 1;
        }
        Colormap { colors }
    }
}

} // verus!
