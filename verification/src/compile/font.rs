//! The typefaces that can be compiled, and the ranges of their parameters.

use crate::fixed::{clamp_i64, Fixed};
use crate::text::str_eq;
use vstd::prelude::*;

verus! {

/// The weight of a typeface, from 100 to `MAX`.
#[derive(Clone, Copy, Debug, PartialEq, Eq)]
pub struct FontWeight<const MAX: u16>(pub u16);

/// The width of a typeface, from 100 to `MAX`.
#[derive(Clone, Copy, Debug, PartialEq, Eq)]
pub struct FontWidth<const MAX: u16>(pub u16);

/// The size of a typeface in pixels per em, which is above zero.
#[derive(Clone, Copy, Debug, PartialEq, Eq)]
pub struct FontSize(pub Fixed);

/// A typeface: one of the two families of variable width, or the family of fixed pitch
/// at one of its widths.
#[derive(Clone, Copy, Debug, PartialEq, Eq)]
pub enum Font {
    MPLUS1,
    MPLUS2,
    MPLUSCode { width: FontWidth<125> },
}

/// Why a parameter was not accepted.
#[derive(Clone, Copy, Debug, PartialEq, Eq, Structural)]
pub enum ParamError {
    /// A number outside the range from `min` to `max`.
    OutOfRange { min: u16, max: u16, found: u16 },
    /// A number that is none of the four that are accepted.
    NotInSet { a: u8, b: u8, c: u8, d: u8, given: u8 },
    /// A size that is not above zero.
    NotPositive,
    /// A name that stands for no value in range.
    UnknownName,
}

/// The weight that a name stands for, or zero for a name that is none of a weight.
pub open spec fn weight_named(name: Seq<char>) -> u16 {
    if name == "NORMAL"@ {
        400
    } else if name == "THIN"@ {
        100
    } else if name == "EXTRA_LIGHT"@ {
        200
    } else if name == "LIGHT"@ {
        300
    } else if name == "REGULAR"@ {
        400
    } else if name == "MEDIUM"@ {
        500
    } else if name == "SEMI_BOLD"@ {
        600
    } else if name == "BOLD"@ {
        700
    } else if name == "EXTRA_BOLD"@ {
        800
    } else if name == "BLACK"@ {
        900
    } else {
        0
    }
}

/// The width that a name stands for, or zero for a name that is none of a width.
pub open spec fn width_named(name: Seq<char>) -> u16 {
    if name == "NORMAL"@ {
        100
    } else if name == "EXPANDED"@ {
        125
    } else {
        0
    }
}

fn weight_of_name(name: &str) -> (weight: u16)
    ensures
        weight == weight_named(name@),
{
    if str_eq(name, "NORMAL") {
        400
    } else if str_eq(name, "THIN") {
        100
    } else if str_eq(name, "EXTRA_LIGHT") {
        200
    } else if str_eq(name, "LIGHT") {
        300
    } else if str_eq(name, "REGULAR") {
        400
    } else if str_eq(name, "MEDIUM") {
        500
    } else if str_eq(name, "SEMI_BOLD") {
        600
    } else if str_eq(name, "BOLD") {
        700
    } else if str_eq(name, "EXTRA_BOLD") {
        800
    } else if str_eq(name, "BLACK") {
        900
    } else {
        0
    }
}

impl<const MAX: u16> FontWeight<MAX> {
    /// The weight `value`, if it lies between 100 and `MAX`.
    pub fn from_number(value: u16) -> (weight: Result<Self, ParamError>)
        ensures
            100 <= value <= MAX ==> weight == Ok::<Self, ParamError>(FontWeight(value)),
            !(100 <= value <= MAX) ==> weight == Err::<Self, ParamError>(
                ParamError::OutOfRange { min: 100, max: MAX, found: value },
            ),
    {
        if value < 100 || value > MAX {
            Err(ParamError::OutOfRange { min: 100, max: MAX, found: value })
        } else {
            Ok(FontWeight(value))
        }
    }

    /// The weight that `name` stands for, if it is the name of a weight up to `MAX`.
    pub fn from_name(name: &str) -> (weight: Result<Self, ParamError>)
        ensures
            100 <= weight_named(name@) <= MAX ==> weight == Ok::<Self, ParamError>(
                FontWeight(weight_named(name@)),
            ),
            !(100 <= weight_named(name@) <= MAX) ==> weight == Err::<Self, ParamError>(
                ParamError::UnknownName,
            ),
    {
        let value = weight_of_name(name);
        if value < 100 || value > MAX {
            Err(ParamError::UnknownName)
        } else {
            Ok(FontWeight(value))
        }
    }
}

impl<const MAX: u16> FontWidth<MAX> {
    /// The width `value`, if it lies between 100 and `MAX`.
    pub fn from_number(value: u16) -> (width: Result<Self, ParamError>)
        ensures
            100 <= value <= MAX ==> width == Ok::<Self, ParamError>(FontWidth(value)),
            !(100 <= value <= MAX) ==> width == Err::<Self, ParamError>(
                ParamError::OutOfRange { min: 100, max: MAX, found: value },
            ),
    {
        if value < 100 || value > MAX {
            Err(ParamError::OutOfRange { min: 100, max: MAX, found: value })
        } else {
            Ok(FontWidth(value))
        }
    }

    /// The width that `name` stands for, if it is the name of a width up to `MAX`.
    pub fn from_name(name: &str) -> (width: Result<Self, ParamError>)
        ensures
            100 <= width_named(name@) <= MAX ==> width == Ok::<Self, ParamError>(
                FontWidth(width_named(name@)),
            ),
            !(100 <= width_named(name@) <= MAX) ==> width == Err::<Self, ParamError>(
                ParamError::UnknownName,
            ),
    {
        let value: u16 = if str_eq(name, "NORMAL") {
            100
        } else if str_eq(name, "EXPANDED") {
            125
        } else {
            0
        };
        if value < 100 || value > MAX {
            Err(ParamError::UnknownName)
        } else {
            Ok(FontWidth(value))
        }
    }
}

/// The measure of a typeface that a size can be given by.
#[derive(Clone, Copy, Debug, PartialEq, Eq, Structural)]
pub enum SizeMeasure {
    XHeight,
    CapHeight,
    LineHeight,
    CodeLineHeight,
}

/// The thousandths of an em that a measure takes.
pub open spec fn measure_thousandths(measure: SizeMeasure) -> int {
    match measure {
        SizeMeasure::XHeight => 520,
        SizeMeasure::CapHeight => 730,
        SizeMeasure::LineHeight => 1448,
        SizeMeasure::CodeLineHeight => 1505,
    }
}

impl FontSize {
    /// The size `pixels`, if it is above zero.
    pub fn from_pixels(pixels: Fixed) -> (size: Result<Self, ParamError>)
        ensures
            pixels@ > 0 ==> size == Ok::<Self, ParamError>(FontSize(pixels)),
            pixels@ <= 0 ==> size == Err::<Self, ParamError>(ParamError::NotPositive),
    {
        if pixels.raw > 0 {
            Ok(FontSize(pixels))
        } else {
            Err(ParamError::NotPositive)
        }
    }

    /// The size at which `measure` takes `pixels`, if that is above zero: `pixels` divided
    /// by the measure's share of an em.
    pub fn from_measure(measure: SizeMeasure, pixels: Fixed) -> (size: Result<Self, ParamError>)
        ensures
            pixels@ > 0 ==> size == Ok::<Self, ParamError>(
                FontSize(
                    Fixed {
                        raw: clamp_i64((pixels@ * 1000) / measure_thousandths(measure)) as i64,
                    },
                ),
            ),
            pixels@ <= 0 ==> size == Err::<Self, ParamError>(ParamError::NotPositive),
    {
        if pixels.raw <= 0 {
            return Err(ParamError::NotPositive);
        }
        let share: i64 = match measure {
            SizeMeasure::XHeight => 520,
            SizeMeasure::CapHeight => 730,
            SizeMeasure::LineHeight => 1448,
            SizeMeasure::CodeLineHeight => 1505,
        };
        Ok(FontSize(pixels.scale(1000, share)))
    }
}

/// The number `value`, if it lies between `MIN` and `MAX`.
pub fn parse_u8_in_range<const MIN: u8, const MAX: u8>(value: u8) -> (r: Result<u8, ParamError>)
    ensures
        MIN <= value <= MAX ==> r == Ok::<u8, ParamError>(value),
        !(MIN <= value <= MAX) ==> r == Err::<u8, ParamError>(
            ParamError::OutOfRange { min: MIN as u16, max: MAX as u16, found: value as u16 },
        ),
{
    if value < MIN || value > MAX {
        Err(ParamError::OutOfRange { min: MIN as u16, max: MAX as u16, found: value as u16 })
    } else {
        Ok(value)
    }
}

/// The number `value`, if it is one of `A`, `B`, `C` and `D`.
pub fn parse_u8_in_set<const A: u8, const B: u8, const C: u8, const D: u8>(value: u8) -> (r:
    Result<u8, ParamError>)
    ensures
        (value == A || value == B || value == C || value == D) ==> r == Ok::<u8, ParamError>(
            value,
        ),
        !(value == A || value == B || value == C || value == D) ==> r == Err::<u8, ParamError>(
            ParamError::NotInSet { a: A, b: B, c: C, d: D, given: value },
        ),
{
    if value == A || value == B || value == C || value == D {
        Ok(value)
    } else {
        Err(ParamError::NotInSet { a: A, b: B, c: C, d: D, given: value })
    }
}

/// The weight `value` for `font`: up to 900 for the families of variable width, and up to
/// 700 for the family of fixed pitch.
pub fn parse_weight(font: &Font, value: u16) -> (weight: Result<u16, ParamError>)
    ensures
        weight == (if 100 <= value <= max_weight(*font) {
            Ok::<u16, ParamError>(value)
        } else {
            Err::<u16, ParamError>(
                ParamError::OutOfRange { min: 100, max: max_weight(*font), found: value },
            )
        }),
{
    match font {
        Font::MPLUSCode { .. } => match FontWeight::<700>::from_number(value) {
            Ok(weight) => Ok(weight.0),
            Err(e) => Err(e),
        },
        _ => match FontWeight::<900>::from_number(value) {
            Ok(weight) => Ok(weight.0),
            Err(e) => Err(e),
        },
    }
}

/// The heaviest weight of a typeface.
pub open spec fn max_weight(font: Font) -> u16 {
    match font {
        Font::MPLUSCode { .. } => 700,
        _ => 900,
    }
}

impl Font {
    /// Whether the typeface is of fixed pitch.
    pub open spec fn spec_is_code(&self) -> bool {
        self is MPLUSCode
    }

    pub fn is_code(&self) -> (r: bool)
        ensures
            r == self.spec_is_code(),
    {
        match self {
            Font::MPLUSCode { .. } => true,
            _ => false,
        }
    }

    /// Whether the typeface is shaped in a pass: every typeface in the pass of its own
    /// font, and only the one of fixed pitch in the pass of the font that it falls back to.
    pub fn has_pass(&self, is_fallback: bool) -> (r: bool)
        ensures
            r == (!is_fallback || self.spec_is_code()),
    {
        !is_fallback || self.is_code()
    }

    /// The typeface of variable width of number `number`, which is 1 or 2.
    pub fn from_number(number: u16) -> (font: Result<Self, ParamError>)
        ensures
            number == 1 ==> font == Ok::<Self, ParamError>(Font::MPLUS1),
            number == 2 ==> font == Ok::<Self, ParamError>(Font::MPLUS2),
            number != 1 && number != 2 ==> font == Err::<Self, ParamError>(
                ParamError::OutOfRange { min: 1, max: 2, found: number },
            ),
    {
        if number == 1 {
            Ok(Font::MPLUS1)
        } else if number == 2 {
            Ok(Font::MPLUS2)
        } else {
            Err(ParamError::OutOfRange { min: 1, max: 2, found: number })
        }
    }

    /// The thousandths of an em that half a cell of the typeface is wide: a tenth of an em
    /// and four thousandths for each unit of its width; half an em where it has no width
    /// of its own.
    pub open spec fn spec_halfwidth_thousandths(&self) -> int {
        match self {
            Font::MPLUSCode { width } => 100 + 4 * width.0,
            _ => 500,
        }
    }

    pub fn halfwidth_thousandths(&self) -> (r: i64)
        ensures
            r == self.spec_halfwidth_thousandths(),
            0 < r,
    {
        match self {
            Font::MPLUSCode { width } => 100 + 4 * (width.0 as i64),
            _ => 500,
        }
    }
}

} // verus!
