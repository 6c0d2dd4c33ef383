//! The builder of font styles.

use crate::font::BitmapFont;
use crate::style::{BitmapFontStyle, DecorationColor};
use vstd::prelude::*;

verus! {

/// A font style in the making.
#[derive(Debug)]
pub struct BitmapFontStyleBuilder<'a, 'b, T> {
    pub style: BitmapFontStyle<'a, 'b, T>,
}

impl<'a, 'b, T: Copy> BitmapFontStyleBuilder<'a, 'b, T> {
    /// The builder of a style of `font` without colors or lines.
    pub fn new(font: &'b BitmapFont<'a>) -> (builder: Self)
        ensures
            builder.style.font == font,
            builder.style.text_color is None,
            builder.style.background_color is None,
            builder.style.underline_color is Absent,
            builder.style.strikethrough_color is Absent,
    {
        BitmapFontStyleBuilder {
            style: BitmapFontStyle {
                font,
                text_color: None,
                background_color: None,
                underline_color: DecorationColor::Absent,
                strikethrough_color: DecorationColor::Absent,
            },
        }
    }

    pub fn reset_text_color(self) -> (builder: Self)
        ensures
            builder.style.text_color is None,
            builder.style.font == self.style.font,
            builder.style.background_color == self.style.background_color,
            builder.style.underline_color == self.style.underline_color,
            builder.style.strikethrough_color == self.style.strikethrough_color,
    {
        let mut style = self.style;
        style.text_color = None;
        BitmapFontStyleBuilder { style }
    }

    pub fn reset_background_color(self) -> (builder: Self)
        ensures
            builder.style.background_color is None,
            builder.style.font == self.style.font,
            builder.style.text_color == self.style.text_color,
            builder.style.underline_color == self.style.underline_color,
            builder.style.strikethrough_color == self.style.strikethrough_color,
    {
        let mut style = self.style;
        style.background_color = None;
        BitmapFontStyleBuilder { style }
    }

    pub fn reset_underline(self) -> (builder: Self)
        ensures
            builder.style.underline_color is Absent,
            builder.style.font == self.style.font,
            builder.style.text_color == self.style.text_color,
            builder.style.background_color == self.style.background_color,
            builder.style.strikethrough_color == self.style.strikethrough_color,
    {
        let mut style = self.style;
        style.underline_color = DecorationColor::Absent;
        BitmapFontStyleBuilder { style }
    }

    pub fn reset_strikethrough(self) -> (builder: Self)
        ensures
            builder.style.strikethrough_color is Absent,
            builder.style.font == self.style.font,
            builder.style.text_color == self.style.text_color,
            builder.style.background_color == self.style.background_color,
            builder.style.underline_color == self.style.underline_color,
    {
        let mut style = self.style;
        style.strikethrough_color = DecorationColor::Absent;
        BitmapFontStyleBuilder { style }
    }

    /// A line under the text in the color of the text.
    pub fn underline(self) -> (builder: Self)
        ensures
            builder.style.underline_color is TextColor,
            builder.style.font == self.style.font,
            builder.style.text_color == self.style.text_color,
            builder.style.background_color == self.style.background_color,
            builder.style.strikethrough_color == self.style.strikethrough_color,
    {
        let mut style = self.style;
        style.underline_color = DecorationColor::TextColor;
        BitmapFontStyleBuilder { style }
    }

    /// A line through the text in the color of the text.
    pub fn strikethrough(self) -> (builder: Self)
        ensures
            builder.style.strikethrough_color is TextColor,
            builder.style.font == self.style.font,
            builder.style.text_color == self.style.text_color,
            builder.style.background_color == self.style.background_color,
            builder.style.underline_color == self.style.underline_color,
    {
        let mut style = self.style;
        style.strikethrough_color = DecorationColor::TextColor;
        BitmapFontStyleBuilder { style }
    }

    pub fn text_color(self, text_color: T) -> (builder: Self)
        ensures
            builder.style.text_color == Some(text_color),
            builder.style.font == self.style.font,
            builder.style.background_color == self.style.background_color,
            builder.style.underline_color == self.style.underline_color,
            builder.style.strikethrough_color == self.style.strikethrough_color,
    {
        let mut style = self.style;
        style.text_color = Some(text_color);
        BitmapFontStyleBuilder { style }
    }

    pub fn background_color(self, background_color: T) -> (builder: Self)
        ensures
            builder.style.background_color == Some(background_color),
            builder.style.font == self.style.font,
            builder.style.text_color == self.style.text_color,
            builder.style.underline_color == self.style.underline_color,
            builder.style.strikethrough_color == self.style.strikethrough_color,
    {
        let mut style = self.style;
        style.background_color = Some(background_color);
        BitmapFontStyleBuilder { style }
    }

    pub fn underline_with_color(self, underline_color: T) -> (builder: Self)
        ensures
            builder.style.underline_color == DecorationColor::Custom(underline_color),
            builder.style.font == self.style.font,
            builder.style.text_color == self.style.text_color,
            builder.style.background_color == self.style.background_color,
            builder.style.strikethrough_color == self.style.strikethrough_color,
    {
        let mut style = self.style;
        style.underline_color = DecorationColor::Custom(underline_color);
        BitmapFontStyleBuilder { style }
    }

    pub fn strikethrough_with_color(self, strikethrough_color: T) -> (builder: Self)
        ensures
            builder.style.strikethrough_color == DecorationColor::Custom(strikethrough_color),
            builder.style.font == self.style.font,
            builder.style.text_color == self.style.text_color,
            builder.style.background_color == self.style.background_color,
            builder.style.underline_color == self.style.underline_color,
    {
        let mut style = self.style;
        style.strikethrough_color = DecorationColor::Custom(strikethrough_color);
        BitmapFontStyleBuilder { style }
    }

    /// The builder with another font and the same colors and lines.
    pub fn font<'z, 'y>(self, font: &'z BitmapFont<'y>) -> (builder: BitmapFontStyleBuilder<
        'y,
        'z,
        T,
    >)
        ensures
            builder.style.font == font,
            builder.style.text_color == self.style.text_color,
            builder.style.background_color == self.style.background_color,
            builder.style.underline_color == self.style.underline_color,
            builder.style.strikethrough_color == self.style.strikethrough_color,
    {
        BitmapFontStyleBuilder {
            style: BitmapFontStyle {
                font,
                text_color: self.style.text_color,
                background_color: self.style.background_color,
                underline_color: self.style.underline_color,
                strikethrough_color: self.style.strikethrough_color,
            },
        }
    }

    pub fn build(self) -> (style: BitmapFontStyle<'a, 'b, T>)
        ensures
            style == self.style,
    {
        self.style
    }
}

} // verus!
