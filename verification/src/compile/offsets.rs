//! The offsets of the glyphs of a cluster, and the plan for rendering a glyph.

use crate::compile::bitmap::{Glyph, Image, ImageList};
use crate::compile::quantize::{is_bit_depth, quantize, quantized};
use crate::compile::spacing::GlyphSpacing;
use crate::compile::strings::ShapedGlyph;
use crate::compile::units::Halfwidth;
use crate::fixed::{clamp_i64, floor_raw, trunc_raw, Fixed};
use crate::rect::{add_clamped, to_i32_clamped};
use vstd::prelude::*;

verus! {

/// A glyph of a cluster with its offsets from the shaper: the first glyph of the cluster,
/// or one that is laid over it.
#[derive(Clone, Copy, Debug, PartialEq, Eq, Structural)]
pub enum GlyphOffsets {
    Initial(u16, Fixed, Fixed),
    Overlay(u16, Fixed, Fixed),
}

/// Whether `id` is an accent that is laid over a glyph of the typeface of fixed pitch and
/// is raised to whole pixels.
pub open spec fn is_raised_overlay(id: u16) -> bool {
    532 <= id <= 548 || id == 549 || id == 551
}

/// Whether `id` is an accent that stands alone in the typeface of fixed pitch.
pub open spec fn is_lone_accent_of_code(id: u16) -> bool {
    556 <= id <= 569
}

/// Whether `id` is an accent that is laid over a glyph of the other typefaces and is
/// lowered to whole pixels.
pub open spec fn is_lowered_overlay(id: u16) -> bool {
    787 <= id <= 804
}

/// Whether `id` is an accent that stands alone in the other typefaces.
pub open spec fn is_lone_accent(id: u16) -> bool {
    812 <= id <= 825
}

impl GlyphOffsets {
    pub fn new(is_overlay: bool, id: u16, x_offset: Fixed, y_offset: Fixed) -> (offsets: Self)
        ensures
            is_overlay ==> offsets == GlyphOffsets::Overlay(id, x_offset, y_offset),
            !is_overlay ==> offsets == GlyphOffsets::Initial(id, x_offset, y_offset),
    {
        if is_overlay {
            GlyphOffsets::Overlay(id, x_offset, y_offset)
        } else {
            GlyphOffsets::Initial(id, x_offset, y_offset)
        }
    }

    /// The offsets of a glyph as the shaper gives it.
    pub fn from_glyph(glyph: &ShapedGlyph, is_overlay: bool) -> (offsets: Self)
        ensures
            is_overlay ==> offsets == GlyphOffsets::Overlay(glyph.id, glyph.x, glyph.y),
            !is_overlay ==> offsets == GlyphOffsets::Initial(glyph.id, glyph.x, glyph.y),
    {
        Self::new(is_overlay, glyph.id, glyph.x, glyph.y)
    }

    pub open spec fn spec_id(&self) -> u16 {
        match self {
            GlyphOffsets::Initial(id, _, _) => *id,
            GlyphOffsets::Overlay(id, _, _) => *id,
        }
    }

    pub open spec fn spec_x_offset(&self) -> Fixed {
        match self {
            GlyphOffsets::Initial(_, x, _) => *x,
            GlyphOffsets::Overlay(_, x, _) => *x,
        }
    }

    pub open spec fn spec_y_offset(&self) -> Fixed {
        match self {
            GlyphOffsets::Initial(_, _, y) => *y,
            GlyphOffsets::Overlay(_, _, y) => *y,
        }
    }

    pub fn id(&self) -> (id: u16)
        ensures
            id == self.spec_id(),
    {
        match self {
            GlyphOffsets::Initial(id, _, _) => *id,
            GlyphOffsets::Overlay(id, _, _) => *id,
        }
    }

    pub fn x_offset(&self) -> (x: Fixed)
        ensures
            x == self.spec_x_offset(),
    {
        match self {
            GlyphOffsets::Initial(_, x, _) => *x,
            GlyphOffsets::Overlay(_, x, _) => *x,
        }
    }

    pub fn y_offset(&self) -> (y: Fixed)
        ensures
            y == self.spec_y_offset(),
    {
        match self {
            GlyphOffsets::Initial(_, _, y) => *y,
            GlyphOffsets::Overlay(_, _, y) => *y,
        }
    }

    pub fn is_overlay(&self) -> (r: bool)
        ensures
            r == (self is Overlay),
    {
        match self {
            GlyphOffsets::Initial(_, _, _) => false,
            GlyphOffsets::Overlay(_, _, _) => true,
        }
    }

    /// The offsets with the accents of the typeface put right. In the typeface of fixed
    /// pitch (`is_variable_width`), an accent that is laid over a glyph is raised to whole
    /// pixels; in the others it is lowered to whole pixels. An accent that stands alone
    /// has no offsets. Every other glyph keeps its offsets.
    pub open spec fn spec_patched(&self, is_variable_width: bool) -> GlyphOffsets {
        match self {
            GlyphOffsets::Overlay(id, x, y) => if is_variable_width {
                if is_raised_overlay(*id) {
                    GlyphOffsets::Overlay(
                        *id,
                        *x,
                        Fixed { raw: clamp_i64(-floor_raw(-y@)) as i64 },
                    )
                } else {
                    *self
                }
            } else {
                if is_lowered_overlay(*id) {
                    GlyphOffsets::Overlay(*id, *x, Fixed { raw: clamp_i64(floor_raw(y@)) as i64 })
                } else {
                    *self
                }
            },
            GlyphOffsets::Initial(id, x, y) => if (is_variable_width && is_lone_accent_of_code(*id))
                || (!is_variable_width && is_lone_accent(*id)) {
                GlyphOffsets::Initial(*id, Fixed { raw: 0 }, Fixed { raw: 0 })
            } else {
                *self
            },
        }
    }

    pub fn patch(&mut self, is_variable_width: bool)
        ensures
            *final(self) == old(self).spec_patched(is_variable_width),
    {
        let patched = match *self {
            GlyphOffsets::Overlay(id, x, y) => {
                if is_variable_width {
                    if (532 <= id && id <= 548) || id == 549 || id == 551 {
                        GlyphOffsets::Overlay(id, x, y.ceil())
                    } else {
                        *self
                    }
                } else {
                    if 787 <= id && id <= 804 {
                        GlyphOffsets::Overlay(id, x, y.floor())
                    } else {
                        *self
                    }
                }
            },
            GlyphOffsets::Initial(id, x, y) => {
                if (is_variable_width && 556 <= id && id <= 569) || (!is_variable_width && 812
                    <= id && id <= 825) {
                    GlyphOffsets::Initial(id, Fixed::zero(), Fixed::zero())
                } else {
                    *self
                }
            },
        };
        *self = patched;
    }
}

/// What is to be rendered for a glyph, and what is known of the glyph before that.
#[derive(Clone, Copy, Debug, PartialEq, Eq, Structural)]
pub struct RenderPlan {
    pub id: u16,
    /// The number of images to render: none, one for every position, or one for each.
    pub count: u8,
    /// The fractions of a pixel by which the outline is moved before it is rendered.
    pub x_fract: Fixed,
    pub y_fract: Fixed,
    /// The whole pixels by which the glyph is moved.
    pub x_whole: Fixed,
    pub y_whole: Fixed,
    /// The columns by which every image is moved to center it in its cell: to the right
    /// where the cell is wider than the outline, to the left where it is narrower.
    pub centering: i32,
    pub advance_width: Fixed,
    pub positions: u8,
    pub bit_depth: u8,
}

/// Half of `raw` units as whole pixels, cut off toward zero and clamped.
pub open spec fn half_columns_of(raw: int) -> i32 {
    if raw >= 0 {
        to_i32_clamped(raw / 131072)
    } else {
        to_i32_clamped(-((-raw) / 131072))
    }
}

impl GlyphOffsets {
    /// The plan for a glyph whose outline advances by `advance_width` and is
    /// `advance_height` high.
    ///
    /// The glyph's advance is put on the grid, and half of what that adds to it or takes
    /// from it, in whole pixels, centers its images. A glyph of a typeface of fixed pitch, a glyph as high as it is wide and the
    /// glyph for what is not defined get one image for every position; every other glyph
    /// gets one for each. Nothing is rendered below 1.25 pixels per em, nor for an overlay
    /// that is not moved to the left.
    pub open spec fn spec_plan(
        &self,
        positions: u8,
        bit_depth: u8,
        advance_width: Fixed,
        advance_height: Fixed,
        spacing: &GlyphSpacing,
    ) -> RenderPlan {
        let new_advance = spacing.spec_halfwidths(advance_width);
        let x = spacing.spec_compensate(self.spec_x_offset());
        let y = self.spec_y_offset()@;
        let is_repeating = spacing.is_code || advance_width == advance_height || self.spec_id()
            == 0;
        let renders = !(spacing.halfwidth is Zero) && (!(self is Overlay)
            || self.spec_x_offset()@ < 0);
        RenderPlan {
            id: self.spec_id(),
            count: if !renders {
                0
            } else if is_repeating {
                1
            } else {
                positions
            },
            x_fract: Fixed { raw: (x - trunc_raw(x)) as i64 },
            y_fract: Fixed { raw: (y - trunc_raw(y)) as i64 },
            x_whole: Fixed { raw: trunc_raw(x) as i64 },
            y_whole: Fixed { raw: trunc_raw(y) as i64 },
            centering: half_columns_of(clamp_i64(new_advance - advance_width@)),
            advance_width: Fixed { raw: new_advance as i64 },
            positions,
            bit_depth,
        }
    }

    pub fn plan(
        &self,
        positions: u8,
        bit_depth: u8,
        advance_width: Fixed,
        advance_height: Fixed,
        spacing: &GlyphSpacing,
    ) -> (plan: RenderPlan)
        requires
            spacing.wf(),
        ensures
            plan == self.spec_plan(positions, bit_depth, advance_width, advance_height, spacing),
    {
        let new_advance = spacing.halfwidths(advance_width);
        let x = spacing.compensate(self.x_offset());
        let y = self.y_offset();
        let is_repeating = spacing.is_code || advance_width.raw == advance_height.raw || self.id()
            == 0;
        let renders = match spacing.halfwidth {
            Halfwidth::Zero => false,
            _ => !self.is_overlay() || self.x_offset().raw < 0,
        };
        let added: i128 = new_advance.saturating_sub(advance_width).raw as i128;
        let columns: i128 = if added >= 0 {
            added / 131072
        } else {
            -((-added) / 131072)
        };
        let centering: i32 = if columns < -2147483648i128 {
            i32::MIN
        } else if columns > 2147483647i128 {
            i32::MAX
        } else {
            columns as i32
        };
        RenderPlan {
            id: self.id(),
            count: if !renders {
                0
            } else if is_repeating {
                1
            } else {
                positions
            },
            x_fract: x.fract(),
            y_fract: y.fract(),
            x_whole: x.trunc(),
            y_whole: y.trunc(),
            centering,
            advance_width: new_advance,
            positions,
            bit_depth,
        }
    }
}

impl RenderPlan {
    /// The offset of the outline for image `index`: the fractions of the glyph's offsets,
    /// and `index` of `count` parts of a pixel to the right.
    pub fn offset_of(&self, index: u8) -> (offset: (Fixed, Fixed))
        requires
            index < self.count,
        ensures
            offset.0@ == clamp_i64(
                self.x_fract@ + clamp_i64((index as int * 65536) / (self.count as int)),
            ),
            offset.1 == self.y_fract,
    {
        (self.x_fract.saturating_add(Fixed::from_ratio(index as i64, self.count as i64)), self.y_fract)
    }

    /// The image of a rendering of `width` columns whose first pixel is `left` to the
    /// right of the origin and `top` above it: the coverage packed at the plan's bit depth
    /// and centered in the cell. A rendering without coverage gives no image.
    pub fn image(&self, left: i32, top: i32, width: u32, coverage: &[u8]) -> (image: Option<Image>)
        requires
            is_bit_depth(self.bit_depth),
            coverage@.len() > 0 && self.bit_depth != 8 ==> width > 0 && coverage@.len() as int % (
            width as int) == 0,
        ensures
            coverage@.len() == 0 ==> image is None,
            coverage@.len() > 0 ==> (image matches Some(image) && image.left == to_i32_clamped(
                left + self.centering,
            ) && image.top == top && image.width == width && image.data@ == quantized(
                coverage@,
                width as int,
                self.bit_depth,
            )),
    {
        if coverage.len() == 0 {
            return None;
        }
        Some(
            Image {
                left: add_clamped(left, self.centering),
                top,
                width,
                data: quantize(coverage, width, self.bit_depth),
            },
        )
    }

    /// The glyph of the plan with its images.
    pub fn glyph(&self, images: Vec<Image>) -> (glyph: Glyph)
        ensures
            glyph.x_offset == self.x_whole,
            glyph.y_offset == self.y_whole,
            glyph.positions == self.positions,
            glyph.bit_depth == self.bit_depth,
            glyph.id == self.id,
            glyph.advance_width == self.advance_width,
            glyph.images.0@ == images@,
    {
        Glyph {
            x_offset: self.x_whole,
            y_offset: self.y_whole,
            positions: self.positions,
            bit_depth: self.bit_depth,
            id: self.id,
            advance_width: self.advance_width,
            images: ImageList(images),
        }
    }
}

} // verus!
