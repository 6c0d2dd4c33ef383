//! What the rasterizer gives for a glyph, and what becomes of it in the font asset.

use crate::compile::quantize::is_bit_depth;
use crate::fixed::Fixed;
use crate::glyph::NextGlyph;
use crate::image::{ImageRaw, ImageSet};
use crate::rect::Point;
use vstd::prelude::*;

verus! {

/// The packed gray levels of one rendering of a glyph, with the place of its first pixel
/// from the glyph's origin: `left` to the right of it and `top` above it.
#[derive(Debug)]
pub struct Image {
    pub left: i32,
    pub top: i32,
    pub width: u32,
    pub data: Vec<u8>,
}

/// The renderings of a glyph at its sub-pixel positions.
#[derive(Debug)]
pub struct ImageList(pub Vec<Image>);

/// A rasterized glyph of a cluster.
#[derive(Debug)]
pub struct Glyph {
    /// The whole pixels by which the glyph is moved from the glyph before it.
    pub x_offset: Fixed,
    pub y_offset: Fixed,
    pub positions: u8,
    pub bit_depth: u8,
    pub id: u16,
    pub advance_width: Fixed,
    pub images: ImageList,
}

/// The glyphs of a cluster, the base glyph first.
#[derive(Debug)]
pub struct GlyphList(pub Vec<Glyph>);

/// Whether `image` is the image of the asset for the rendering `source`: the same data
/// read as rows of the rendering's width, placed where the rendering lies.
pub open spec fn image_matches(
    image: crate::image::Image<ImageRaw>,
    source: Image,
    bit_depth: u8,
) -> bool {
    let raw = image.image_drawable;
    &&& image.offset == (Point { x: source.left, y: source.top })
    &&& raw.bit_depth == bit_depth
    &&& raw.size.height == ImageRaw::rows_in(
        source.data@.len() as int,
        source.width as int,
        bit_depth,
    )
    &&& source.width == 0 ==> raw.size.width == 0 && raw.data@.len() == 0
    &&& source.width != 0 ==> raw.size.width == source.width && raw.data@ == source.data@
    &&& raw.well_formed()
}

/// Whether `set` holds the images of the asset for the renderings `list`: the image
/// without pixels for no rendering, one image for every position for one rendering, and
/// an image for each position otherwise.
pub open spec fn images_match(set: ImageSet, list: Seq<Image>, bit_depth: u8) -> bool {
    match set {
        ImageSet::Repeated(image) => if list.len() == 0 {
            image.image_drawable.size.width == 0 && image.image_drawable.size.height == 0
                && image.offset == (Point { x: 0, y: 0 })
        } else {
            list.len() == 1 && image_matches(image, list[0], bit_depth)
        },
        ImageSet::Array(images) => {
            &&& list.len() >= 2
            &&& images@.len() == list.len()
            &&& forall|k: int|
                0 <= k < list.len() ==> image_matches(#[trigger] images@[k], list[k], bit_depth)
        },
    }
}

/// Whether the glyphs from `next` on are those of the asset for the glyphs of `glyphs`
/// from place `i` on, each moved by its own whole pixels.
pub open spec fn chain_matches(next: Option<Box<NextGlyph>>, glyphs: Seq<Glyph>, i: int) -> bool
    decreases glyphs.len() - i,
{
    match next {
        None => i >= glyphs.len(),
        Some(next) => {
            &&& 0 <= i < glyphs.len()
            &&& next.x_offset == glyphs[i].x_offset
            &&& next.y_offset == glyphs[i].y_offset
            &&& next.glyph.id == glyphs[i].id
            &&& images_match(next.glyph.images, glyphs[i].images.0@, glyphs[i].bit_depth)
            &&& chain_matches(next.glyph.next, glyphs, i + 1)
        },
    }
}

/// A chain that matches glyphs has images for every position.
pub proof fn lemma_chain_wf(next: Option<Box<NextGlyph>>, glyphs: Seq<Glyph>, i: int)
    requires
        chain_matches(next, glyphs, i),
    ensures
        next matches Some(next) ==> next.glyph.wf(),
    decreases glyphs.len() - i,
{
    if let Some(next) = next {
        lemma_chain_wf(next.glyph.next, glyphs, i + 1);
    }
}

impl Image {
    /// The image of the asset for the rendering.
    pub fn as_image<'a>(&'a self, bit_depth: u8) -> (image: crate::image::Image<ImageRaw<'a>>)
        requires
            is_bit_depth(bit_depth),
        ensures
            image_matches(image, *self, bit_depth),
    {
        crate::image::Image::new(
            ImageRaw::new(self.data.as_slice(), self.width, bit_depth),
            Point::new(self.left, self.top),
        )
    }
}

impl ImageList {
    /// The images of the asset for the renderings.
    pub fn to_image_set<'a>(&'a self, bit_depth: u8) -> (set: ImageSet<'a>)
        requires
            is_bit_depth(bit_depth),
        ensures
            images_match(set, self.0@, bit_depth),
            set.wf(),
    {
        if self.0.len() == 0 {
            let nothing: &'a [u8] = &[];
            ImageSet::Repeated(crate::image::Image::null(nothing))
        } else if self.0.len() == 1 {
            ImageSet::Repeated(self.0[0].as_image(bit_depth))
        } else {
            let mut images: Vec<crate::image::Image<ImageRaw<'a>>> = Vec::new();
            let mut k: usize = 0;
            while k < self.0.len()
                invariant
                    is_bit_depth(bit_depth),
                    k <= self.0@.len(),
                    images@.len() == k,
                    forall|j: int|
                        0 <= j < k ==> image_matches(#[trigger] images@[j], self.0@[j], bit_depth),
                decreases self.0@.len() - k,
            {
                images.push(self.0[k].as_image(bit_depth));
                k = k + 1;
            }
            ImageSet::Array(images)
        }
    }
}

impl GlyphList {
    /// Whether every glyph has one of the bit depths.
    pub open spec fn wf(&self) -> bool {
        forall|i: int| 0 <= i < self.0@.len() ==> is_bit_depth((#[trigger] self.0@[i]).bit_depth)
    }

    /// The glyph of the asset for the cluster: its first glyph, with every further glyph
    /// laid over the one before it. A cluster without glyphs gives the glyph without an
    /// image.
    pub fn to_glyph<'a>(&'a self) -> (glyph: crate::glyph::Glyph<'a>)
        requires
            self.wf(),
        ensures
            glyph.wf(),
            self.0@.len() == 0 ==> glyph.id == 0 && glyph.next is None && images_match(
                glyph.images,
                Seq::empty(),
                8,
            ),
            self.0@.len() > 0 ==> glyph.id == self.0@[0].id && images_match(
                glyph.images,
                self.0@[0].images.0@,
                self.0@[0].bit_depth,
            ) && chain_matches(glyph.next, self.0@, 1),
    {
        if self.0.len() == 0 {
            let nothing: &'a [u8] = &[];
            return crate::glyph::Glyph::null(nothing);
        }
        let mut next: Option<Box<NextGlyph<'a>>> = None;
        let mut i: usize = self.0.len();
        while i > 1
            invariant
                self.wf(),
                1 <= i <= self.0@.len(),
                chain_matches(next, self.0@, i as int),
            decreases i,
        {
            i = i - 1;
            let source = &self.0[i];
            let glyph = crate::glyph::Glyph {
                id: source.id,
                images: source.images.to_image_set(source.bit_depth),
                next,
            };
            next = Some(
                Box::new(NextGlyph { x_offset: source.x_offset, y_offset: source.y_offset, glyph }),
            );
        }
        let source = &self.0[0];
        proof {
            lemma_chain_wf(next, self.0@, 1);
        }
        crate::glyph::Glyph {
            id: source.id,
            images: source.images.to_image_set(source.bit_depth),
            next,
        }
    }
}

} // verus!
