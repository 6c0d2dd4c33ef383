//! Glyphs: the images of one glyph of a cluster, and the glyphs that are laid over it.

use crate::fixed::Fixed;
use crate::image::{Image, ImageSet};
use vstd::prelude::*;

verus! {

/// A glyph of the font, and the rest of its cluster.
#[derive(Debug)]
pub struct Glyph<'a> {
    pub id: u16,
    pub images: ImageSet<'a>,
    pub next: Option<Box<NextGlyph<'a>>>,
}

/// A glyph that is laid over the one before it in its cluster, moved by `x_offset` to the
/// right and by `y_offset` up.
#[derive(Debug)]
pub struct NextGlyph<'a> {
    pub x_offset: Fixed,
    pub y_offset: Fixed,
    pub glyph: Glyph<'a>,
}

impl<'a> Glyph<'a> {
    /// The glyph without an image.
    pub fn null(data: &'a [u8]) -> (glyph: Self)
        ensures
            glyph.id == 0,
            glyph.next is None,
            glyph.wf(),
            glyph.overlays() == 0,
            glyph.images matches ImageSet::Repeated(image) && image.image_drawable.size == (
            crate::rect::Size { width: 0, height: 0 }) && image.offset == (crate::rect::Point {
                x: 0,
                y: 0,
            }),
    {
        Glyph { id: 0, images: ImageSet::Repeated(Image::null(data)), next: None }
    }

    /// Whether the glyph and every glyph after it have an image for every position.
    pub open spec fn wf(&self) -> bool
        decreases self,
    {
        &&& self.images.wf()
        &&& match self.next {
            Some(next) => next.glyph.wf(),
            None => true,
        }
    }

    /// The number of glyphs that are laid over this one.
    pub open spec fn overlays(&self) -> nat
        decreases self,
    {
        match self.next {
            Some(next) => 1 + next.glyph.overlays(),
            None => 0,
        }
    }
}

/// The number of glyphs from `next` on.
pub open spec fn chain_len(next: Option<&NextGlyph>) -> nat {
    match next {
        Some(next) => 1 + next.glyph.overlays(),
        None => 0,
    }
}

} // verus!
