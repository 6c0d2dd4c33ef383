//! The font asset: a character map, the font's measures, and how its glyph images are
//! to be read.

use crate::charmap::{Charmap, CharmapEntry, CharmapNode, Trie};
use crate::compile::quantize::is_bit_depth;
use crate::metrics::{BitmapFontMetrics, DecorationDimensions};
use vstd::prelude::*;

verus! {

/// A bitmap font. Its glyph images hold `bit_depth` bits for a pixel, and a glyph that is
/// drawn at a fraction of a pixel has an image for each of `positions` fractions.
#[derive(Debug)]
pub struct BitmapFont<'a> {
    pub charmap: Charmap<'a>,
    pub metrics: BitmapFontMetrics,
    pub underline: DecorationDimensions,
    pub strikethrough: DecorationDimensions,
    pub positions: usize,
    pub bit_depth: u8,
}

impl<'a> BitmapFont<'a> {
    /// Whether the character map is well formed, and the font has at least one position
    /// and one of the bit depths.
    pub open spec fn wf(&self) -> bool {
        &&& self.charmap.wf()
        &&& self.positions > 0
        &&& is_bit_depth(self.bit_depth)
    }

    /// The font of one entry without a key, in which no text advances.
    pub fn null(data: &'a [u8]) -> (font: Self)
        ensures
            font.wf(),
            font.charmap.entries@.len() == 1,
            font.charmap.entries@[0].key@.len() == 0,
            font.charmap.entries@[0].advance_chars == 0,
            font.charmap.entries@[0].advance_widths.default@ == 0,
            font.charmap.entries@[0].glyph.id == 0,
            font.charmap.trie.nodes@.len() == 1,
            font.charmap.trie.nodes@[0].entry == 0,
            font.charmap.trie.nodes@[0].children@.len() == 0,
            font.metrics.top@ == 0 && font.metrics.bottom@ == 0,
            font.underline.height@ == 0 && font.strikethrough.height@ == 0,
            font.positions == 1,
            font.bit_depth == 8,
    {
        let mut entries: Vec<CharmapEntry<'a>> = Vec::new();
        entries.push(CharmapEntry::null(data));
        let mut nodes: Vec<CharmapNode> = Vec::new();
        nodes.push(CharmapNode { entry: 0, children: Vec::new() });
        BitmapFont {
            charmap: Charmap { entries, trie: Trie { nodes } },
            metrics: BitmapFontMetrics::null(),
            underline: DecorationDimensions::null(),
            strikethrough: DecorationDimensions::null(),
            positions: 1,
            bit_depth: 8,
        }
    }
}

} // verus!
