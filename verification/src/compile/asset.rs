//! The compiled font, and the font asset that is made of it.

use crate::charmap::{child_place, char_at, find_from, AdvanceWidths, CharmapNode, Trie, width_to};
use crate::compile::bitmap::{chain_matches, images_match, Glyph};
use crate::compile::charmap::{is_longest_match, Charmap};
use crate::compile::dict::{key_place, CharmapEntry};
use crate::compile::quantize::is_bit_depth;
use crate::fixed::{clamp_i64, Fixed};
use crate::metrics::{BitmapFontMetrics, DecorationDimensions};
use vstd::prelude::*;

verus! {

/// A compiled font: the character map of the entries of the dictionary, the entry for what
/// is not defined, and the parameters that the font was compiled with.
#[derive(Debug)]
pub struct BitmapFont {
    pub charmap: Charmap,
    pub notdef: CharmapEntry,
    pub positions: u8,
    pub bit_depth: u8,
    pub size: Fixed,
    pub is_code: bool,
}

/// `size * thousandths / 1000`, rounded down to the next raw unit and clamped.
pub open spec fn share(size: Fixed, thousandths: int) -> int {
    clamp_i64((size@ * thousandths) / 1000)
}

/// The measures of a typeface at `size` pixels per em. The lines of a typeface of fixed
/// pitch lie at 1.235, 1, 0.73, 0.52, 0, -0.235 and -0.27 em; those of the others at 1.16,
/// 0.86, 0.73, 0.52, 0, -0.12 and -0.288 em.
pub open spec fn metrics_of(size: Fixed, is_code: bool) -> BitmapFontMetrics {
    BitmapFontMetrics {
        top: Fixed { raw: share(size, if is_code { 1235 } else { 1160 }) as i64 },
        ascender: Fixed { raw: share(size, if is_code { 1000 } else { 860 }) as i64 },
        cap_height: Fixed { raw: share(size, 730) as i64 },
        x_height: Fixed { raw: share(size, 520) as i64 },
        baseline: Fixed { raw: 0 },
        descender: Fixed { raw: share(size, if is_code { -235 } else { -120 }) as i64 },
        bottom: Fixed { raw: share(size, if is_code { -270 } else { -288 }) as i64 },
    }
}

/// A larger share of a size that is not negative is not smaller.
proof fn lemma_share_ordered(size: Fixed, a: int, b: int)
    requires
        size@ >= 0,
        a <= b,
    ensures
        share(size, a) <= share(size, b),
{
    assert(size@ * a <= size@ * b) by (nonlinear_arith)
        requires
            size@ >= 0,
            a <= b,
    ;
    vstd::arithmetic::div_mod::lemma_div_is_ordered(size@ * a, size@ * b, 1000);
}

/// The measures of a typeface at a size that is not negative are in order.
pub proof fn lemma_metrics_in_order(size: Fixed, is_code: bool)
    requires
        size@ >= 0,
    ensures
        metrics_of(size, is_code).in_order(),
{
    lemma_share_ordered(size, 1160, 1235);
    lemma_share_ordered(size, 1000, 1235);
    lemma_share_ordered(size, 860, 1160);
    lemma_share_ordered(size, 730, 860);
    lemma_share_ordered(size, 730, 1000);
    lemma_share_ordered(size, 520, 730);
    lemma_share_ordered(size, 0, 520);
    lemma_share_ordered(size, -120, 0);
    lemma_share_ordered(size, -235, 0);
    lemma_share_ordered(size, -288, -120);
    lemma_share_ordered(size, -270, -235);
    assert(size@ * 0 == 0);
    assert(share(size, 0) == 0);
}

/// The measures of a typeface at `size` pixels per em.
pub fn metrics(size: Fixed, is_code: bool) -> (m: BitmapFontMetrics)
    ensures
        m == metrics_of(size, is_code),
        size@ >= 0 ==> m.in_order(),
{
    proof {
        if size@ >= 0 {
            lemma_metrics_in_order(size, is_code);
        }
    }
    BitmapFontMetrics {
        top: size.scale(if is_code { 1235 } else { 1160 }, 1000),
        ascender: size.scale(if is_code { 1000 } else { 860 }, 1000),
        cap_height: size.scale(730, 1000),
        x_height: size.scale(520, 1000),
        baseline: Fixed::zero(),
        descender: size.scale(if is_code { -235 } else { -120 }, 1000),
        bottom: size.scale(if is_code { -270 } else { -288 }, 1000),
    }
}

/// A list of pairs gives the width of the first pair for a key, just as the table that
/// it was made of does.
proof fn lemma_same_widths(
    pairs: Seq<(&str, Fixed)>,
    table: Seq<(String, Fixed)>,
    default: Fixed,
    key: Seq<char>,
    from: int,
)
    requires
        0 <= from,
        pairs.len() == table.len(),
        forall|k: int|
            0 <= k < table.len() ==> (#[trigger] pairs[k]).0@ == table[k].0@ && pairs[k].1
                == table[k].1,
    ensures
        width_to(pairs, default, key, from) == ({
            let place = key_place(table.map_values(|pair: (String, Fixed)| pair.0@), key, from);
            if place < table.len() {
                table[place].1
            } else {
                default
            }
        }),
    decreases table.len() - from,
{
    let keys = table.map_values(|pair: (String, Fixed)| pair.0@);
    if from < table.len() {
        assert(keys[from] == table[from].0@);
        assert(pairs[from].0@ == table[from].0@);
        if keys[from] != key {
            lemma_same_widths(pairs, table, default, key, from + 1);
        }
    }
}

/// Whether `glyph` is the glyph of the asset for the cluster `glyphs`: the glyph whose
/// image has no pixels for no glyphs, and else the first glyph with the others laid over
/// it.
pub open spec fn glyph_matches(glyph: crate::glyph::Glyph, glyphs: Seq<Glyph>) -> bool {
    if glyphs.len() == 0 {
        glyph.id == 0 && glyph.next is None && images_match(glyph.images, Seq::empty(), 8)
    } else {
        &&& glyph.id == glyphs[0].id
        &&& chain_matches(glyph.next, glyphs, 1)
        &&& images_match(glyph.images, glyphs[0].images.0@, glyphs[0].bit_depth)
    }
}

impl CharmapEntry {
    /// Whether the entry's glyphs have one of the bit depths.
    pub open spec fn wf(&self) -> bool {
        self.glyphs.wf()
    }

    /// The entry of the asset: the same key, the same number of characters, the same
    /// advance width to every key, and the glyph of the entry's cluster.
    pub fn to_entry<'a>(&'a self) -> (entry: crate::charmap::CharmapEntry<'a>)
        requires
            self.wf(),
        ensures
            entry.key@ == self.key@,
            entry.advance_chars == self.advance_chars,
            entry.glyph.wf(),
            forall|key: Seq<char>| #[trigger]
                entry.spec_advance_width_to(key) == self.spec_advance_width_to(key),
            glyph_matches(entry.glyph, self.glyphs.0@),
    {
        let mut pairs: Vec<(&'a str, Fixed)> = Vec::new();
        let mut k: usize = 0;
        while k < self.advance_width_to.len()
            invariant
                k <= self.advance_width_to@.len(),
                pairs@.len() == k,
                forall|j: int|
                    0 <= j < k ==> (#[trigger] pairs@[j]).0@ == self.advance_width_to@[j].0@
                        && pairs@[j].1 == self.advance_width_to@[j].1,
            decreases self.advance_width_to@.len() - k,
        {
            pairs.push((self.advance_width_to[k].0.as_str(), self.advance_width_to[k].1));
            k = k + 1;
        }
        let entry = crate::charmap::CharmapEntry {
            key: self.key.as_str(),
            advance_chars: self.advance_chars,
            advance_widths: AdvanceWidths { default: self.advance_width, pairs },
            glyph: self.glyphs.to_glyph(),
        };
        proof {
            assert forall|key: Seq<char>| #[trigger]
                entry.spec_advance_width_to(key) == self.spec_advance_width_to(key) by {
                lemma_same_widths(
                    entry.advance_widths.pairs@,
                    self.advance_width_to@,
                    self.advance_width,
                    key,
                    0,
                );
            }
        }
        entry
    }
}

/// Whether two sequences of nodes name the same entries and have the same children.
pub open spec fn same_nodes(a: Seq<CharmapNode>, b: Seq<CharmapNode>) -> bool {
    &&& a.len() == b.len()
    &&& forall|i: int|
        0 <= i < a.len() ==> (#[trigger] a[i]).entry == b[i].entry && a[i].children@
            == b[i].children@
}

/// The descent through the same nodes ends at the same entry.
pub proof fn lemma_same_find(
    a: Seq<CharmapNode>,
    b: Seq<CharmapNode>,
    node: int,
    text: Seq<char>,
    at: int,
)
    requires
        same_nodes(a, b),
    ensures
        find_from(a, node, text, at) == find_from(b, node, text, at),
    decreases node,
{
    if 0 <= node < a.len() {
        let children = a[node].children@;
        let place = child_place(children, char_at(text, at), 0);
        if place < children.len() && 0 <= children[place].1 < node {
            lemma_same_find(a, b, children[place].1 as int, text, at + 1);
        }
    }
}

/// A copy of a trie.
pub fn copy_trie(trie: &Trie) -> (copy: Trie)
    ensures
        same_nodes(copy.nodes@, trie.nodes@),
{
    let mut nodes: Vec<CharmapNode> = Vec::new();
    let mut i: usize = 0;
    while i < trie.nodes.len()
        invariant
            i <= trie.nodes@.len(),
            nodes@.len() == i,
            forall|j: int|
                0 <= j < i ==> (#[trigger] nodes@[j]).entry == trie.nodes@[j].entry
                    && nodes@[j].children@ == trie.nodes@[j].children@,
        decreases trie.nodes@.len() - i,
    {
        let source = &trie.nodes[i].children;
        let mut children: Vec<(char, usize)> = Vec::new();
        let mut k: usize = 0;
        while k < source.len()
            invariant
                k <= source@.len(),
                children@ == source@.subrange(0, k as int),
            decreases source@.len() - k,
        {
            children.push(source[k]);
            proof {
                assert(children@ =~= source@.subrange(0, k + 1));
            }
            k = k + 1;
        }
        proof {
            assert(children@ =~= source@);
        }
        nodes.push(CharmapNode { entry: trie.nodes[i].entry, children });
        i = i + 1;
    }
    Trie { nodes }
}

impl BitmapFont {
    /// Whether the compiled font can be made into an asset: its trie leads to its
    /// entries or past the last one, its glyphs have one of the bit depths, and it has at
    /// least one sub-pixel position.
    pub open spec fn wf(&self) -> bool {
        &&& self.charmap.entries@.len() < usize::MAX
        &&& self.charmap.trie.wf(self.charmap.entries@.len() as int + 1)
        &&& forall|i: int|
            0 <= i < self.charmap.entries@.len() ==> (#[trigger] self.charmap.entries@[i]).wf()
        &&& self.notdef.wf()
        &&& self.positions > 0
        &&& is_bit_depth(self.bit_depth)
    }

    /// Whether every entry stands for at least one character, so that a text is used up
    /// entry by entry.
    pub open spec fn advances(&self) -> bool {
        &&& self.notdef.advance_chars > 0
        &&& forall|i: int|
            0 <= i < self.charmap.entries@.len() ==> (
            #[trigger] self.charmap.entries@[i]).advance_chars > 0
    }

    /// The entry of the compiled font at place `i`: after the entries of the character map
    /// comes the entry for what is not defined.
    pub open spec fn entry_at(&self, i: int) -> CharmapEntry {
        if i < self.charmap.entries@.len() {
            self.charmap.entries@[i]
        } else {
            self.notdef
        }
    }

    /// The font asset of the compiled font, with the lines `underline` and
    /// `strikethrough`. Its entries are those of the character map and, after them, the
    /// entry for what is not defined; a text reaches the same place in it as in the compiled
    /// font's trie.
    pub fn to_font<'a>(
        &'a self,
        underline: DecorationDimensions,
        strikethrough: DecorationDimensions,
    ) -> (font: crate::font::BitmapFont<'a>)
        requires
            self.wf(),
        ensures
            font.wf(),
            font.positions == self.positions,
            font.bit_depth == self.bit_depth,
            font.metrics == metrics_of(self.size, self.is_code),
            font.underline == underline,
            font.strikethrough == strikethrough,
            font.charmap.entries@.len() == self.charmap.entries@.len() + 1,
            forall|i: int|
                0 <= i < font.charmap.entries@.len() ==> (#[trigger] font.charmap.entries@[i]).key@
                    == self.entry_at(i).key@ && font.charmap.entries@[i].advance_chars
                    == self.entry_at(i).advance_chars && (forall|key: Seq<char>| #[trigger]
                    font.charmap.entries@[i].spec_advance_width_to(key) == self.entry_at(
                        i,
                    ).spec_advance_width_to(key)),
            forall|i: int|
                0 <= i < font.charmap.entries@.len() ==> glyph_matches(
                    (#[trigger] font.charmap.entries@[i]).glyph,
                    self.entry_at(i).glyphs.0@,
                ),
            forall|text: Seq<char>| #[trigger]
                font.charmap.trie.spec_find(text) == self.charmap.trie.spec_find(text),
            self.advances() ==> font.charmap.advances(),
    {
        let mut entries: Vec<crate::charmap::CharmapEntry<'a>> = Vec::new();
        let mut i: usize = 0;
        while i < self.charmap.entries.len()
            invariant
                self.wf(),
                i <= self.charmap.entries@.len(),
                entries@.len() == i,
                forall|j: int| 0 <= j < i ==> (#[trigger] entries@[j]).glyph.wf(),
                forall|j: int|
                    0 <= j < i ==> glyph_matches(
                        (#[trigger] entries@[j]).glyph,
                        self.entry_at(j).glyphs.0@,
                    ),
                forall|j: int|
                    0 <= j < i ==> (#[trigger] entries@[j]).key@ == self.entry_at(j).key@
                        && entries@[j].advance_chars == self.entry_at(j).advance_chars && (forall|
                        key: Seq<char>,
                    | #[trigger]
                        entries@[j].spec_advance_width_to(key) == self.entry_at(
                            j,
                        ).spec_advance_width_to(key)),
            decreases self.charmap.entries@.len() - i,
        {
            entries.push(self.charmap.entries[i].to_entry());
            i = i + 1;
        }
        entries.push(self.notdef.to_entry());
        let trie = copy_trie(&self.charmap.trie);
        proof {
            assert forall|text: Seq<char>| #[trigger]
                trie.spec_find(text) == self.charmap.trie.spec_find(text) by {
                lemma_same_find(
                    trie.nodes@,
                    self.charmap.trie.nodes@,
                    trie.nodes@.len() - 1,
                    text,
                    0,
                );
            }
            assert forall|a: int, k: int|
                0 <= a < trie.nodes@.len() && 0 <= k < trie.nodes@[a].children@.len() implies (
            #[trigger] trie.nodes@[a].children@[k]).1 < a by {
                assert(trie.nodes@[a].children@ == self.charmap.trie.nodes@[a].children@);
                assert(self.charmap.trie.nodes@[a].children@[k].1 < a);
            }
            assert forall|a: int| 0 <= a < trie.nodes@.len() implies (#[trigger] trie.nodes@[a]).entry
                < entries@.len() by {
                assert(self.charmap.trie.nodes@[a].entry < entries@.len());
            }
        }
        crate::font::BitmapFont {
            charmap: crate::charmap::Charmap { entries, trie },
            metrics: metrics(self.size, self.is_code),
            underline,
            strikethrough,
            positions: self.positions as usize,
            bit_depth: self.bit_depth,
        }
    }
}

/// In the font asset of a compiled font whose character map was built from its entries, a
/// text reaches the entry of the longest key that it starts with, or the entry for what is
/// not defined if it starts with none.
pub proof fn lemma_asset_finds_longest_match(
    compiled: &BitmapFont,
    font: &crate::font::BitmapFont,
    text: Seq<char>,
)
    requires
        forall|t: Seq<char>|
            is_longest_match(compiled.charmap.keys(), t, #[trigger] compiled.charmap.trie.spec_find(t)),
        forall|t: Seq<char>| #[trigger]
            font.charmap.trie.spec_find(t) == compiled.charmap.trie.spec_find(t),
    ensures
        is_longest_match(compiled.charmap.keys(), text, font.charmap.trie.spec_find(text)),
{
    assert(font.charmap.trie.spec_find(text) == compiled.charmap.trie.spec_find(text));
}

} // verus!
