//! The renderer: the walk along a text that places glyph images, the measures of a line of
//! text, and the list of what is painted where when the line is drawn.

pub use crate::builder::BitmapFontStyleBuilder;
use crate::charmap::{find_from, Charmap, CharmapEntry};
use crate::fixed::{clamp_i32, clamp_i64, subpixel_of, whole_pixels, Fixed};
use crate::glyph::{chain_len, Glyph, NextGlyph};
use crate::color::{Colormap, Dark, Invert, Screen};
use crate::image::{Colors, ImageMix, MixFill};
use crate::font::BitmapFont;
use crate::image::{Image, ImageRaw, ImageSet, SubImage};
use crate::metrics::{pixels_up, Baseline};
use crate::rect::{
    add_clamped, extent_between, extent_of, larger_i32, max_i32, sub_clamped, to_i32_clamped,
    Point, Rectangle, RectangleExt, Size,
};
use crate::text::chars_of;
use vstd::prelude::*;

verus! {

/// A glyph image with its place on the grid. An overlay is laid over the glyph before it.
#[derive(Clone, Copy, Debug)]
pub struct PlacedImage<'a> {
    pub image: Image<ImageRaw<'a>>,
    pub is_overlay: bool,
}

/// Where the walk along a text stands.
#[derive(Clone, Copy)]
pub struct Walk<'a, 'f> {
    /// The number of characters that are used up.
    pub pos: usize,
    /// The horizontal place of the entry that was looked up last.
    pub x: Fixed,
    /// The overlays that are still to be placed.
    pub pending: Option<&'f NextGlyph<'a>>,
    /// The entry that was looked up while overlays were pending, and is still to be placed.
    pub held: Option<usize>,
    /// The entry that the next advance is taken from.
    pub previous: Option<usize>,
}

/// The glyph that is laid over `glyph`, if there is one.
pub open spec fn next_of<'a, 'f>(glyph: &'f Glyph<'a>) -> Option<&'f NextGlyph<'a>> {
    match glyph.next {
        Some(next) => Some(&*next),
        None => None,
    }
}

/// The image of `images` for the horizontal place `x`, put at the whole pixels of `x` and
/// `y`; the image's own vertical offset counts upwards.
pub open spec fn placed<'a>(images: &ImageSet<'a>, positions: int, x: Fixed, y: Fixed) -> Image<
    ImageRaw<'a>,
> {
    let image = images.spec_get(subpixel_of(x@, positions));
    Image {
        image_drawable: image.image_drawable,
        offset: Point {
            x: to_i32_clamped(image.offset.x + clamp_i32(whole_pixels(x@))),
            y: to_i32_clamped(to_i32_clamped(-(image.offset.y as int)) + clamp_i32(whole_pixels(y@))),
        },
    }
}

/// The image of an overlay, for a walk that stands at `x` on the line `y`.
pub open spec fn placed_overlay<'a>(next: &NextGlyph<'a>, positions: int, x: Fixed, y: Fixed) -> PlacedImage<'a> {
    PlacedImage {
        image: placed(
            &next.glyph.images,
            positions,
            Fixed { raw: clamp_i64(x@ + next.x_offset@) as i64 },
            Fixed { raw: clamp_i64(y@ - next.y_offset@) as i64 },
        ),
        is_overlay: true,
    }
}

/// The advance from the entry `previous`, if there is one, to an entry of key `key`.
pub open spec fn advance_from(
    entries: Seq<CharmapEntry>,
    previous: Option<usize>,
    key: Seq<char>,
) -> Fixed {
    match previous {
        Some(p) => if p < entries.len() {
            entries[p as int].spec_advance_width_to(key)
        } else {
            Fixed { raw: 0 }
        },
        None => Fixed { raw: 0 },
    }
}

/// Whether the walk names entries of the map, stands in the text, and has overlays with
/// images for every position.
pub open spec fn walk_ok(charmap: &Charmap, text: Seq<char>, walk: Walk) -> bool {
    &&& walk.pos <= text.len() <= usize::MAX
    &&& (walk.held matches Some(e) ==> e < charmap.entries@.len())
    &&& (walk.previous matches Some(p) ==> p < charmap.entries@.len())
    &&& (walk.pending matches Some(next) ==> next.glyph.wf())
}

/// One step of the walk: the next image, if there is one, and where the walk stands
/// after it.
///
/// With the text used up and nothing held, the walk advances past the last entry and places
/// what is left of the overlays, one by one. Otherwise it takes the entry that it holds, or
/// looks up the entry for the rest of the text, advances to it from the entry before and
/// uses up the entry's characters. Then it places the next pending overlay, holding the
/// entry, or else the entry's own glyph, whose overlays become the pending ones.
pub open spec fn step<'a, 'f>(
    charmap: &'f Charmap<'a>,
    positions: int,
    text: Seq<char>,
    y: Fixed,
    walk: Walk<'a, 'f>,
) -> (Walk<'a, 'f>, Option<PlacedImage<'a>>) {
    let entries = charmap.entries@;
    if walk.held is None && walk.pos >= text.len() {
        let advance = advance_from(entries, walk.previous, Seq::empty());
        let x = Fixed { raw: clamp_i64(walk.x@ + advance@) as i64 };
        match walk.pending {
            Some(next) => (
                Walk { pos: walk.pos, x, pending: next_of(&next.glyph), held: None, previous: None },
                Some(placed_overlay(next, positions, x, y)),
            ),
            None => (Walk { pos: walk.pos, x, pending: None, held: None, previous: None }, None),
        }
    } else {
        let looked_up = find_from(
            charmap.trie.nodes@,
            charmap.trie.nodes@.len() - 1,
            text,
            walk.pos as int,
        ) as usize;
        let entry = match walk.held {
            Some(e) => e,
            None => looked_up,
        };
        let advance = advance_from(entries, walk.previous, entries[entry as int].key@);
        let x = if walk.held is Some {
            walk.x
        } else {
            Fixed { raw: clamp_i64(walk.x@ + advance@) as i64 }
        };
        let pos = if walk.held is Some {
            walk.pos
        } else if walk.pos + entries[entry as int].advance_chars <= text.len() {
            (walk.pos + entries[entry as int].advance_chars) as usize
        } else {
            text.len() as usize
        };
        let previous = if walk.held is Some {
            walk.previous
        } else {
            Some(entry)
        };
        match walk.pending {
            Some(next) => (
                Walk { pos, x, pending: next_of(&next.glyph), held: Some(entry), previous },
                Some(placed_overlay(next, positions, x, y)),
            ),
            None => (
                Walk {
                    pos,
                    x,
                    pending: next_of(&entries[entry as int].glyph),
                    held: None,
                    previous,
                },
                Some(
                    PlacedImage {
                        image: placed(&entries[entry as int].glyph.images, positions, x, y),
                        is_overlay: false,
                    },
                ),
            ),
        }
    }
}

/// What the walk still has to place before it moves on in the text.
pub open spec fn walk_weight(charmap: &Charmap, walk: Walk) -> nat {
    match walk.held {
        Some(e) => if e < charmap.entries@.len() {
            1 + charmap.entries@[e as int].glyph.overlays() + chain_len(walk.pending)
        } else {
            chain_len(walk.pending)
        },
        None => chain_len(walk.pending),
    }
}

/// The glyphs that are laid over a glyph are its overlays, and have images for every
/// position if the glyph and all after it have.
pub proof fn lemma_chain(glyph: &Glyph)
    ensures
        chain_len(next_of(glyph)) == glyph.overlays(),
        glyph.wf() ==> (next_of(glyph) matches Some(next) ==> next.glyph.wf()),
{
}

/// A step leaves the walk in order, and nearer to its end.
pub proof fn lemma_step_decreases<'a, 'f>(
    charmap: &'f Charmap<'a>,
    positions: int,
    text: Seq<char>,
    y: Fixed,
    walk: Walk<'a, 'f>,
)
    requires
        charmap.wf(),
        charmap.advances(),
        walk_ok(charmap, text, walk),
    ensures
        walk_ok(charmap, text, step(charmap, positions, text, y, walk).0),
        step(charmap, positions, text, y, walk).1 is Some ==> (text.len() - step(
            charmap,
            positions,
            text,
            y,
            walk,
        ).0.pos < text.len() - walk.pos || (text.len() - step(
            charmap,
            positions,
            text,
            y,
            walk,
        ).0.pos == text.len() - walk.pos && walk_weight(
            charmap,
            step(charmap, positions, text, y, walk).0,
        ) < walk_weight(charmap, walk))),
{
    let entries = charmap.entries@;
    if let Some(next) = walk.pending {
        lemma_chain(&next.glyph);
    }
    if walk.held is None && walk.pos >= text.len() {
    } else {
        crate::charmap::lemma_find_reaches_entry(
            charmap.trie,
            entries.len() as int,
            text,
            charmap.trie.nodes@.len() - 1,
            walk.pos as int,
        );
        let looked_up = find_from(
            charmap.trie.nodes@,
            charmap.trie.nodes@.len() - 1,
            text,
            walk.pos as int,
        ) as usize;
        let entry = match walk.held {
            Some(e) => e,
            None => looked_up,
        };
        assert(entries[entry as int].glyph.wf());
        assert(entries[entry as int].advance_chars > 0);
        lemma_chain(&entries[entry as int].glyph);
    }
}

/// The images that the walk places from `walk` on, and the horizontal place at which it
/// ends.
pub open spec fn walk_from<'a, 'f>(
    charmap: &'f Charmap<'a>,
    positions: int,
    text: Seq<char>,
    y: Fixed,
    walk: Walk<'a, 'f>,
) -> (Seq<PlacedImage<'a>>, Fixed)
    decreases text.len() - walk.pos, walk_weight(charmap, walk),
    when charmap.wf() && charmap.advances() && walk_ok(charmap, text, walk)
{
    let (after, image) = step(charmap, positions, text, y, walk);
    match image {
        Some(image) => {
            proof {
                lemma_step_decreases(charmap, positions, text, y, walk);
            }
            let (rest, x) = walk_from(charmap, positions, text, y, after);
            (seq![image] + rest, x)
        },
        None => (Seq::empty(), after.x),
    }
}

/// The place in the text after the entry `entry` that was looked up at place `pos`: the
/// entry's characters further on, or the end of the text if that is nearer.
pub open spec fn place_after(charmap: &Charmap, text: Seq<char>, pos: int, entry: int) -> int {
    if pos + charmap.entries@[entry].advance_chars <= text.len() {
        pos + charmap.entries@[entry].advance_chars
    } else {
        text.len() as int
    }
}

/// The entries that use up a text from place `pos` on, one after the other: each is the
/// entry for the rest of the text after the one before.
pub open spec fn entries_from(charmap: &Charmap, text: Seq<char>, pos: int) -> Seq<int>
    decreases text.len() - pos,
    when charmap.wf() && charmap.advances() && 0 <= pos
{
    if pos >= text.len() {
        Seq::empty()
    } else {
        let entry = find_from(charmap.trie.nodes@, charmap.trie.nodes@.len() - 1, text, pos);
        proof {
            crate::charmap::lemma_find_reaches_entry(
                charmap.trie,
                charmap.entries@.len() as int,
                text,
                charmap.trie.nodes@.len() - 1,
                pos,
            );
        }
        seq![entry] + entries_from(charmap, text, place_after(charmap, text, pos, entry))
    }
}

/// The number of images of entries: for each entry its own glyph and the overlays of that
/// glyph.
pub open spec fn images_of(charmap: &Charmap, entries: Seq<int>) -> nat
    decreases entries.len(),
{
    if entries.len() == 0 {
        0
    } else {
        1 + charmap.entries@[entries[0]].glyph.overlays() + images_of(
            charmap,
            entries.drop_first(),
        )
    }
}

/// The place at which a walk ends that stands at `x` after the entry `previous` and goes
/// through `entries`: to each entry it advances by the width from the entry before to that
/// entry's key, and at the end by the width from the last entry to no key.
pub open spec fn advanced(
    charmap: &Charmap,
    x: Fixed,
    previous: Option<usize>,
    entries: Seq<int>,
) -> Fixed
    decreases entries.len(),
{
    if entries.len() == 0 {
        Fixed {
            raw: clamp_i64(x@ + advance_from(charmap.entries@, previous, Seq::empty())@) as i64,
        }
    } else {
        advanced(
            charmap,
            Fixed {
                raw: clamp_i64(
                    x@ + advance_from(
                        charmap.entries@,
                        previous,
                        charmap.entries@[entries[0]].key@,
                    )@,
                ) as i64,
            },
            Some(entries[0] as usize),
            entries.drop_first(),
        )
    }
}

/// What is left of a walk: it places the overlays that are pending, the glyph and the
/// overlays of the entry that it holds, and the glyphs and overlays of the entries that use
/// up the rest of the text; and it ends where the advances through these entries lead.
pub proof fn lemma_walk_counts_and_ends<'a, 'f>(
    charmap: &'f Charmap<'a>,
    positions: int,
    text: Seq<char>,
    y: Fixed,
    walk: Walk<'a, 'f>,
)
    requires
        charmap.wf(),
        charmap.advances(),
        walk_ok(charmap, text, walk),
    ensures
        walk_from(charmap, positions, text, y, walk).0.len() == chain_len(walk.pending) + (
        match walk.held {
            Some(entry) => 1 + charmap.entries@[entry as int].glyph.overlays(),
            None => 0,
        }) + images_of(charmap, entries_from(charmap, text, walk.pos as int)),
        walk_from(charmap, positions, text, y, walk).1 == advanced(
            charmap,
            walk.x,
            walk.previous,
            entries_from(charmap, text, walk.pos as int),
        ),
    decreases text.len() - walk.pos, walk_weight(charmap, walk),
{
    let entries = charmap.entries@;
    let (after, image) = step(charmap, positions, text, y, walk);
    let whole = walk_from(charmap, positions, text, y, walk);
    let later = walk_from(charmap, positions, text, y, after);
    lemma_step_decreases(charmap, positions, text, y, walk);
    if let Some(next) = walk.pending {
        lemma_chain(&next.glyph);
    }
    match image {
        Some(placed) => {
            assert(whole == (seq![placed] + later.0, later.1));
            assert(whole.0.len() == 1 + later.0.len());
        },
        None => {
            assert(whole == (Seq::<PlacedImage>::empty(), after.x));
        },
    }
    if walk.held is None && walk.pos >= text.len() {
        assert(entries_from(charmap, text, walk.pos as int) =~= Seq::<int>::empty());
        assert(images_of(charmap, Seq::<int>::empty()) == 0);
        if walk.pending is Some {
            lemma_walk_counts_and_ends(charmap, positions, text, y, after);
            assert(entries_from(charmap, text, after.pos as int) =~= Seq::<int>::empty());
            assert(advance_from(entries, None, Seq::empty())@ == 0);
        }
    } else {
        crate::charmap::lemma_find_reaches_entry(
            charmap.trie,
            entries.len() as int,
            text,
            charmap.trie.nodes@.len() - 1,
            walk.pos as int,
        );
        let found = find_from(
            charmap.trie.nodes@,
            charmap.trie.nodes@.len() - 1,
            text,
            walk.pos as int,
        );
        let looked_up = found as usize;
        assert(charmap.entries@.len() == charmap.entries.len());
        assert(looked_up as int == found);
        let entry = match walk.held {
            Some(e) => e,
            None => looked_up,
        };
        assert(entries[entry as int].advance_chars > 0);
        lemma_chain(&entries[entry as int].glyph);
        lemma_walk_counts_and_ends(charmap, positions, text, y, after);
        if walk.held is None {
            let list = entries_from(charmap, text, walk.pos as int);
            let rest = entries_from(charmap, text, after.pos as int);
            assert(after.pos as int == place_after(charmap, text, walk.pos as int, found));
            assert(list == seq![found] + rest);
            assert(list.drop_first() =~= rest);
            assert(list[0] == found);
            assert(images_of(charmap, list) == 1 + entries[found].glyph.overlays() + images_of(
                charmap,
                rest,
            ));
            assert(after.previous == Some(looked_up));
            assert(advanced(charmap, walk.x, walk.previous, list) == advanced(
                charmap,
                after.x,
                Some(found as usize),
                rest,
            ));
        }
    }
}

/// A walk from the start of a text places as many images as the entries that use up the
/// text have glyphs and overlays, and ends at the start plus the advances from entry to
/// entry, in their order, and the advance after the last entry.
pub proof fn lemma_walk_from_start<'a, 'f>(
    charmap: &'f Charmap<'a>,
    positions: int,
    text: Seq<char>,
    y: Fixed,
    x: Fixed,
)
    requires
        charmap.wf(),
        charmap.advances(),
        text.len() <= usize::MAX,
    ensures
        walk_from(charmap, positions, text, y, start_walk(x)).0.len() == images_of(
            charmap,
            entries_from(charmap, text, 0),
        ),
        walk_from(charmap, positions, text, y, start_walk(x)).1 == advanced(
            charmap,
            x,
            None,
            entries_from(charmap, text, 0),
        ),
{
    lemma_walk_counts_and_ends(charmap, positions, text, y, start_walk(x));
}

/// The entries that use up a text are entries of the character map.
pub proof fn lemma_entries_in_range(charmap: &Charmap, text: Seq<char>, pos: int, i: int)
    requires
        charmap.wf(),
        charmap.advances(),
        0 <= pos,
        0 <= i < entries_from(charmap, text, pos).len(),
    ensures
        0 <= entries_from(charmap, text, pos)[i] < charmap.entries@.len(),
    decreases text.len() - pos,
{
    if pos < text.len() {
        crate::charmap::lemma_find_reaches_entry(
            charmap.trie,
            charmap.entries@.len() as int,
            text,
            charmap.trie.nodes@.len() - 1,
            pos,
        );
        let entry = find_from(charmap.trie.nodes@, charmap.trie.nodes@.len() - 1, text, pos);
        if i > 0 {
            lemma_entries_in_range(charmap, text, place_after(charmap, text, pos, entry), i - 1);
        }
    }
}

/// Where every entry stands for one character, a text is used up by as many entries as it
/// has characters.
pub proof fn lemma_one_entry_for_each_character(charmap: &Charmap, text: Seq<char>, pos: int)
    requires
        charmap.wf(),
        charmap.advances(),
        0 <= pos <= text.len(),
        forall|e: int|
            0 <= e < charmap.entries@.len() ==> (#[trigger] charmap.entries@[e]).advance_chars == 1,
    ensures
        entries_from(charmap, text, pos).len() == text.len() - pos,
    decreases text.len() - pos,
{
    if pos < text.len() {
        crate::charmap::lemma_find_reaches_entry(
            charmap.trie,
            charmap.entries@.len() as int,
            text,
            charmap.trie.nodes@.len() - 1,
            pos,
        );
        lemma_one_entry_for_each_character(charmap, text, pos + 1);
    }
}

/// Whether none of the entries has a glyph with overlays.
pub open spec fn plain(charmap: &Charmap, entries: Seq<int>) -> bool {
    forall|i: int|
        0 <= i < entries.len() ==> 0 <= #[trigger] entries[i] < charmap.entries@.len()
            && charmap.entries@[entries[i]].glyph.next is None
}

/// The place at which entry `i` of `entries` is put by a walk that stands at `x` after the
/// entry `previous`: the place of the entry before, advanced by the width from that entry
/// to this entry's key.
pub open spec fn cursor_at(
    charmap: &Charmap,
    x: Fixed,
    previous: Option<usize>,
    entries: Seq<int>,
    i: int,
) -> Fixed
    decreases i,
{
    if i < 0 || i >= entries.len() {
        x
    } else if i == 0 {
        Fixed {
            raw: clamp_i64(
                x@ + advance_from(charmap.entries@, previous, charmap.entries@[entries[0]].key@)@,
            ) as i64,
        }
    } else {
        Fixed {
            raw: clamp_i64(
                cursor_at(charmap, x, previous, entries, i - 1)@ + advance_from(
                    charmap.entries@,
                    Some(entries[i - 1] as usize),
                    charmap.entries@[entries[i]].key@,
                )@,
            ) as i64,
        }
    }
}

/// The place of an entry after the first one is its place among the entries after the
/// first one, for a walk that stands at the first one.
pub proof fn lemma_cursor_shift(
    charmap: &Charmap,
    x: Fixed,
    previous: Option<usize>,
    entries: Seq<int>,
    i: int,
)
    requires
        0 <= i,
        i + 1 < entries.len(),
    ensures
        cursor_at(charmap, x, previous, entries, i + 1) == cursor_at(
            charmap,
            cursor_at(charmap, x, previous, entries, 0),
            Some(entries[0] as usize),
            entries.drop_first(),
            i,
        ),
    decreases i,
{
    let rest = entries.drop_first();
    assert(rest[i] == entries[i + 1]);
    if i > 0 {
        assert(rest[i - 1] == entries[i]);
        lemma_cursor_shift(charmap, x, previous, entries, i - 1);
    }
}

/// A walk ends where its last entry is put, advanced by the width from that entry to no
/// key.
pub proof fn lemma_advanced_from_last(
    charmap: &Charmap,
    x: Fixed,
    previous: Option<usize>,
    entries: Seq<int>,
)
    requires
        entries.len() > 0,
    ensures
        advanced(charmap, x, previous, entries)@ == clamp_i64(
            cursor_at(charmap, x, previous, entries, entries.len() - 1)@ + advance_from(
                charmap.entries@,
                Some(entries.last() as usize),
                Seq::empty(),
            )@,
        ),
    decreases entries.len(),
{
    let rest = entries.drop_first();
    if rest.len() > 0 {
        lemma_advanced_from_last(
            charmap,
            cursor_at(charmap, x, previous, entries, 0),
            Some(entries[0] as usize),
            rest,
        );
        lemma_cursor_shift(charmap, x, previous, entries, entries.len() - 2);
        assert(rest.last() == entries.last());
    } else {
        assert(advanced(
            charmap,
            cursor_at(charmap, x, previous, entries, 0),
            Some(entries[0] as usize),
            rest,
        )@ == clamp_i64(
            cursor_at(charmap, x, previous, entries, 0)@ + advance_from(
                charmap.entries@,
                Some(entries[0] as usize),
                Seq::empty(),
            )@,
        ));
    }
}

/// A walk through entries without overlays places one image for each entry, in the order
/// of the entries: the entry's own glyph at the entry's place.
pub proof fn lemma_plain_walk<'a, 'f>(
    charmap: &'f Charmap<'a>,
    positions: int,
    text: Seq<char>,
    y: Fixed,
    walk: Walk<'a, 'f>,
    i: int,
)
    requires
        charmap.wf(),
        charmap.advances(),
        walk_ok(charmap, text, walk),
        walk.held is None,
        walk.pending is None,
        plain(charmap, entries_from(charmap, text, walk.pos as int)),
        0 <= i < entries_from(charmap, text, walk.pos as int).len(),
    ensures
        walk_from(charmap, positions, text, y, walk).0.len() == entries_from(
            charmap,
            text,
            walk.pos as int,
        ).len(),
        walk_from(charmap, positions, text, y, walk).0[i] == (PlacedImage {
            image: placed(
                &charmap.entries@[entries_from(charmap, text, walk.pos as int)[i]].glyph.images,
                positions,
                cursor_at(
                    charmap,
                    walk.x,
                    walk.previous,
                    entries_from(charmap, text, walk.pos as int),
                    i,
                ),
                y,
            ),
            is_overlay: false,
        }),
    decreases text.len() - walk.pos,
{
    let list = entries_from(charmap, text, walk.pos as int);
    let (after, image) = step(charmap, positions, text, y, walk);
    let whole = walk_from(charmap, positions, text, y, walk);
    let later = walk_from(charmap, positions, text, y, after);
    lemma_step_decreases(charmap, positions, text, y, walk);
    lemma_walk_counts_and_ends(charmap, positions, text, y, walk);
    crate::charmap::lemma_find_reaches_entry(
        charmap.trie,
        charmap.entries@.len() as int,
        text,
        charmap.trie.nodes@.len() - 1,
        walk.pos as int,
    );
    let found = find_from(
        charmap.trie.nodes@,
        charmap.trie.nodes@.len() - 1,
        text,
        walk.pos as int,
    );
    assert(charmap.entries@.len() == charmap.entries.len());
    let rest = entries_from(charmap, text, after.pos as int);
    assert(after.pos as int == place_after(charmap, text, walk.pos as int, found));
    assert(list == seq![found] + rest);
    assert(list.drop_first() =~= rest);
    assert(list[0] == found);
    assert(charmap.entries@[found].glyph.next is None);
    assert(after.pending is None && after.held is None);
    assert(image is Some);
    assert(whole == (seq![image->0] + later.0, later.1));
    assert forall|k: int| 0 <= k < rest.len() implies 0 <= #[trigger] rest[k]
        < charmap.entries@.len() && charmap.entries@[rest[k]].glyph.next is None by {
        assert(rest[k] == list[k + 1]);
    }
    lemma_plain_counts(charmap, list);
    lemma_plain_counts(charmap, rest);
    lemma_walk_counts_and_ends(charmap, positions, text, y, after);
    if i > 0 {
        lemma_plain_walk(charmap, positions, text, y, after, i - 1);
        lemma_cursor_shift(charmap, walk.x, walk.previous, list, i - 1);
        assert(whole.0[i] == later.0[i - 1]);
        assert(rest[i - 1] == list[i]);
    } else {
        assert(whole.0[0] == image->0);
    }
}

/// Entries without overlays have one image each.
pub proof fn lemma_plain_counts(charmap: &Charmap, entries: Seq<int>)
    requires
        plain(charmap, entries),
    ensures
        images_of(charmap, entries) == entries.len(),
    decreases entries.len(),
{
    if entries.len() > 0 {
        let rest = entries.drop_first();
        assert forall|k: int| 0 <= k < rest.len() implies 0 <= #[trigger] rest[k]
            < charmap.entries@.len() && charmap.entries@[rest[k]].glyph.next is None by {
            assert(rest[k] == entries[k + 1]);
        }
        lemma_plain_counts(charmap, rest);
        assert(charmap.entries@[entries[0]].glyph.overlays() == 0);
    }
}

/// Whether the advance from each of the entries to the next one, and from the last one to
/// no key, is `width`.
pub open spec fn uniform(charmap: &Charmap, entries: Seq<int>, width: int) -> bool {
    &&& forall|i: int|
        0 < i < entries.len() ==> advance_from(
            charmap.entries@,
            Some(entries[i - 1] as usize),
            charmap.entries@[#[trigger] entries[i]].key@,
        )@ == width
    &&& entries.len() > 0 ==> advance_from(
        charmap.entries@,
        Some(entries.last() as usize),
        Seq::empty(),
    )@ == width
}

/// With one advance width between all entries, entry `i` is put `i` widths after the start.
pub proof fn lemma_uniform_cursor(
    charmap: &Charmap,
    x: Fixed,
    entries: Seq<int>,
    width: int,
    i: int,
)
    requires
        uniform(charmap, entries, width),
        0 <= i < entries.len(),
        0 <= width,
        x@ + entries.len() * width <= i64::MAX,
    ensures
        cursor_at(charmap, x, None, entries, i)@ == x@ + i * width,
    decreases i,
{
    assert(i * width <= entries.len() * width) by (nonlinear_arith)
        requires
            0 <= i < entries.len(),
            0 <= width,
    ;
    assert(0 <= i * width) by (nonlinear_arith)
        requires
            0 <= i,
            0 <= width,
    ;
    if i > 0 {
        lemma_uniform_cursor(charmap, x, entries, width, i - 1);
        assert((i - 1) * width + width == i * width) by (nonlinear_arith);
        let step = advance_from(
            charmap.entries@,
            Some(entries[i - 1] as usize),
            charmap.entries@[entries[i]].key@,
        );
        assert(step@ == width);
        assert(cursor_at(charmap, x, None, entries, i)@ == clamp_i64(
            cursor_at(charmap, x, None, entries, i - 1)@ + step@,
        ));
    } else {
        let step = advance_from(charmap.entries@, None, charmap.entries@[entries[0]].key@);
        assert(step@ == 0);
        assert(cursor_at(charmap, x, None, entries, 0)@ == clamp_i64(x@ + step@));
        assert(0 * width == 0);
    }
}

/// A text in cells of equal width: where the entries that use up a text have no overlays,
/// the advance between them and after the last one is the same whole number of pixels,
/// the walk starts at a whole pixel, and every image lies in the columns of its cell,
/// the walk places one image for each entry, in the order of the entries, each a cell
/// further to the right; no image reaches into the next cell; and the walk ends as many
/// cells after its start as there are entries.
pub proof fn lemma_cells_of_equal_width<'a, 'f>(
    charmap: &'f Charmap<'a>,
    positions: int,
    text: Seq<char>,
    y: Fixed,
    start: int,
    cell: int,
    i: int,
)
    requires
        charmap.wf(),
        charmap.advances(),
        positions > 0,
        text.len() <= usize::MAX,
        plain(charmap, entries_from(charmap, text, 0)),
        uniform(charmap, entries_from(charmap, text, 0), cell * 65536),
        0 < cell,
        i32::MIN <= start,
        start + entries_from(charmap, text, 0).len() * cell <= i32::MAX,
        forall|k: int|
            0 <= k < entries_from(charmap, text, 0).len() ==> {
                let image = (#[trigger] charmap.entries@[entries_from(
                    charmap,
                    text,
                    0,
                )[k]]).glyph.images.spec_get(0);
                0 <= image.offset.x && image.offset.x + image.image_drawable.size.width <= cell
            },
        0 <= i < entries_from(charmap, text, 0).len(),
    ensures
        ({
            let entries = entries_from(charmap, text, 0);
            let walk = walk_from(
                charmap,
                positions,
                text,
                y,
                start_walk(Fixed { raw: (start * 65536) as i64 }),
            );
            let image = charmap.entries@[entries[i]].glyph.images.spec_get(0);
            &&& walk.0.len() == entries.len()
            &&& !walk.0[i].is_overlay
            &&& walk.0[i].image.image_drawable == image.image_drawable
            &&& walk.0[i].image.offset.x == image.offset.x + start + i * cell
            &&& walk.0[i].image.spec_bounding_box().top_left.x >= start + i * cell
            &&& walk.0[i].image.spec_bounding_box().spec_right() <= start + (i + 1) * cell
            &&& walk.1@ == (start + entries.len() * cell) * 65536
        }),
{
    let entries = entries_from(charmap, text, 0);
    let n = entries.len() as int;
    let x = Fixed { raw: (start * 65536) as i64 };
    let width = cell * 65536;
    assert(0 <= i * cell && i * cell + cell <= n * cell && (i + 1) * cell == i * cell + cell
        && n * width == n * cell * 65536 && i * width == i * cell * 65536) by (nonlinear_arith)
        requires
            0 <= i < n,
            0 < cell,
            width == cell * 65536,
    ;
    lemma_plain_walk(charmap, positions, text, y, start_walk(x), i);
    lemma_uniform_cursor(charmap, x, entries, width, i);
    lemma_uniform_cursor(charmap, x, entries, width, n - 1);
    lemma_walk_from_start(charmap, positions, text, y, x);
    lemma_advanced_from_last(charmap, x, None, entries);
    assert((n - 1) * width + width == n * width) by (nonlinear_arith);
    let at = cursor_at(charmap, x, None, entries, i);
    let whole = start + i * cell;
    assert(at@ == whole * 65536);
    assert(whole_pixels(at@) == whole) by {
        assert((whole * 65536) / 65536 == whole);
        assert((-(whole * 65536)) / 65536 == -whole);
    }
    assert(subpixel_of(at@, positions) == 0) by {
        if at@ >= 0 {
            assert((whole * 65536) % 65536 == 0);
            assert(0 * positions == 0);
        }
    }
}

/// The glyph that is laid over `glyph`, if there is one.
pub fn next_glyph<'a, 'f>(glyph: &'f Glyph<'a>) -> (next: Option<&'f NextGlyph<'a>>)
    ensures
        next == next_of(glyph),
{
    match &glyph.next {
        Some(next) => Some(&**next),
        None => None,
    }
}

/// The image of `images` for the horizontal place `x`, put at the whole pixels of `x` and
/// `y`.
pub fn place<'a>(images: &ImageSet<'a>, positions: usize, x: Fixed, y: Fixed) -> (image: Image<
    ImageRaw<'a>,
>)
    requires
        images.wf(),
        positions > 0,
    ensures
        image == placed(images, positions as int, x, y),
{
    let image = images.get(x.subpixel(positions));
    image.mul_offset(1, -1).add_offset(x.to_i32(), y.to_i32())
}

/// The image of an overlay, for a walk that stands at `x` on the line `y`.
pub fn place_overlay<'a>(next: &NextGlyph<'a>, positions: usize, x: Fixed, y: Fixed) -> (image:
    PlacedImage<'a>)
    requires
        next.glyph.wf(),
        positions > 0,
    ensures
        image == placed_overlay(next, positions as int, x, y),
{
    PlacedImage {
        image: place(
            &next.glyph.images,
            positions,
            x.saturating_add(next.x_offset),
            y.saturating_sub(next.y_offset),
        ),
        is_overlay: true,
    }
}

/// One step of the walk.
pub fn advance<'a, 'f>(
    charmap: &'f Charmap<'a>,
    positions: usize,
    text: &[char],
    y: Fixed,
    walk: Walk<'a, 'f>,
) -> (stepped: (Walk<'a, 'f>, Option<PlacedImage<'a>>))
    requires
        charmap.wf(),
        positions > 0,
        walk_ok(charmap, text@, walk),
    ensures
        stepped == step(charmap, positions as int, text@, y, walk),
{
    if walk.held.is_none() && walk.pos >= text.len() {
        proof {
            reveal_strlit("");
            assert(""@ =~= Seq::<char>::empty());
        }
        let advance = match walk.previous {
            Some(p) => charmap.entries[p].advance_width_to(""),
            None => Fixed::zero(),
        };
        let x = walk.x.saturating_add(advance);
        return match walk.pending {
            Some(next) => (
                Walk {
                    pos: walk.pos,
                    x,
                    pending: next_glyph(&next.glyph),
                    held: None,
                    previous: None,
                },
                Some(place_overlay(next, positions, x, y)),
            ),
            None => (Walk { pos: walk.pos, x, pending: None, held: None, previous: None }, None),
        };
    }
    let (entry, x, pos, previous) = match walk.held {
        Some(e) => (e, walk.x, walk.pos, walk.previous),
        None => {
            let e = charmap.index_at(text, walk.pos);
            let advance = match walk.previous {
                Some(p) => charmap.entries[p].advance_width_to(charmap.entries[e].key),
                None => Fixed::zero(),
            };
            let count = charmap.entries[e].advance_chars;
            let pos = if count <= text.len() - walk.pos {
                walk.pos + count
            } else {
                text.len()
            };
            (e, walk.x.saturating_add(advance), pos, Some(e))
        },
    };
    match walk.pending {
        Some(next) => (
            Walk { pos, x, pending: next_glyph(&next.glyph), held: Some(entry), previous },
            Some(place_overlay(next, positions, x, y)),
        ),
        None => {
            let glyph = &charmap.entries[entry].glyph;
            (
                Walk { pos, x, pending: next_glyph(glyph), held: None, previous },
                Some(PlacedImage { image: place(&glyph.images, positions, x, y), is_overlay: false }),
            )
        },
    }
}

/// The walk at the start of a text, at the horizontal place `x`.
pub open spec fn start_walk<'a, 'f>(x: Fixed) -> Walk<'a, 'f> {
    Walk { pos: 0, x, pending: None, held: None, previous: None }
}

/// The glyph images of a text, placed along the line `y` from the horizontal place `x`
/// on, in the order in which they are drawn. `x` becomes the place at which the text ends.
pub fn images_of_chars<'a, 'f>(
    charmap: &'f Charmap<'a>,
    positions: usize,
    text: &str,
    x: &mut Fixed,
    y: Fixed,
) -> (images: Vec<PlacedImage<'a>>)
    requires
        charmap.wf(),
        charmap.advances(),
        positions > 0,
    ensures
        (images@, *final(x)) == walk_from(
            charmap,
            positions as int,
            text@,
            y,
            start_walk(*old(x)),
        ),
{
    let chars = chars_of(text);
    let count = chars.len();
    let ghost start = start_walk(*x);
    let ghost whole = walk_from(charmap, positions as int, text@, y, start);
    let mut walk = Walk { pos: 0, x: *x, pending: None, held: None, previous: None };
    let mut images: Vec<PlacedImage<'a>> = Vec::new();
    loop
        invariant
            charmap.wf(),
            charmap.advances(),
            positions > 0,
            chars@ == text@,
            count == text@.len(),
            walk_ok(charmap, text@, walk),
            whole == walk_from(charmap, positions as int, text@, y, start),
            images@ + walk_from(charmap, positions as int, text@, y, walk).0 == whole.0,
            walk_from(charmap, positions as int, text@, y, walk).1 == whole.1,
        ensures
            images@ == whole.0,
            walk.x == whole.1,
        decreases text@.len() - walk.pos, walk_weight(charmap, walk),
    {
        let ghost before = walk;
        let ghost rest = walk_from(charmap, positions as int, text@, y, walk);
        let (after, item) = advance(charmap, positions, chars.as_slice(), y, walk);
        proof {
            lemma_step_decreases(charmap, positions as int, text@, y, before);
        }
        walk = after;
        match item {
            Some(image) => {
                proof {
                    let next = walk_from(charmap, positions as int, text@, y, after);
                    assert(rest.0 == seq![image] + next.0);
                    assert(images@.push(image) + next.0 =~= images@ + rest.0);
                }
                images.push(image);
            },
            None => {
                proof {
                    assert(rest.0 =~= Seq::<PlacedImage>::empty());
                    assert(images@ + rest.0 =~= images@);
                }
                break;
            },
        }
    }
    *x = walk.x;
    images
}

/// The color of a line under or through the text.
#[derive(Clone, Copy, Debug)]
pub enum DecorationColor<T> {
    /// No line.
    Absent,
    /// A line in the color of the text.
    TextColor,
    /// A line in a color of its own.
    Custom(T),
}

/// A font with the colors to draw it in.
#[derive(Debug)]
pub struct BitmapFontStyle<'a, 'b, T> {
    pub font: &'b BitmapFont<'a>,
    pub text_color: Option<T>,
    pub background_color: Option<T>,
    pub underline_color: DecorationColor<T>,
    pub strikethrough_color: DecorationColor<T>,
}

/// The area that a text covers, and the place at which the next text goes on.
#[derive(Clone, Copy, Debug, PartialEq, Eq, Structural)]
pub struct TextMetrics {
    pub bounding_box: Rectangle,
    pub next_position: Point,
}

/// One thing to paint.
#[derive(Debug)]
pub enum DrawOp<'a, T> {
    /// An area in one color.
    Fill { area: Rectangle, color: T },
    /// A part of a glyph image, each gray level in its color of the ramp.
    Glyph { image: Image<SubImage<'a>> },
    /// The screen blend of two glyph images on the area that both cover.
    Mix { first: Image<SubImage<'a>>, second: Image<SubImage<'a>>, area: Rectangle },
}

/// The rows of a line of text, and the columns from its start on.
pub struct Line<T> {
    pub strip: Rectangle,
    pub top: i32,
    pub bottom: i32,
    pub background: T,
}

/// What the drawing of a line remembers from image to image: the last glyph image that
/// was no overlay, and the column up to which the line is painted.
pub struct DrawState<'a> {
    pub previous: Option<Image<ImageRaw<'a>>>,
    pub previous_right: i32,
}

/// The column after the rightmost of the first `n` images, or `start` if that is further
/// to the right.
pub open spec fn rightmost(images: Seq<PlacedImage>, n: int, start: i32) -> i32
    decreases n,
{
    if n <= 0 || n > images.len() {
        start
    } else {
        max_i32(
            rightmost(images, n - 1, start),
            images[n - 1].image.spec_bounding_box().spec_right(),
        )
    }
}

/// No image ends to the right of the rightmost one, and the rightmost one ends no further
/// to the left than where the line starts.
pub proof fn lemma_rightmost_bounds(images: Seq<PlacedImage>, n: int, start: i32, k: int)
    requires
        0 <= k < n <= images.len(),
    ensures
        images[k].image.spec_bounding_box().spec_right() <= rightmost(images, n, start),
        start <= rightmost(images, n, start),
    decreases n,
{
    lemma_rightmost_starts(images, n, start);
    if k < n - 1 {
        lemma_rightmost_bounds(images, n - 1, start, k);
    }
}

/// The rightmost end of images is no further to the left than where the line starts.
pub proof fn lemma_rightmost_starts(images: Seq<PlacedImage>, n: int, start: i32)
    ensures
        start <= rightmost(images, n, start),
    decreases n,
{
    if 0 < n <= images.len() {
        lemma_rightmost_starts(images, n - 1, start);
    }
}

/// The part `area` of the glyph image `previous`, and the background above and below that
/// image in the columns of `area`.
pub open spec fn cut_ops<'a, T>(
    ops: Seq<DrawOp<'a, T>>,
    previous: Image<ImageRaw<'a>>,
    area: Rectangle,
    background: T,
) -> Seq<DrawOp<'a, T>> {
    let previous_box = previous.spec_bounding_box();
    ops.push(DrawOp::Glyph { image: previous.spec_clipped(&area) }).push(
        DrawOp::Fill { area: area.spec_above(&previous_box), color: background },
    ).push(DrawOp::Fill { area: area.spec_below(&previous_box), color: background })
}

/// What is painted for a glyph image that follows the image `previous`, up to the part of
/// the new image that waits for the image after it, and that part's area.
///
/// The background between the two images is painted. What is left of the previous image
/// is painted where the new image does not lie: to the left and to the right of it, above
/// and below it. The new image is painted above and below the previous one, an overlay
/// also to the left of it. Where both lie, their blend is painted.
pub open spec fn overlap_ops<'a, T>(
    ops: Seq<DrawOp<'a, T>>,
    line: Line<T>,
    previous: Image<ImageRaw<'a>>,
    previous_right: i32,
    placed: PlacedImage<'a>,
) -> (Seq<DrawOp<'a, T>>, Rectangle) {
    let image = placed.image;
    let image_box = image.spec_bounding_box();
    let previous_box = previous.spec_bounding_box();
    let line_piece = line.strip.spec_left_of(&image_box);
    let rest = previous_box.spec_indent_to(previous_right);
    let left = rest.spec_left_of(&image_box).spec_y_extend(line.top, line.bottom);
    let right = rest.spec_right_of(&image_box).spec_y_extend(line.top, line.bottom);
    let middle = rest.spec_left_of(&right).spec_right_of(&left).spec_y_extend(
        line.top,
        line.bottom,
    );
    let above = middle.spec_above(&image_box);
    let below = middle.spec_below(&image_box);
    let column = previous_box.spec_y_extend(line.top, line.bottom);
    let ops = ops.push(DrawOp::Fill { area: line_piece.spec_right_of(&rest), color: line.background });
    let ops = cut_ops(ops, previous, left, line.background);
    let ops = cut_ops(ops, previous, right, line.background);
    let ops = cut_ops(ops, previous, above, line.background);
    let ops = cut_ops(ops, previous, below, line.background);
    let kept = if placed.is_overlay {
        image_box.spec_y_reduce(line.top, line.bottom)
    } else {
        image_box.spec_left_half()
    };
    let ops = if placed.is_overlay {
        ops.push(DrawOp::Glyph { image: image.spec_clipped(&kept.spec_left_of(&previous_box)) })
    } else {
        ops
    };
    let area = image_box.spec_intersection(&previous_box);
    let ops = ops.push(DrawOp::Glyph { image: image.spec_clipped(&column.spec_above(&previous_box)) })
        .push(DrawOp::Glyph { image: image.spec_clipped(&column.spec_below(&previous_box)) }).push(
        DrawOp::Mix {
            first: image.spec_clipped(&area),
            second: previous.spec_clipped(&area),
            area,
        },
    );
    (ops, kept.spec_right_of(&previous_box))
}

/// What is painted for one glyph image, and what is remembered after it.
///
/// Of a first image the left half is painted, after the background to its left; the rest
/// waits for the image after it. The background above and below the painted part is
/// painted too.
pub open spec fn image_ops<'a, T>(
    ops: Seq<DrawOp<'a, T>>,
    line: Line<T>,
    state: DrawState<'a>,
    placed: PlacedImage<'a>,
) -> (Seq<DrawOp<'a, T>>, DrawState<'a>) {
    let image = placed.image;
    let image_box = image.spec_bounding_box();
    let (ops, clip) = match state.previous {
        Some(previous) => overlap_ops(ops, line, previous, state.previous_right, placed),
        None => (
            ops.push(
                DrawOp::Fill { area: line.strip.spec_left_of(&image_box), color: line.background },
            ),
            image_box.spec_left_half(),
        ),
    };
    let painted = clip.spec_indent_to(state.previous_right);
    let column = painted.spec_y_extend(line.top, line.bottom);
    let ops = ops.push(DrawOp::Glyph { image: image.spec_clipped(&clip) }).push(
        DrawOp::Fill { area: column.spec_above(&image_box), color: line.background },
    ).push(DrawOp::Fill { area: column.spec_below(&image_box), color: line.background });
    (
        ops,
        DrawState {
            previous: if placed.is_overlay {
                state.previous
            } else {
                Some(image)
            },
            previous_right: painted.spec_right(),
        },
    )
}

/// What is painted for the first `n` images of a line, and what is remembered after them.
pub open spec fn images_ops<'a, T>(
    line: Line<T>,
    images: Seq<PlacedImage<'a>>,
    n: int,
    start: i32,
) -> (Seq<DrawOp<'a, T>>, DrawState<'a>)
    decreases n,
{
    if n <= 0 || n > images.len() {
        (Seq::empty(), DrawState { previous: None, previous_right: start })
    } else {
        let (ops, state) = images_ops(line, images, n - 1, start);
        image_ops(ops, line, state, images[n - 1])
    }
}

/// What is painted after the last image: the part of the last glyph image that waited
/// for a next one, with the background above and below it.
pub open spec fn last_ops<'a, T>(
    ops: Seq<DrawOp<'a, T>>,
    line: Line<T>,
    state: DrawState<'a>,
) -> Seq<DrawOp<'a, T>> {
    match state.previous {
        Some(previous) => {
            let previous_box = previous.spec_bounding_box();
            let rest = previous_box.spec_indent_to(state.previous_right);
            let column = rest.spec_y_extend(line.top, line.bottom);
            ops.push(DrawOp::Glyph { image: previous.spec_clipped(&rest) }).push(
                DrawOp::Fill { area: column.spec_above(&previous_box), color: line.background },
            ).push(DrawOp::Fill { area: column.spec_below(&previous_box), color: line.background })
        },
        None => ops,
    }
}

/// A line under or through the text, if it has a color: `width` columns from `left` on,
/// its top `offset` rows above the row `y`.
pub open spec fn stroke_ops<'a, T>(
    ops: Seq<DrawOp<'a, T>>,
    color: Option<T>,
    left: i32,
    y: i32,
    width: u32,
    offset: i32,
    rows: u32,
) -> Seq<DrawOp<'a, T>> {
    match color {
        Some(color) => ops.push(
            DrawOp::Fill {
                area: Rectangle {
                    top_left: Point { x: left, y: to_i32_clamped(y - offset) },
                    size: Size { width, height: rows },
                },
                color,
            },
        ),
        None => ops,
    }
}

fn push_cut<'a, T: Copy>(
    ops: &mut Vec<DrawOp<'a, T>>,
    previous: &Image<ImageRaw<'a>>,
    area: &Rectangle,
    background: T,
)
    ensures
        final(ops)@ == cut_ops(old(ops)@, *previous, *area, background),
{
    let previous_box = previous.bounding_box();
    ops.push(DrawOp::Glyph { image: previous.clipped(area) });
    ops.push(DrawOp::Fill { area: area.above(&previous_box), color: background });
    ops.push(DrawOp::Fill { area: area.below(&previous_box), color: background });
}

fn push_overlap<'a, T: Copy>(
    ops: &mut Vec<DrawOp<'a, T>>,
    line: &Line<T>,
    previous: &Image<ImageRaw<'a>>,
    previous_right: i32,
    placed: &PlacedImage<'a>,
) -> (clip: Rectangle)
    ensures
        (final(ops)@, clip) == overlap_ops(old(ops)@, *line, *previous, previous_right, *placed),
{
    let image = &placed.image;
    let image_box = image.bounding_box();
    let previous_box = previous.bounding_box();
    let line_piece = line.strip.left_of(&image_box);
    let rest = previous_box.indent_to(previous_right);
    let left = rest.left_of(&image_box).y_extend(line.top, line.bottom);
    let right = rest.right_of(&image_box).y_extend(line.top, line.bottom);
    let middle = rest.left_of(&right).right_of(&left).y_extend(line.top, line.bottom);
    let above = middle.above(&image_box);
    let below = middle.below(&image_box);
    let column = previous_box.y_extend(line.top, line.bottom);
    ops.push(DrawOp::Fill { area: line_piece.right_of(&rest), color: line.background });
    push_cut(ops, previous, &left, line.background);
    push_cut(ops, previous, &right, line.background);
    push_cut(ops, previous, &above, line.background);
    push_cut(ops, previous, &below, line.background);
    let kept = if placed.is_overlay {
        image_box.y_reduce(line.top, line.bottom)
    } else {
        image_box.left_half()
    };
    if placed.is_overlay {
        ops.push(DrawOp::Glyph { image: image.clipped(&kept.left_of(&previous_box)) });
    }
    let area = image_box.intersection(&previous_box);
    ops.push(DrawOp::Glyph { image: image.clipped(&column.above(&previous_box)) });
    ops.push(DrawOp::Glyph { image: image.clipped(&column.below(&previous_box)) });
    ops.push(DrawOp::Mix { first: image.clipped(&area), second: previous.clipped(&area), area });
    kept.right_of(&previous_box)
}

fn push_image<'a, T: Copy>(
    ops: &mut Vec<DrawOp<'a, T>>,
    line: &Line<T>,
    state: DrawState<'a>,
    placed: &PlacedImage<'a>,
) -> (after: DrawState<'a>)
    ensures
        (final(ops)@, after) == image_ops(old(ops)@, *line, state, *placed),
{
    let image = &placed.image;
    let image_box = image.bounding_box();
    let clip = match &state.previous {
        Some(previous) => push_overlap(ops, line, previous, state.previous_right, placed),
        None => {
            ops.push(DrawOp::Fill { area: line.strip.left_of(&image_box), color: line.background });
            image_box.left_half()
        },
    };
    let painted = clip.indent_to(state.previous_right);
    let column = painted.y_extend(line.top, line.bottom);
    ops.push(DrawOp::Glyph { image: image.clipped(&clip) });
    ops.push(DrawOp::Fill { area: column.above(&image_box), color: line.background });
    ops.push(DrawOp::Fill { area: column.below(&image_box), color: line.background });
    DrawState {
        previous: if placed.is_overlay {
            state.previous
        } else {
            Some(*image)
        },
        previous_right: painted.right(),
    }
}

fn push_last<'a, T: Copy>(ops: &mut Vec<DrawOp<'a, T>>, line: &Line<T>, state: &DrawState<'a>)
    ensures
        final(ops)@ == last_ops(old(ops)@, *line, *state),
{
    match &state.previous {
        Some(previous) => {
            let previous_box = previous.bounding_box();
            let rest = previous_box.indent_to(state.previous_right);
            let column = rest.y_extend(line.top, line.bottom);
            ops.push(DrawOp::Glyph { image: previous.clipped(&rest) });
            ops.push(DrawOp::Fill { area: column.above(&previous_box), color: line.background });
            ops.push(DrawOp::Fill { area: column.below(&previous_box), color: line.background });
        },
        None => {},
    }
}

fn push_stroke<'a, T: Copy>(
    ops: &mut Vec<DrawOp<'a, T>>,
    color: Option<T>,
    left: i32,
    y: i32,
    width: u32,
    offset: i32,
    rows: u32,
)
    ensures
        final(ops)@ == stroke_ops(old(ops)@, color, left, y, width, offset, rows),
{
    match color {
        Some(color) => {
            ops.push(
                DrawOp::Fill {
                    area: Rectangle {
                        top_left: Point { x: left, y: sub_clamped(y, offset) },
                        size: Size { width, height: rows },
                    },
                    color,
                },
            );
        },
        None => {},
    }
}

/// The row of the baseline of a text at `position`, for a font whose line `baseline` is put
/// there.
pub open spec fn line_y(font: &BitmapFont, position: Point, baseline: Baseline) -> i32 {
    to_i32_clamped(position.y + font.metrics.spec_y_offset(baseline))
}

/// The line of a text at `position`: the rows from the font's top line to its bottom line,
/// and all columns from the text's start on.
pub open spec fn line_of<T>(
    font: &BitmapFont,
    position: Point,
    baseline: Baseline,
    background: T,
) -> Line<T> {
    let y = line_y(font, position, baseline);
    let top = to_i32_clamped(y - font.metrics.spec_y_offset(Baseline::Top));
    let bottom = to_i32_clamped(y - font.metrics.spec_y_offset(Baseline::Bottom));
    Line {
        strip: Rectangle {
            top_left: Point { x: position.x, y: top },
            size: Size { width: u32::MAX, height: extent_of(to_i32_clamped(bottom - top)) },
        },
        top,
        bottom,
        background,
    }
}

/// The glyph images of a text at `position`, and the horizontal place at which it ends.
pub open spec fn walk_of<'a>(
    font: &BitmapFont<'a>,
    text: Seq<char>,
    position: Point,
    baseline: Baseline,
) -> (Seq<PlacedImage<'a>>, Fixed) {
    walk_from(
        &font.charmap,
        font.positions as int,
        text,
        Fixed { raw: (line_y(font, position, baseline) as int * 65536) as i64 },
        start_walk(Fixed { raw: (position.x as int * 65536) as i64 }),
    )
}

impl<'a, 'b, T: Copy + Dark + Invert> BitmapFontStyle<'a, 'b, T> {
    /// The style that draws `font` in `text_color`, on a background without light and
    /// without lines.
    pub fn new(font: &'b BitmapFont<'a>, text_color: T) -> (style: Self)
        ensures
            style.font == font,
            style.text_color == Some(text_color),
            style.background_color is None,
            style.underline_color is Absent,
            style.strikethrough_color is Absent,
    {
        BitmapFontStyle {
            font,
            text_color: Some(text_color),
            background_color: None,
            underline_color: DecorationColor::Absent,
            strikethrough_color: DecorationColor::Absent,
        }
    }

    /// The color of the text: the one that is set, or else the opposite of no light.
    pub open spec fn spec_text_color(&self) -> T {
        match self.text_color {
            Some(color) => color,
            None => T::spec_dark().spec_invert(),
        }
    }

    /// The color of the background: the one that is set, or else no light.
    pub open spec fn spec_background_color(&self) -> T {
        match self.background_color {
            Some(color) => color,
            None => T::spec_dark(),
        }
    }

    /// The color that `decoration` stands for, if it stands for one.
    pub open spec fn spec_stroke_color(&self, decoration: DecorationColor<T>) -> Option<T> {
        match decoration {
            DecorationColor::Absent => None,
            DecorationColor::TextColor => Some(self.spec_text_color()),
            DecorationColor::Custom(color) => Some(color),
        }
    }

    pub fn text_color(&self) -> (color: T)
        ensures
            color == self.spec_text_color(),
    {
        match self.text_color {
            Some(color) => color,
            None => T::dark().invert(),
        }
    }

    pub fn background_color(&self) -> (color: T)
        ensures
            color == self.spec_background_color(),
    {
        match self.background_color {
            Some(color) => color,
            None => T::dark(),
        }
    }

    pub fn underline_color(&self) -> (color: Option<T>)
        ensures
            color == self.spec_stroke_color(self.underline_color),
    {
        match self.underline_color {
            DecorationColor::Absent => None,
            DecorationColor::TextColor => Some(self.text_color()),
            DecorationColor::Custom(color) => Some(color),
        }
    }

    pub fn strikethrough_color(&self) -> (color: Option<T>)
        ensures
            color == self.spec_stroke_color(self.strikethrough_color),
    {
        match self.strikethrough_color {
            DecorationColor::Absent => None,
            DecorationColor::TextColor => Some(self.text_color()),
            DecorationColor::Custom(color) => Some(color),
        }
    }

    /// The rows of a line of text.
    pub fn line_height(&self) -> (rows: u32)
        ensures
            rows == self.font.metrics.spec_line_height(),
    {
        self.font.metrics.line_height()
    }

    /// The line of a text at `position`.
    pub fn line(&self, position: Point, baseline: Baseline) -> (r: (Line<T>, i32))
        ensures
            r.0 == line_of(self.font, position, baseline, self.spec_background_color()),
            r.1 == line_y(self.font, position, baseline),
    {
        let y = add_clamped(position.y, self.font.metrics.y_offset(baseline));
        let top = sub_clamped(y, self.font.metrics.y_offset(Baseline::Top));
        let bottom = sub_clamped(y, self.font.metrics.y_offset(Baseline::Bottom));
        (
            Line {
                strip: Rectangle {
                    top_left: Point { x: position.x, y: top },
                    size: Size { width: u32::MAX, height: extent_between(top, bottom) },
                },
                top,
                bottom,
                background: self.background_color(),
            },
            y,
        )
    }

    /// The area of a text at `position`: the rows of its line, and the columns from its
    /// start to the end of its rightmost glyph image. The next text goes on at the whole
    /// pixel at which this one ends.
    pub open spec fn spec_measure_string(
        &self,
        text: Seq<char>,
        position: Point,
        baseline: Baseline,
    ) -> TextMetrics {
        let line = line_of(self.font, position, baseline, self.spec_background_color());
        let walk = walk_of(self.font, text, position, baseline);
        let right = rightmost(walk.0, walk.0.len() as int, position.x);
        TextMetrics {
            bounding_box: Rectangle {
                top_left: Point { x: position.x, y: line.top },
                size: Size {
                    width: extent_of(to_i32_clamped(right - position.x)),
                    height: line.strip.size.height,
                },
            },
            next_position: Point { x: clamp_i32(whole_pixels(walk.1@)) as i32, y: position.y },
        }
    }

    pub fn measure_string(&self, text: &str, position: Point, baseline: Baseline) -> (metrics:
        TextMetrics)
        requires
            self.font.wf(),
            self.font.charmap.advances(),
        ensures
            metrics == self.spec_measure_string(text@, position, baseline),
    {
        let (line, y) = self.line(position, baseline);
        let mut x = Fixed::from_int(position.x);
        let images = images_of_chars(
            &self.font.charmap,
            self.font.positions,
            text,
            &mut x,
            Fixed::from_int(y),
        );
        let mut right = position.x;
        let mut i: usize = 0;
        while i < images.len()
            invariant
                i <= images@.len(),
                right == rightmost(images@, i as int, position.x),
            decreases images@.len() - i,
        {
            right = larger_i32(right, images[i].image.bounding_box().right());
            i = i + 1;
        }
        TextMetrics {
            bounding_box: Rectangle {
                top_left: Point { x: position.x, y: line.top },
                size: Size {
                    width: extent_between(position.x, right),
                    height: line.strip.size.height,
                },
            },
            next_position: Point { x: x.to_i32(), y: position.y },
        }
    }

    /// What is painted for a blank of `width` columns at `position`: the background of the
    /// line, and the lines under and through it. The next text goes on after the blank.
    pub open spec fn spec_draw_whitespace(
        &self,
        width: u32,
        position: Point,
        baseline: Baseline,
    ) -> (Seq<DrawOp<'a, T>>, Point) {
        let line = line_of(self.font, position, baseline, self.spec_background_color());
        let y = line_y(self.font, position, baseline);
        let ops = Seq::<DrawOp<'a, T>>::empty().push(
            DrawOp::Fill {
                area: Rectangle {
                    top_left: Point { x: position.x, y: line.top },
                    size: Size { width, height: line.strip.size.height },
                },
                color: line.background,
            },
        );
        let ops = stroke_ops(
            ops,
            self.spec_stroke_color(self.underline_color),
            position.x,
            y,
            width,
            pixels_up(self.font.underline.offset@),
            extent_of(pixels_up(self.font.underline.height@)),
        );
        let ops = stroke_ops(
            ops,
            self.spec_stroke_color(self.strikethrough_color),
            position.x,
            y,
            width,
            pixels_up(self.font.strikethrough.offset@),
            extent_of(pixels_up(self.font.strikethrough.height@)),
        );
        (ops, Point { x: to_i32_clamped(position.x + width), y: position.y })
    }

    pub fn draw_whitespace(&self, width: u32, position: Point, baseline: Baseline) -> (drawn: (
        Vec<DrawOp<'a, T>>,
        Point,
    ))
        ensures
            (drawn.0@, drawn.1) == self.spec_draw_whitespace(width, position, baseline),
    {
        let (line, y) = self.line(position, baseline);
        let mut ops: Vec<DrawOp<'a, T>> = Vec::new();
        ops.push(
            DrawOp::Fill {
                area: Rectangle {
                    top_left: Point { x: position.x, y: line.top },
                    size: Size { width, height: line.strip.size.height },
                },
                color: line.background,
            },
        );
        push_stroke(
            &mut ops,
            self.underline_color(),
            position.x,
            y,
            width,
            self.font.underline.y_offset(),
            self.font.underline.stroke_width(),
        );
        push_stroke(
            &mut ops,
            self.strikethrough_color(),
            position.x,
            y,
            width,
            self.font.strikethrough.y_offset(),
            self.font.strikethrough.stroke_width(),
        );
        (ops, Point { x: crate::rect::add_extent(position.x, width), y: position.y })
    }

    /// What is painted for a text at `position`, in the order in which it is painted, and
    /// the place at which the next text goes on.
    ///
    /// The glyph images are painted one after the other, each as [`image_ops`] says, then
    /// what is left of the last one. The background is painted from the rightmost image to
    /// the end of the text, and the lines under and through the text from its start to
    /// whichever of the two is further to the right.
    pub open spec fn spec_draw_string(
        &self,
        text: Seq<char>,
        position: Point,
        baseline: Baseline,
    ) -> (Seq<DrawOp<'a, T>>, Point) {
        let line = line_of(self.font, position, baseline, self.spec_background_color());
        let y = line_y(self.font, position, baseline);
        let walk = walk_of(self.font, text, position, baseline);
        let right = rightmost(walk.0, walk.0.len() as int, position.x);
        let end = clamp_i32(whole_pixels(walk.1@)) as i32;
        let (ops, state) = images_ops(line, walk.0, walk.0.len() as int, position.x);
        let ops = last_ops(ops, line, state).push(
            DrawOp::Fill {
                area: Rectangle {
                    top_left: Point { x: right, y: line.top },
                    size: Size {
                        width: extent_of(to_i32_clamped(end - right)),
                        height: line.strip.size.height,
                    },
                },
                color: line.background,
            },
        );
        let width = extent_of(to_i32_clamped(max_i32(end, right) - position.x));
        let ops = stroke_ops(
            ops,
            self.spec_stroke_color(self.underline_color),
            position.x,
            y,
            width,
            pixels_up(self.font.underline.offset@),
            extent_of(pixels_up(self.font.underline.height@)),
        );
        let ops = stroke_ops(
            ops,
            self.spec_stroke_color(self.strikethrough_color),
            position.x,
            y,
            width,
            pixels_up(self.font.strikethrough.offset@),
            extent_of(pixels_up(self.font.strikethrough.height@)),
        );
        (ops, Point { x: end, y: position.y })
    }

    pub fn draw_string(&self, text: &str, position: Point, baseline: Baseline) -> (drawn: (
        Vec<DrawOp<'a, T>>,
        Point,
    ))
        requires
            self.font.wf(),
            self.font.charmap.advances(),
        ensures
            (drawn.0@, drawn.1) == self.spec_draw_string(text@, position, baseline),
    {
        let (line, y) = self.line(position, baseline);
        let mut x = Fixed::from_int(position.x);
        let images = images_of_chars(
            &self.font.charmap,
            self.font.positions,
            text,
            &mut x,
            Fixed::from_int(y),
        );
        let mut ops: Vec<DrawOp<'a, T>> = Vec::new();
        let mut state = DrawState { previous: None, previous_right: position.x };
        let mut right = position.x;
        let mut i: usize = 0;
        while i < images.len()
            invariant
                i <= images@.len(),
                right == rightmost(images@, i as int, position.x),
                (ops@, state) == images_ops(line, images@, i as int, position.x),
            decreases images@.len() - i,
        {
            right = larger_i32(right, images[i].image.bounding_box().right());
            state = push_image(&mut ops, &line, state, &images[i]);
            i = i + 1;
        }
        push_last(&mut ops, &line, &state);
        let end = x.to_i32();
        ops.push(
            DrawOp::Fill {
                area: Rectangle {
                    top_left: Point { x: right, y: line.top },
                    size: Size { width: extent_between(right, end), height: line.strip.size.height },
                },
                color: line.background,
            },
        );
        let width = extent_between(position.x, larger_i32(end, right));
        push_stroke(
            &mut ops,
            self.underline_color(),
            position.x,
            y,
            width,
            self.font.underline.y_offset(),
            self.font.underline.stroke_width(),
        );
        push_stroke(
            &mut ops,
            self.strikethrough_color(),
            position.x,
            y,
            width,
            self.font.strikethrough.y_offset(),
            self.font.strikethrough.stroke_width(),
        );
        (ops, Point { x: end, y: position.y })
    }
}

/// The colors of gray levels, each in its color of the ramp.
pub open spec fn ramp_colors<T>(levels: Seq<u8>, colors: Seq<T>) -> Seq<T> {
    Seq::new(levels.len(), |i: int| colors[levels[i] as int % colors.len() as int])
}

impl<'a, T: Copy + Screen + Dark> DrawOp<'a, T> {
    /// Whether the images of the operation have every pixel in their data.
    pub open spec fn wf(&self) -> bool {
        match self {
            DrawOp::Fill { .. } => true,
            DrawOp::Glyph { image } => image.wf(),
            DrawOp::Mix { first, second, .. } => first.wf() && second.wf(),
        }
    }

    /// The area that the operation paints.
    pub open spec fn spec_area(&self) -> Rectangle {
        match self {
            DrawOp::Fill { area, .. } => *area,
            DrawOp::Glyph { image } => Rectangle {
                top_left: image.offset,
                size: image.image_drawable.area.size,
            },
            DrawOp::Mix { area, .. } => *area,
        }
    }

    /// What the operation paints with the ramp `colormap`: its area, and the color of the
    /// area or the colors of its pixels, row by row.
    pub fn paint<const N: usize>(&self, colormap: &Colormap<T, N>) -> (painted: (
        Rectangle,
        MixFill<T>,
    ))
        requires
            self.wf(),
            colormap.wf(),
        ensures
            painted.0 == self.spec_area(),
            match self {
                DrawOp::Fill { color, .. } => painted.1 == MixFill::Solid(*color),
                DrawOp::Glyph { image } => (match painted.1 {
                    MixFill::Contiguous(colors) => colors@ == ramp_colors(
                        image.spec_colors(),
                        colormap.colors@,
                    ),
                    MixFill::Solid(_) => false,
                }),
                DrawOp::Mix { first, second, .. } => if colormap.colors@[0]
                    == colormap.colors@[N - 1] {
                    painted.1 == MixFill::Solid(colormap.colors@[0])
                } else {
                    match painted.1 {
                        MixFill::Contiguous(colors) => colors@ == crate::image::blended(
                            first.spec_colors(),
                            second.spec_colors(),
                            colormap.colors@,
                            N as int,
                        ),
                        MixFill::Solid(_) => false,
                    }
                },
            },
    {
        match self {
            DrawOp::Fill { area, color } => (*area, MixFill::Solid(*color)),
            DrawOp::Glyph { image } => {
                let levels = image.colors();
                let mut colors: Vec<T> = Vec::new();
                let mut i: usize = 0;
                while i < levels.len()
                    invariant
                        colormap.wf(),
                        i <= levels@.len(),
                        colors@.len() == i,
                        forall|k: int|
                            0 <= k < i ==> colors@[k] == #[trigger] ramp_colors(
                                levels@,
                                colormap.colors@,
                            )[k],
                    decreases levels@.len() - i,
                {
                    colors.push(colormap.get(levels[i]));
                    i = i + 1;
                }
                proof {
                    assert(colors@ =~= ramp_colors(levels@, colormap.colors@));
                }
                (
                    Rectangle { top_left: image.offset, size: image.image_drawable.area.size },
                    MixFill::Contiguous(colors),
                )
            },
            DrawOp::Mix { first, second, area } => {
                let mix = ImageMix { first: *first, second: *second, colormap, area: *area };
                (*area, mix.fill())
            },
        }
    }
}

/// Drawing the same text twice at the same place in the same style paints the same
/// things in the same order.
pub proof fn lemma_draw_string_is_a_function<'a, 'b, T: Copy + Dark + Invert>(
    style: BitmapFontStyle<'a, 'b, T>,
    text: Seq<char>,
    position: Point,
    baseline: Baseline,
    first: (Seq<DrawOp<'a, T>>, Point),
    second: (Seq<DrawOp<'a, T>>, Point),
)
    requires
        first == style.spec_draw_string(text, position, baseline),
        second == style.spec_draw_string(text, position, baseline),
    ensures
        first == second,
{
}

} // verus!
