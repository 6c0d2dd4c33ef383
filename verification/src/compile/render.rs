//! The compilation of a font around the shaper and the rasterizer: its parameters, the
//! strings that each shaping worker gets, and the font that is made of the dictionaries.

use crate::compile::asset::BitmapFont;
use crate::compile::charmap::{is_longest_match, Charmap};
use crate::compile::dict::CharDictionary;
use crate::compile::font::{
    max_weight, parse_u8_in_range, parse_u8_in_set, parse_weight, Font, FontSize, ParamError,
};
use crate::compile::quantize::is_bit_depth;
use crate::compile::source::CharSource;
use crate::compile::strings::{notdef_key, StringRefList};
use crate::fixed::Fixed;
use vstd::prelude::*;

verus! {

/// The parameters of a font.
#[derive(Debug)]
pub struct Arguments {
    pub font: Font,
    pub weight: u16,
    pub size: Fixed,
    pub hint: bool,
    pub positions: u8,
    pub bit_depth: u8,
    pub sources: Vec<CharSource>,
}

/// The first of the parameters that is not accepted, if there is one: a weight outside
/// the typeface's range, a size that is not above zero, a number of positions outside
/// 1 to 16, or a bit depth that is none of 1, 2, 4 and 8.
pub open spec fn first_error(
    font: Font,
    weight: u16,
    size: Fixed,
    positions: u8,
    bit_depth: u8,
) -> Option<ParamError> {
    if !(100 <= weight <= max_weight(font)) {
        Some(ParamError::OutOfRange { min: 100, max: max_weight(font), found: weight })
    } else if size@ <= 0 {
        Some(ParamError::NotPositive)
    } else if !(1 <= positions <= 16) {
        Some(ParamError::OutOfRange { min: 1, max: 16, found: positions as u16 })
    } else if !(bit_depth == 1 || bit_depth == 2 || bit_depth == 4 || bit_depth == 8) {
        Some(ParamError::NotInSet { a: 1, b: 2, c: 4, d: 8, given: bit_depth })
    } else {
        None
    }
}

impl Arguments {
    /// The parameters, if each of them is accepted, and else the first error.
    pub fn new(
        font: Font,
        weight: u16,
        size: Fixed,
        hint: bool,
        positions: u8,
        bit_depth: u8,
        sources: Vec<CharSource>,
    ) -> (arguments: Result<Self, ParamError>)
        ensures
            match first_error(font, weight, size, positions, bit_depth) {
                Some(error) => arguments == Err::<Self, ParamError>(error),
                None => arguments matches Ok(a) && a.font == font && a.weight == weight && a.size
                    == size && a.hint == hint && a.positions == positions && a.bit_depth
                    == bit_depth && a.sources == sources,
            },
    {
        let weight = match parse_weight(&font, weight) {
            Ok(weight) => weight,
            Err(e) => {
                return Err(e);
            },
        };
        let size = match FontSize::from_pixels(size) {
            Ok(size) => size.0,
            Err(e) => {
                return Err(e);
            },
        };
        let positions = match parse_u8_in_range::<1, 16>(positions) {
            Ok(positions) => positions,
            Err(e) => {
                return Err(e);
            },
        };
        let bit_depth = match parse_u8_in_set::<1, 2, 4, 8>(bit_depth) {
            Ok(bit_depth) => bit_depth,
            Err(e) => {
                return Err(e);
            },
        };
        Ok(Arguments { font, weight, size, hint, positions, bit_depth, sources })
    }
}

/// The strings of the first `n` strings of a group that are not empty.
pub open spec fn filled(group: Seq<String>, n: int) -> Seq<String>
    decreases n,
{
    if n <= 0 || n > group.len() {
        Seq::empty()
    } else if group[n - 1]@.len() > 0 {
        filled(group, n - 1).push(group[n - 1])
    } else {
        filled(group, n - 1)
    }
}

/// The strings of the first `g` groups that are not empty, group by group.
pub open spec fn flat(groups: Seq<Vec<String>>, g: int) -> Seq<String>
    decreases g,
{
    if g <= 0 || g > groups.len() {
        Seq::empty()
    } else {
        flat(groups, g - 1) + filled(groups[g - 1]@, groups[g - 1]@.len() as int)
    }
}

/// Those of the first `n` strings whose place leaves the rest `worker` when it is divided
/// by `workers`.
pub open spec fn share_of(strings: Seq<String>, n: int, workers: int, worker: int) -> Seq<String>
    decreases n,
{
    if n <= 0 || n > strings.len() || workers <= 0 {
        Seq::empty()
    } else if (n - 1) % workers == worker {
        share_of(strings, n - 1, workers, worker).push(strings[n - 1])
    } else {
        share_of(strings, n - 1, workers, worker)
    }
}

/// The strings of the groups that are not empty, group by group.
pub fn flatten<'a>(groups: &'a Vec<Vec<String>>) -> (strings: Vec<&'a String>)
    ensures
        strings@.len() == flat(groups@, groups@.len() as int).len(),
        forall|k: int|
            0 <= k < strings@.len() ==> *(#[trigger] strings@[k]) == flat(
                groups@,
                groups@.len() as int,
            )[k],
{
    let mut strings: Vec<&'a String> = Vec::new();
    let mut g: usize = 0;
    while g < groups.len()
        invariant
            g <= groups@.len(),
            strings@.len() == flat(groups@, g as int).len(),
            forall|k: int|
                0 <= k < strings@.len() ==> *(#[trigger] strings@[k]) == flat(groups@, g as int)[k],
        decreases groups@.len() - g,
    {
        let group = &groups[g];
        let ghost before = flat(groups@, g as int);
        let mut s: usize = 0;
        while s < group.len()
            invariant
                g < groups@.len(),
                group == &groups@[g as int],
                before == flat(groups@, g as int),
                s <= group@.len(),
                strings@.len() == (before + filled(group@, s as int)).len(),
                forall|k: int|
                    0 <= k < strings@.len() ==> *(#[trigger] strings@[k]) == (before + filled(
                        group@,
                        s as int,
                    ))[k],
            decreases group@.len() - s,
        {
            if group[s].as_str().unicode_len() > 0 {
                strings.push(&group[s]);
            }
            s = s + 1;
        }
        g = g + 1;
    }
    strings
}

/// The strings that each of `workers` shaping workers gets: the strings of the groups that
/// are not empty are dealt out in turn.
pub fn partition<'a>(groups: &'a Vec<Vec<String>>, workers: usize) -> (lists: Vec<
    StringRefList<'a>,
>)
    ensures
        lists@.len() == workers,
        forall|w: int|
            0 <= w < workers ==> (#[trigger] lists@[w]).0@.len() == share_of(
                flat(groups@, groups@.len() as int),
                flat(groups@, groups@.len() as int).len() as int,
                workers as int,
                w,
            ).len(),
        forall|w: int, k: int|
            0 <= w < workers && 0 <= k < lists@[w].0@.len() ==> *(#[trigger] lists@[w].0@[k])
                == share_of(
                flat(groups@, groups@.len() as int),
                flat(groups@, groups@.len() as int).len() as int,
                workers as int,
                w,
            )[k],
{
    let strings = flatten(groups);
    let ghost all = flat(groups@, groups@.len() as int);
    let mut lists: Vec<StringRefList<'a>> = Vec::new();
    let mut w: usize = 0;
    while w < workers
        invariant
            w <= workers,
            lists@.len() == w,
            all == flat(groups@, groups@.len() as int),
            strings@.len() == all.len(),
            forall|k: int| 0 <= k < strings@.len() ==> *(#[trigger] strings@[k]) == all[k],
            forall|v: int|
                0 <= v < w ==> (#[trigger] lists@[v]).0@.len() == share_of(
                    all,
                    all.len() as int,
                    workers as int,
                    v,
                ).len(),
            forall|v: int, k: int|
                0 <= v < w && 0 <= k < lists@[v].0@.len() ==> *(#[trigger] lists@[v].0@[k])
                    == share_of(all, all.len() as int, workers as int, v)[k],
        decreases workers - w,
    {
        let mut list: Vec<&'a String> = Vec::new();
        let mut i: usize = 0;
        while i < strings.len()
            invariant
                w < workers,
                i <= strings@.len(),
                strings@.len() == all.len(),
                forall|k: int| 0 <= k < strings@.len() ==> *(#[trigger] strings@[k]) == all[k],
                list@.len() == share_of(all, i as int, workers as int, w as int).len(),
                forall|k: int|
                    0 <= k < list@.len() ==> *(#[trigger] list@[k]) == share_of(
                        all,
                        i as int,
                        workers as int,
                        w as int,
                    )[k],
            decreases strings@.len() - i,
        {
            if i % workers == w {
                list.push(strings[i]);
            }
            i = i + 1;
        }
        lists.push(StringRefList(list));
        w = w + 1;
    }
    lists
}

/// The source of the key of what is not defined, which every font is compiled with.
pub fn notdef_source() -> (source: CharSource)
    ensures
        source matches CharSource::Strings(strings) && strings@.len() == 1 && strings@[0]@
            == notdef_key(),
{
    proof {
        reveal_strlit("\u{FFFD}");
        assert("\u{FFFD}"@ =~= notdef_key());
    }
    let mut strings: Vec<String> = Vec::new();
    strings.push("\u{FFFD}".to_owned());
    CharSource::Strings(strings)
}

/// The font of the entries of two dictionaries: those of the fallback typeface, and over
/// them those of the typeface itself. The entry of the key of what is not defined, which
/// one of them has, becomes the font's entry for what is not defined; the others go into
/// the character map, in the order of their keys, whatever order they came in.
pub fn assemble(
    fallback: CharDictionary,
    primary: CharDictionary,
    positions: u8,
    bit_depth: u8,
    size: Fixed,
    is_code: bool,
) -> (font: BitmapFont)
    requires
        fallback.wf(),
        primary.wf(),
        fallback.has(notdef_key()) || primary.has(notdef_key()),
    ensures
        font.positions == positions,
        font.bit_depth == bit_depth,
        font.size == size,
        font.is_code == is_code,
        Some(font.notdef) == (if primary.has(notdef_key()) {
            primary.entry(notdef_key())
        } else {
            fallback.entry(notdef_key())
        }),
        forall|key: Seq<char>|
            key != notdef_key() ==> #[trigger] crate::compile::dict::entry_for(
                font.charmap.entries@,
                key,
            ) == (if primary.has(key) {
                primary.entry(key)
            } else {
                fallback.entry(key)
            }),
        crate::compile::dict::entry_for(font.charmap.entries@, notdef_key()) is None,
        font.charmap.trie.wf(font.charmap.entries@.len() as int + 1),
        forall|text: Seq<char>|
            is_longest_match(font.charmap.keys(), text, #[trigger] font.charmap.trie.spec_find(text)),
        fallback.is_sound() && primary.is_sound() ==> font.advances() && (positions > 0
            && is_bit_depth(bit_depth) ==> font.wf()),
        crate::text::in_order(font.charmap.keys()),
        fallback.is_sound() && primary.is_sound() ==> crate::text::in_order(
            font.notdef.table_keys(),
        ) && (forall|i: int|
            0 <= i < font.charmap.entries@.len() ==> crate::text::in_order(
                (#[trigger] font.charmap.entries@[i]).table_keys(),
            )),
{
    proof {
        reveal_strlit("\u{FFFD}");
        assert("\u{FFFD}"@ =~= notdef_key());
    }
    let mut entries = fallback;
    entries.extend(primary);
    let ghost merged = entries;
    let count = entries.entries.len();
    let removed = entries.remove("\u{FFFD}");
    let notdef = match removed {
        Some(notdef) => notdef,
        None => vstd::pervasive::unreached(),
    };
    let ghost rest = entries;
    let entries = entries.sorted();
    let ghost ordered = entries;
    let charmap = Charmap::from_iter(entries.entries);
    proof {
        assert forall|key: Seq<char>| key != notdef_key() implies #[trigger] crate::compile::dict::entry_for(
            charmap.entries@,
            key,
        ) == (if primary.has(key) {
            primary.entry(key)
        } else {
            fallback.entry(key)
        }) by {
            assert(ordered.entry(key) == rest.entry(key));
            assert(rest.entry(key) == merged.entry(key));
        }
        assert(!rest.has(notdef_key()));
        assert(ordered.entry(notdef_key()) == rest.entry(notdef_key()));
    }
    BitmapFont { charmap, notdef, positions, bit_depth, size, is_code }
}

} // verus!
