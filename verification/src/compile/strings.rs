//! The shaping driver: what becomes of each glyph cluster that the shaper gives for the
//! strings of the character sources.

use crate::compile::aligner::{GlyphAlignDir, GlyphAligner};
use crate::compile::bitmap::Glyph;
use crate::compile::dict::{byte_range, lemma_key_place, CharDictionary, CharDictionaryKey};
use crate::compile::halfwidth::PixelAlignmentStrategy;
use crate::compile::offsets::GlyphOffsets;
use crate::compile::units::snapped;
use crate::fixed::{clamp_i64, Fixed};
use crate::text::str_eq;
use vstd::prelude::*;
use vstd::string::StringSliceAdditionalSpecFns;
use vstd::utf8::{encode_utf8, valid_utf8};

verus! {

/// A glyph of a cluster as the shaper gives it.
#[derive(Clone, Copy, Debug, PartialEq, Eq, Structural)]
pub struct ShapedGlyph {
    pub id: u16,
    pub x: Fixed,
    pub y: Fixed,
    pub advance: Fixed,
}

/// A glyph cluster as the shaper gives it: the bytes of the string that it stands for, and
/// its glyphs.
#[derive(Debug)]
pub struct GlyphCluster {
    pub start: u32,
    pub end: u32,
    pub glyphs: Vec<ShapedGlyph>,
    /// Whether the cluster stands for white space or a control character.
    pub is_empty: bool,
}

/// The strings that are shaped, in the order in which the shaper gets them, each followed
/// by a line break.
#[derive(Debug)]
pub struct StringRefList<'a>(pub Vec<&'a String>);

/// Where the shaping stands between two clusters.
#[derive(Debug)]
pub struct Shaping {
    /// The number of strings that have begun.
    pub begun: usize,
    /// Whether the string that began last has not ended.
    pub newline: bool,
    /// The key and the advance width of the cluster before, if the next cluster's key is
    /// to be recorded with them.
    pub previous: Option<(CharDictionaryKey, Fixed)>,
}

/// What is to be done for a cluster.
#[derive(Debug)]
pub struct ClusterPlan {
    pub key: CharDictionaryKey,
    /// The glyphs to render if the dictionary has no entry for the key.
    pub glyph_offsets: Vec<GlyphOffsets>,
    pub advance_width: Fixed,
    /// Whether the cluster gets an entry: it has glyphs left, or it is empty.
    pub enters: bool,
}

impl ClusterPlan {
    /// Whether the cluster's glyphs are to be rendered: it enters, and the dictionary does
    /// not know its key.
    pub fn renders(&self, known: bool) -> (r: bool)
        ensures
            r == (self.enters && !known),
    {
        self.enters && !known
    }
}

/// Whether `key` is the key of the cluster before.
pub open spec fn is_before(previous: Option<(CharDictionaryKey, Fixed)>, key: Seq<char>) -> bool {
    match previous {
        Some(previous) => previous.0@ == key,
        None => false,
    }
}

/// The advance width of the cluster before, or zero if there is none.
pub open spec fn width_before(previous: Option<(CharDictionaryKey, Fixed)>) -> Fixed {
    match previous {
        Some(previous) => previous.1,
        None => Fixed { raw: 0 },
    }
}

/// The key of what is not defined.
pub open spec fn notdef_key() -> Seq<char> {
    seq!['\u{FFFD}']
}

/// The first `n` glyphs without those for what is not defined, unless they are kept.
pub open spec fn kept(glyphs: Seq<ShapedGlyph>, n: int, keeps_notdef: bool) -> Seq<ShapedGlyph>
    decreases n,
{
    if n <= 0 || n > glyphs.len() {
        Seq::empty()
    } else if glyphs[n - 1].id > 0 || keeps_notdef {
        kept(glyphs, n - 1, keeps_notdef).push(glyphs[n - 1])
    } else {
        kept(glyphs, n - 1, keeps_notdef)
    }
}

/// The sum of the advances of the first `n` glyphs, clamped glyph by glyph.
pub open spec fn advance_total(glyphs: Seq<ShapedGlyph>, n: int) -> int
    decreases n,
{
    if n <= 0 || n > glyphs.len() {
        0
    } else {
        clamp_i64(advance_total(glyphs, n - 1) + glyphs[n - 1].advance@)
    }
}

/// The offsets of the glyphs of a cluster: the first one is the cluster's own glyph, and
/// the others are laid over it.
pub open spec fn offsets_of(glyphs: Seq<ShapedGlyph>) -> Seq<GlyphOffsets> {
    Seq::new(
        glyphs.len(),
        |i: int|
            if i > 0 {
                GlyphOffsets::Overlay(glyphs[i].id, glyphs[i].x, glyphs[i].y)
            } else {
                GlyphOffsets::Initial(glyphs[i].id, glyphs[i].x, glyphs[i].y)
            },
    )
}

/// The offsets of the glyphs of a cluster with the accents put right.
pub open spec fn patched_offsets_of(glyphs: Seq<ShapedGlyph>, is_variable_width: bool) -> Seq<
    GlyphOffsets,
> {
    Seq::new(glyphs.len(), |i: int| offsets_of(glyphs)[i].spec_patched(is_variable_width))
}

impl GlyphCluster {
    /// Whether the cluster's bytes do not end before they start.
    pub open spec fn wf(&self) -> bool {
        self.start <= self.end
    }
}

impl Shaping {
    pub fn new() -> (shaping: Self)
        ensures
            shaping.begun == 0,
            !shaping.newline,
            shaping.previous is None,
    {
        Shaping { begun: 0, newline: false, previous: None }
    }

    /// Whether the key of the cluster before has its entry in `entries`.
    pub open spec fn wf(&self, entries: &CharDictionary) -> bool {
        self.previous matches Some(previous) ==> entries.has(previous.0@)
    }
}

/// The glyphs of the cluster that are kept, and the sum of their advances.
fn keep_glyphs(cluster: &GlyphCluster, keeps_notdef: bool) -> (r: (Vec<ShapedGlyph>, Fixed))
    ensures
        r.0@ == kept(cluster.glyphs@, cluster.glyphs@.len() as int, keeps_notdef),
        r.1@ == advance_total(r.0@, r.0@.len() as int),
{
    let mut glyphs: Vec<ShapedGlyph> = Vec::new();
    let mut total = Fixed::zero();
    let mut i: usize = 0;
    while i < cluster.glyphs.len()
        invariant
            i <= cluster.glyphs@.len(),
            glyphs@ == kept(cluster.glyphs@, i as int, keeps_notdef),
            total@ == advance_total(glyphs@, glyphs@.len() as int),
        decreases cluster.glyphs@.len() - i,
    {
        let glyph = cluster.glyphs[i];
        if glyph.id > 0 || keeps_notdef {
            let ghost before = glyphs@;
            glyphs.push(glyph);
            total = total.saturating_add(glyph.advance);
            proof {
                assert(glyphs@.subrange(0, before.len() as int) =~= before);
                lemma_total_prefix(glyphs@, before, before.len() as int);
            }
        }
        i = i + 1;
    }
    (glyphs, total)
}

/// The sum of the first glyphs depends on nothing but those glyphs.
proof fn lemma_total_prefix(glyphs: Seq<ShapedGlyph>, first: Seq<ShapedGlyph>, n: int)
    requires
        0 <= n <= first.len() <= glyphs.len(),
        glyphs.subrange(0, first.len() as int) == first,
    ensures
        advance_total(glyphs, n) == advance_total(first, n),
    decreases n,
{
    if n > 0 {
        lemma_total_prefix(glyphs, first, n - 1);
        assert(glyphs.subrange(0, first.len() as int)[n - 1] == glyphs[n - 1]);
    }
}

impl<'a> StringRefList<'a> {
    /// The string that clusters belong to after `begun` strings have begun; before the
    /// first one it is the empty string.
    pub open spec fn current(&self, begun: int) -> Seq<char> {
        if 0 < begun <= self.0@.len() {
            self.0@[begun - 1]@
        } else {
            Seq::empty()
        }
    }

    /// The bytes of the string that clusters belong to.
    pub open spec fn current_bytes(&self, begun: int) -> Seq<u8> {
        encode_utf8(self.current(begun))
    }

    /// What is to be done for the next cluster, or nothing if the cluster is passed over.
    ///
    /// A cluster at the start of a string begins the next string, or ends the one that
    /// began before; the cluster that ends a string is passed over. So is a cluster whose
    /// bytes are no substring of its string. Of the others, the glyphs for what is not
    /// defined are dropped unless the key is that of what is not defined; the first glyph
    /// that is left is the cluster's own and the others are laid over it, with their
    /// accents put right; and the cluster's advance width is the sum of their advances,
    /// aligned.
    pub fn plan(
        &self,
        state: &mut Shaping,
        cluster: &GlyphCluster,
        glyph_aligner: &GlyphAligner,
        is_fallback: bool,
    ) -> (plan: Option<ClusterPlan>)
        requires
            cluster.wf(),
            cluster.start == 0 && !old(state).newline ==> old(state).begun < self.0@.len(),
            glyph_aligner.dir matches GlyphAlignDir::Floor(h) ==> h.0@ > 0,
        ensures
            final(state).previous == old(state).previous,
            final(state).newline == (if cluster.start == 0 {
                !old(state).newline
            } else {
                old(state).newline
            }),
            final(state).begun == (if cluster.start == 0 && !old(state).newline {
                old(state).begun + 1
            } else {
                old(state).begun as int
            }),
            plan is Some <==> !(cluster.start == 0 && old(state).newline) && ({
                let bytes = byte_range(
                    self.current_bytes(final(state).begun as int),
                    cluster.start as int,
                    cluster.end as int,
                );
                bytes.len() > 0 && valid_utf8(bytes)
            }),
            plan matches Some(plan) ==> ({
                let glyphs = kept(
                    cluster.glyphs@,
                    cluster.glyphs@.len() as int,
                    plan.key@ == notdef_key(),
                );
                &&& plan.key@.len() > 0
                &&& encode_utf8(plan.key@) == byte_range(
                    self.current_bytes(final(state).begun as int),
                    cluster.start as int,
                    cluster.end as int,
                )
                &&& plan.glyph_offsets@ == patched_offsets_of(
                    glyphs,
                    glyph_aligner.is_code && !is_fallback,
                )
                &&& plan.enters == (glyphs.len() > 0 || cluster.is_empty)
                &&& glyph_aligner.is_code ==> plan.advance_width@
                    == glyph_aligner.dir.spec_halfwidths(
                    Fixed { raw: advance_total(glyphs, glyphs.len() as int) as i64 },
                )
                &&& !glyph_aligner.is_code ==> plan.advance_width@ == advance_total(
                    glyphs,
                    glyphs.len() as int,
                )
            }),
    {
        let (key, glyphs, total) = match self.take(state, cluster) {
            Some(taken) => taken,
            None => {
                return None;
            },
        };
        let is_variable_width = glyph_aligner.is_code && !is_fallback;
        let mut glyph_offsets: Vec<GlyphOffsets> = Vec::new();
        let mut i: usize = 0;
        while i < glyphs.len()
            invariant
                i <= glyphs@.len(),
                glyph_offsets@.len() == i,
                forall|k: int|
                    0 <= k < i ==> glyph_offsets@[k] == #[trigger] patched_offsets_of(
                        glyphs@,
                        is_variable_width,
                    )[k],
            decreases glyphs@.len() - i,
        {
            let mut offsets = GlyphOffsets::from_glyph(&glyphs[i], i > 0);
            offsets.patch(is_variable_width);
            glyph_offsets.push(offsets);
            i = i + 1;
        }
        proof {
            assert(glyph_offsets@ =~= patched_offsets_of(glyphs@, is_variable_width));
        }
        let advance_width = glyph_aligner.round_halfwidths(total);
        let enters = glyphs.len() > 0 || cluster.is_empty;
        Some(ClusterPlan { key, glyph_offsets, advance_width, enters })
    }

    /// The key of the next cluster, its glyphs that are kept and the sum of their advances,
    /// or nothing if the cluster is passed over.
    pub fn take(&self, state: &mut Shaping, cluster: &GlyphCluster) -> (taken: Option<
        (CharDictionaryKey, Vec<ShapedGlyph>, Fixed),
    >)
        requires
            cluster.wf(),
            cluster.start == 0 && !old(state).newline ==> old(state).begun < self.0@.len(),
        ensures
            final(state).previous == old(state).previous,
            final(state).newline == (if cluster.start == 0 {
                !old(state).newline
            } else {
                old(state).newline
            }),
            final(state).begun == (if cluster.start == 0 && !old(state).newline {
                old(state).begun + 1
            } else {
                old(state).begun as int
            }),
            taken is Some <==> !(cluster.start == 0 && old(state).newline) && ({
                let bytes = byte_range(
                    self.current_bytes(final(state).begun as int),
                    cluster.start as int,
                    cluster.end as int,
                );
                bytes.len() > 0 && valid_utf8(bytes)
            }),
            taken matches Some(taken) ==> ({
                &&& taken.0@.len() > 0
                &&& encode_utf8(taken.0@) == byte_range(
                    self.current_bytes(final(state).begun as int),
                    cluster.start as int,
                    cluster.end as int,
                )
                &&& taken.1@ == kept(
                    cluster.glyphs@,
                    cluster.glyphs@.len() as int,
                    taken.0@ == notdef_key(),
                )
                &&& taken.2@ == advance_total(taken.1@, taken.1@.len() as int)
            }),
    {
        let count = self.0.len();
        if cluster.start == 0 {
            state.newline = !state.newline;
            if state.newline {
                state.begun = state.begun + 1;
            } else {
                return None;
            }
        }
        proof {
            reveal_strlit("");
            assert(""@ =~= Seq::<char>::empty());
        }
        let string: &str = if 0 < state.begun && state.begun <= self.0.len() {
            self.0[state.begun - 1].as_str()
        } else {
            ""
        };
        let key = match CharDictionaryKey::try_from(
            string,
            cluster.start as usize,
            cluster.end as usize,
        ) {
            Ok(key) => key,
            Err(_) => {
                return None;
            },
        };
        proof {
            reveal_strlit("\u{FFFD}");
            assert("\u{FFFD}"@ =~= notdef_key());
        }
        let keeps_notdef = str_eq(key.as_ref(), "\u{FFFD}");
        let (glyphs, total) = keep_glyphs(cluster, keeps_notdef);
        Some((key, glyphs, total))
    }
}

/// The advance width `advance_width` of a cluster, aligned: a typeface of fixed pitch has
/// its advances in whole pixels on the grid of the strategy, one of variable width keeps
/// them.
pub open spec fn aligned(
    advance_width: Fixed,
    is_code: bool,
    strategy: PixelAlignmentStrategy,
) -> int {
    if is_code {
        match strategy {
            PixelAlignmentStrategy::Floor(h) => clamp_i64(
                strategy.spec_whole(advance_width) + clamp_i64(
                    clamp_i64(snapped(strategy.spec_whole(advance_width), h.0@))
                        - strategy.spec_whole(advance_width),
                ),
            ),
            _ => strategy.spec_whole(advance_width),
        }
    } else {
        advance_width@
    }
}

/// What is to be done for the next cluster of the strings `strings`, with the advances
/// aligned by `pixel_alignment_strategy`, or nothing if the cluster is passed over.
pub fn plan_cluster(
    strings: &StringRefList,
    state: &mut Shaping,
    cluster: &GlyphCluster,
    is_code: bool,
    pixel_alignment_strategy: PixelAlignmentStrategy,
) -> (plan: Option<ClusterPlan>)
    requires
        cluster.wf(),
        cluster.start == 0 && !old(state).newline ==> old(state).begun < strings.0@.len(),
        pixel_alignment_strategy matches PixelAlignmentStrategy::Floor(h) ==> h.0@ > 0,
    ensures
        final(state).previous == old(state).previous,
        final(state).newline == (if cluster.start == 0 {
            !old(state).newline
        } else {
            old(state).newline
        }),
        final(state).begun == (if cluster.start == 0 && !old(state).newline {
            old(state).begun + 1
        } else {
            old(state).begun as int
        }),
        plan is Some <==> !(cluster.start == 0 && old(state).newline) && ({
            let bytes = byte_range(
                strings.current_bytes(final(state).begun as int),
                cluster.start as int,
                cluster.end as int,
            );
            bytes.len() > 0 && valid_utf8(bytes)
        }),
        plan matches Some(plan) ==> ({
            let glyphs = kept(
                cluster.glyphs@,
                cluster.glyphs@.len() as int,
                plan.key@ == notdef_key(),
            );
            &&& plan.key@.len() > 0
            &&& encode_utf8(plan.key@) == byte_range(
                strings.current_bytes(final(state).begun as int),
                cluster.start as int,
                cluster.end as int,
            )
            &&& plan.glyph_offsets@ == offsets_of(glyphs)
            &&& plan.enters == (glyphs.len() > 0 || cluster.is_empty)
            &&& plan.advance_width@ == aligned(
                Fixed { raw: advance_total(glyphs, glyphs.len() as int) as i64 },
                is_code,
                pixel_alignment_strategy,
            )
        }),
{
    let (key, glyphs, total) = match strings.take(state, cluster) {
        Some(taken) => taken,
        None => {
            return None;
        },
    };
    let mut glyph_offsets: Vec<GlyphOffsets> = Vec::new();
    let mut i: usize = 0;
    while i < glyphs.len()
        invariant
            i <= glyphs@.len(),
            glyph_offsets@.len() == i,
            forall|k: int| 0 <= k < i ==> glyph_offsets@[k] == #[trigger] offsets_of(glyphs@)[k],
        decreases glyphs@.len() - i,
    {
        glyph_offsets.push(GlyphOffsets::from_glyph(&glyphs[i], i > 0));
        i = i + 1;
    }
    proof {
        assert(glyph_offsets@ =~= offsets_of(glyphs@));
    }
    let advance_width = if is_code {
        let whole = pixel_alignment_strategy.with_advance_width(total);
        let adjustment = whole.adjustment();
        whole.into_inner().saturating_add(adjustment)
    } else {
        total
    };
    let enters = glyphs.len() > 0 || cluster.is_empty;
    Some(ClusterPlan { key, glyph_offsets, advance_width, enters })
}

/// Takes a cluster into the dictionary as planned.
///
/// A cluster that enters gets an entry with the glyphs `glyphs` unless its key has one.
/// Unless the fallback typeface is shaped, the advance width from the cluster before to
/// this one is recorded in the table of the entry of the cluster before, if it is not that
/// entry's own advance width, and this cluster becomes the one before. A cluster that does
/// not enter leaves no cluster before. Every other entry stays as it is: one that is known
/// keeps its glyphs, the fallback typeface records no advance, and nothing is recorded
/// after a cluster that did not enter.
pub fn record(
    entries: &mut CharDictionary,
    state: &mut Shaping,
    plan: ClusterPlan,
    glyphs: Vec<Glyph>,
    is_fallback: bool,
)
    requires
        old(entries).wf(),
        old(state).wf(old(entries)),
    ensures
        final(entries).wf(),
        final(state).wf(final(entries)),
        old(entries).is_sound() && plan.key@.len() > 0 && (
        crate::compile::bitmap::GlyphList(glyphs)).wf() ==> final(entries).is_sound(),
        final(state).begun == old(state).begun,
        final(state).newline == old(state).newline,
        plan.enters ==> final(entries).has(plan.key@),
        !plan.enters ==> final(entries).entries@ == old(entries).entries@ && final(state).previous is None,
        plan.enters && is_fallback ==> final(state).previous == old(state).previous,
        plan.enters && !is_fallback ==> final(state).previous == Some(
            (plan.key, plan.advance_width),
        ),
        final(entries).entries@.len() == old(entries).entries@.len() + (if plan.enters && !old(entries).has(plan.key@) {
            1int
        } else {
            0int
        }),
        plan.enters && !old(entries).has(plan.key@) ==> {
            let entry = final(entries).entries@.last();
            &&& entry.key@ == plan.key@
            &&& entry.advance_chars == plan.key@.len()
            &&& entry.advance_width@ == crate::compile::dict::advance_sum(
                glyphs@,
                glyphs@.len() as int,
            )
            &&& entry.glyphs.0@ == glyphs@
            &&& entry.advance_width_to@.len() == 0
        },
        plan.enters && !is_fallback ==> (old(state).previous matches Some(previous) ==> (
        final(entries).entry(previous.0@) matches Some(entry) && (entry.advance_width
            != previous.1 ==> entry.spec_advance_width_to(plan.key@) == previous.1))),
        forall|i: int|
            0 <= i < old(entries).entries@.len() && !(plan.enters && !is_fallback && is_before(
                old(state).previous,
                old(entries).entries@[i].key@,
            )) ==> #[trigger] final(entries).entries@[i] == old(entries).entries@[i],
        forall|i: int|
            0 <= i < old(entries).entries@.len() && plan.enters && !is_fallback && is_before(
                old(state).previous,
                old(entries).entries@[i].key@,
            ) ==> {
                let was = old(entries).entries@[i];
                let now = #[trigger] final(entries).entries@[i];
                &&& now.key == was.key
                &&& now.advance_chars == was.advance_chars
                &&& now.advance_width == was.advance_width
                &&& now.glyphs == was.glyphs
                &&& now.advance_width_to@ == (if was.advance_width == width_before(
                    old(state).previous,
                ) {
                    was.advance_width_to@
                } else {
                    crate::compile::dict::with_width(
                        was.advance_width_to@,
                        plan.key.0,
                        width_before(old(state).previous),
                    )
                })
            },
        old(entries).holds_corrections() ==> final(entries).holds_corrections(),
        is_fallback && old(entries).has_no_corrections() ==> final(entries).has_no_corrections(),
{
    if !plan.enters {
        state.previous = None;
        return;
    }
    let ghost before = entries.keys();
    entries.insert_glyphs(plan.key.clone_key(), glyphs);
    proof {
        assert(entries.entries@.subrange(0, old(entries).entries@.len() as int) =~= old(entries).entries@);
        lemma_has_stays(*old(entries), *entries, old(state).previous);
        assert forall|i: int| 0 <= i < old(entries).entries@.len() implies #[trigger] entries.entries@[i]
            == old(entries).entries@[i] by {
            assert(entries.entries@.subrange(0, old(entries).entries@.len() as int)[i]
                == entries.entries@[i]);
        }
    }
    if is_fallback {
        return;
    }
    let to_entry_key = plan.key.clone_key();
    let previous = state.previous.take();
    match previous {
        Some((entry_key, advance_width)) => {
            let ghost grown = *entries;
            let ghost name = entry_key@;
            entries.insert_advance_width(entry_key, to_entry_key, advance_width);
            proof {
                assert forall|i: int| 0 <= i < old(entries).entries@.len() implies grown.entries@[i]
                    == old(entries).entries@[i] by {}
                assert(to_entry_key.0 == plan.key.0);
                assert(entries.keys() == grown.keys());
                lemma_key_place(grown.keys(), name, 0);
                let place = crate::compile::dict::key_place(grown.keys(), name, 0);
                assert(grown.keys()[place] == grown.entries@[place].key@);
                if !old(entries).has(plan.key@) {
                    let last = grown.entries@.len() - 1;
                    assert(grown.keys()[last] == grown.entries@[last].key@);
                    lemma_key_place(old(entries).keys(), name, 0);
                    let first = crate::compile::dict::key_place(old(entries).keys(), name, 0);
                    assert(old(entries).keys()[first] == old(entries).entries@[first].key@);
                    assert(grown.entries@.subrange(0, old(entries).entries@.len() as int)[first]
                        == grown.entries@[first]);
                    assert(grown.keys()[first] == grown.entries@[first].key@);
                }
            }
        },
        None => {},
    }
    state.previous = Some((plan.key, plan.advance_width));
}

/// A key that has its entry keeps it when the dictionary gets a further entry.
proof fn lemma_has_stays(
    before: CharDictionary,
    after: CharDictionary,
    previous: Option<(CharDictionaryKey, Fixed)>,
)
    requires
        before.entries@.len() <= after.entries@.len(),
        after.entries@.subrange(0, before.entries@.len() as int) == before.entries@,
        previous matches Some(p) ==> before.has(p.0@),
    ensures
        previous matches Some(p) ==> after.has(p.0@),
{
    if let Some(p) = previous {
        let key = p.0@;
        crate::compile::dict::lemma_key_place(before.keys(), key, 0);
        let place = crate::compile::dict::key_place(before.keys(), key, 0);
        assert(before.keys()[place] == before.entries@[place].key@);
        assert(after.entries@.subrange(0, before.entries@.len() as int)[place]
            == after.entries@[place]);
        assert(after.keys()[place] == key);
        crate::compile::dict::lemma_key_place(after.keys(), key, 0);
    }
}

} // verus!
