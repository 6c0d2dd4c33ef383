//! The dictionary of shaped clusters: one entry for each rendered substring, with the
//! glyphs to draw for it and its advance widths.

use crate::compile::bitmap::{Glyph, GlyphList};
use crate::fixed::{clamp_i64, Fixed};
use crate::text::{comes_before, in_order, lemma_order_total, str_eq, str_less};
use vstd::prelude::*;
use vstd::slice::{slice_subrange, slice_to_vec};
use vstd::string::StringSliceAdditionalSpecFns;
use vstd::utf8::{encode_utf8, valid_utf8};

verus! {

/// A key of the dictionary: a substring that was rendered, which is never empty.
#[derive(Clone, Debug, PartialEq, Eq, PartialOrd, Ord)]
pub struct CharDictionaryKey(pub String);

/// What the dictionary holds for one key.
#[derive(Debug)]
pub struct CharmapEntry {
    pub key: String,
    /// The number of characters of the key.
    pub advance_chars: usize,
    /// The advance widths to the entries after which this one's advance is not its own.
    pub advance_width_to: Vec<(String, Fixed)>,
    /// The entry's own advance width: the sum of the advances of its glyphs.
    pub advance_width: Fixed,
    pub glyphs: GlyphList,
}

/// The entries that the shaping of the character sources has given so far.
#[derive(Debug)]
pub struct CharDictionary {
    pub entries: Vec<CharmapEntry>,
}

/// The bytes of `bytes` from `start` to `end`, as far as there are bytes.
pub open spec fn byte_range(bytes: Seq<u8>, start: int, end: int) -> Seq<u8> {
    let lo = if start < bytes.len() {
        start
    } else {
        bytes.len() as int
    };
    let hi = if end < bytes.len() {
        end
    } else {
        bytes.len() as int
    };
    bytes.subrange(lo, hi)
}

/// Calls `String::from_utf8`, which gives the string of the bytes if they are UTF-8 and an
/// error if they are not; the error is dropped.
#[verifier::external_body]
fn string_from_utf8(bytes: Vec<u8>) -> (text: Option<String>)
    ensures
        text is Some <==> valid_utf8(bytes@),
        text matches Some(s) ==> encode_utf8(s@) == bytes@,
{
    String::from_utf8(bytes).ok()
}

/// The substring of `string` in the bytes from `start` to `end`, if there is one: the
/// range holds a byte, and starts and ends between two characters.
pub fn try_to_entry_key(string: &str, start: usize, end: usize) -> (key: Result<String, ()>)
    requires
        start <= end,
    ensures
        key is Ok <==> byte_range(string.spec_bytes(), start as int, end as int).len() > 0
            && valid_utf8(byte_range(string.spec_bytes(), start as int, end as int)),
        key matches Ok(s) ==> s@.len() > 0 && encode_utf8(s@) == byte_range(
            string.spec_bytes(),
            start as int,
            end as int,
        ),
{
    let bytes = string.as_bytes();
    let lo = if start < bytes.len() {
        start
    } else {
        bytes.len()
    };
    let hi = if end < bytes.len() {
        end
    } else {
        bytes.len()
    };
    if lo == hi {
        return Err(());
    }
    match string_from_utf8(slice_to_vec(slice_subrange(bytes, lo, hi))) {
        Some(key) => Ok(key),
        None => Err(()),
    }
}

impl CharDictionaryKey {
    /// The characters of the key.
    pub open spec fn view(&self) -> Seq<char> {
        self.0@
    }

    /// The key for the bytes of `string` from `start` to `end`, if they are a substring.
    pub fn try_from(string: &str, start: usize, end: usize) -> (key: Result<Self, ()>)
        requires
            start <= end,
        ensures
            key is Ok <==> byte_range(string.spec_bytes(), start as int, end as int).len() > 0
                && valid_utf8(byte_range(string.spec_bytes(), start as int, end as int)),
            key matches Ok(k) ==> k@.len() > 0 && encode_utf8(k@) == byte_range(
                string.spec_bytes(),
                start as int,
                end as int,
            ),
    {
        match try_to_entry_key(string, start, end) {
            Ok(key) => Ok(CharDictionaryKey(key)),
            Err(_) => Err(()),
        }
    }

    pub fn into_inner(self) -> (key: String)
        ensures
            key == self.0,
            key@ == self@,
    {
        self.0
    }

    /// A copy of the key.
    pub fn clone_key(&self) -> (key: Self)
        ensures
            key == *self,
    {
        CharDictionaryKey(self.0.clone())
    }

    pub fn as_ref(&self) -> (key: &str)
        ensures
            key@ == self@,
    {
        self.0.as_str()
    }
}

/// The place of the first of `keys` that is `key`, from place `from` on, or the number of
/// keys where there is none.
pub open spec fn key_place(keys: Seq<Seq<char>>, key: Seq<char>, from: int) -> int
    decreases keys.len() - from,
{
    if from < 0 || from >= keys.len() {
        keys.len() as int
    } else if keys[from] == key {
        from
    } else {
        key_place(keys, key, from + 1)
    }
}

/// The place that [`key_place`] gives is the first at which the key stands.
pub proof fn lemma_key_place(keys: Seq<Seq<char>>, key: Seq<char>, from: int)
    requires
        0 <= from,
    ensures
        from <= key_place(keys, key, from) || from > keys.len(),
        key_place(keys, key, from) <= keys.len(),
        key_place(keys, key, from) < keys.len() ==> keys[key_place(keys, key, from)] == key,
        forall|i: int| from <= i < key_place(keys, key, from) ==> keys[i] != key,
    decreases keys.len() - from,
{
    if from < keys.len() && keys[from] != key {
        lemma_key_place(keys, key, from + 1);
    }
}

/// The sum of the advance widths of the first `n` glyphs, clamped glyph by glyph.
pub open spec fn advance_sum(glyphs: Seq<Glyph>, n: int) -> int
    decreases n,
{
    if n <= 0 || n > glyphs.len() {
        0
    } else {
        clamp_i64(advance_sum(glyphs, n - 1) + glyphs[n - 1].advance_width@)
    }
}

/// The place of the first of `keys` from place `from` on that does not come before `key`,
/// or the number of keys where every one comes before it: the place of `key` in their
/// order.
pub open spec fn order_place(keys: Seq<Seq<char>>, key: Seq<char>, from: int) -> int
    decreases keys.len() - from,
{
    if from < 0 || from >= keys.len() {
        keys.len() as int
    } else if !comes_before(keys[from], key) {
        from
    } else {
        order_place(keys, key, from + 1)
    }
}

/// The keys before the place of a key in their order come before it, and the key at that
/// place does not.
pub proof fn lemma_order_place(keys: Seq<Seq<char>>, key: Seq<char>, from: int)
    requires
        0 <= from <= keys.len(),
    ensures
        from <= order_place(keys, key, from) <= keys.len(),
        forall|j: int| from <= j < order_place(keys, key, from) ==> comes_before(
            #[trigger] keys[j],
            key,
        ),
        order_place(keys, key, from) < keys.len() ==> !comes_before(
            keys[order_place(keys, key, from)],
            key,
        ),
    decreases keys.len() - from,
{
    if from < keys.len() && comes_before(keys[from], key) {
        lemma_order_place(keys, key, from + 1);
    }
}

/// Keys that are in order stay in order with a further key at its place in their order.
pub proof fn lemma_insert_in_order(keys: Seq<Seq<char>>, key: Seq<char>)
    requires
        in_order(keys),
        forall|j: int| 0 <= j < keys.len() ==> keys[j] != key,
    ensures
        in_order(keys.insert(order_place(keys, key, 0), key)),
{
    let place = order_place(keys, key, 0);
    lemma_order_place(keys, key, 0);
    let more = keys.insert(place, key);
    if place < keys.len() {
        lemma_order_total(keys[place], key);
    }
    assert forall|i: int| 0 <= i && i + 1 < more.len() implies comes_before(
        #[trigger] more[i],
        more[i + 1],
    ) by {
        if i + 1 < place {
            assert(more[i] == keys[i] && more[i + 1] == keys[i + 1]);
        } else if i + 1 == place {
            assert(more[i] == keys[i] && more[i + 1] == key);
        } else if i == place {
            assert(more[i] == key && more[i + 1] == keys[place]);
        } else {
            assert(more[i] == keys[i - 1] && more[i + 1] == keys[i]);
            assert(comes_before(keys[i - 1], keys[i - 1 + 1]));
        }
    }
}

/// The place of a key does not depend on keys before it that are other keys.
pub proof fn lemma_key_place_skips(keys: Seq<Seq<char>>, key: Seq<char>, from: int, to: int)
    requires
        0 <= from <= to <= keys.len(),
        forall|j: int| from <= j < to ==> keys[j] != key,
    ensures
        key_place(keys, key, from) == key_place(keys, key, to),
    decreases to - from,
{
    if from < to {
        lemma_key_place_skips(keys, key, from + 1, to);
    }
}

/// The place of a key among keys with another key put in at place `pos`: the place that
/// it had, or the next one if that was not before `pos`.
pub proof fn lemma_key_place_insert(
    keys: Seq<Seq<char>>,
    pos: int,
    new: Seq<char>,
    key: Seq<char>,
    from: int,
)
    requires
        0 <= from <= keys.len(),
        0 <= pos <= keys.len(),
        key != new,
    ensures
        key_place(keys.insert(pos, new), key, if from < pos {
            from
        } else {
            from + 1
        }) == (if key_place(keys, key, from) < pos {
            key_place(keys, key, from)
        } else {
            key_place(keys, key, from) + 1
        }),
    decreases keys.len() - from,
{
    let more = keys.insert(pos, new);
    lemma_key_place(keys, key, from);
    if from < keys.len() {
        if from < pos {
            assert(more[from] == keys[from]);
            if keys[from] != key {
                lemma_key_place_insert(keys, pos, new, key, from + 1);
                if from + 1 == pos {
                    assert(more[pos] == new);
                    assert(key_place(more, key, pos) == key_place(more, key, pos + 1));
                }
            }
        } else {
            assert(more[from + 1] == keys[from]);
            if keys[from] != key {
                lemma_key_place_insert(keys, pos, new, key, from + 1);
            }
        }
    } else {
        if from < pos {
        } else if from == pos {
            assert(more[pos] == new);
            assert(key_place(more, key, from + 1) == more.len());
        }
    }
}

/// The table `table` with `width` for `key`: in the place of the width that it had for
/// `key`, or else at the place of `key` in the order of the table's keys.
pub open spec fn with_width(table: Seq<(String, Fixed)>, key: String, width: Fixed) -> Seq<
    (String, Fixed),
> {
    let keys = table.map_values(|pair: (String, Fixed)| pair.0@);
    let place = key_place(keys, key@, 0);
    if place < table.len() {
        table.update(place, (table[place].0, width))
    } else {
        table.insert(order_place(keys, key@, 0), (key, width))
    }
}

/// The width that a table has for `key`, or `default` if it has none.
pub open spec fn table_width(table: Seq<(String, Fixed)>, default: Fixed, key: Seq<char>) -> Fixed {
    let place = key_place(table.map_values(|pair: (String, Fixed)| pair.0@), key, 0);
    if place < table.len() {
        table[place].1
    } else {
        default
    }
}

/// The place of a key among keys with one more key at their end.
proof fn lemma_key_place_push(keys: Seq<Seq<char>>, last: Seq<char>, key: Seq<char>, from: int)
    requires
        0 <= from <= keys.len(),
    ensures
        key_place(keys, key, from) < keys.len() ==> key_place(keys.push(last), key, from)
            == key_place(keys, key, from),
        key_place(keys, key, from) >= keys.len() && last == key ==> key_place(
            keys.push(last),
            key,
            from,
        ) == keys.len(),
        key_place(keys, key, from) >= keys.len() && last != key ==> key_place(
            keys.push(last),
            key,
            from,
        ) == keys.len() + 1,
    decreases keys.len() - from,
{
    let more = keys.push(last);
    if from < keys.len() {
        assert(more[from] == keys[from]);
        if keys[from] != key {
            lemma_key_place_push(keys, last, key, from + 1);
        }
    } else {
        assert(more[from] == last);
        assert(key_place(more, key, from + 1) == more.len());
    }
}

/// A table with a width for a key has that width for the key, and for every other key
/// the width that it had.
pub proof fn lemma_with_width(
    table: Seq<(String, Fixed)>,
    default: Fixed,
    key: String,
    width: Fixed,
    other: Seq<char>,
)
    ensures
        table_width(with_width(table, key, width), default, key@) == width,
        other != key@ ==> table_width(with_width(table, key, width), default, other)
            == table_width(table, default, other),
{
    let keys = table.map_values(|pair: (String, Fixed)| pair.0@);
    let place = key_place(keys, key@, 0);
    let after = with_width(table, key, width);
    let names = after.map_values(|pair: (String, Fixed)| pair.0@);
    lemma_key_place(keys, key@, 0);
    lemma_key_place(keys, other, 0);
    if place < table.len() {
        assert(keys[place] == table[place].0@);
        assert(names =~= keys);
    } else {
        let pos = order_place(keys, key@, 0);
        lemma_order_place(keys, key@, 0);
        assert(names =~= keys.insert(pos, key@));
        assert(names[pos] == key@);
        assert forall|j: int| 0 <= j < pos implies names[j] != key@ by {
            assert(names[j] == keys[j]);
        }
        lemma_key_place_skips(names, key@, 0, pos);
        if other != key@ {
            lemma_key_place_insert(keys, pos, key@, other, 0);
            let was = key_place(keys, other, 0);
            if was < table.len() {
                if was < pos {
                    assert(after[was] == table[was]);
                } else {
                    assert(after[was + 1] == table[was]);
                }
            }
        }
    }
}

/// A table that is in the order of its keys stays so with a width for a key.
pub proof fn lemma_table_stays_in_order(table: Seq<(String, Fixed)>, key: String, width: Fixed)
    requires
        in_order(table.map_values(|pair: (String, Fixed)| pair.0@)),
    ensures
        in_order(with_width(table, key, width).map_values(|pair: (String, Fixed)| pair.0@)),
{
    let keys = table.map_values(|pair: (String, Fixed)| pair.0@);
    let place = key_place(keys, key@, 0);
    let after = with_width(table, key, width);
    let names = after.map_values(|pair: (String, Fixed)| pair.0@);
    lemma_key_place(keys, key@, 0);
    if place < table.len() {
        assert(keys[place] == table[place].0@);
        assert(names =~= keys);
    } else {
        lemma_insert_in_order(keys, key@);
        lemma_order_place(keys, key@, 0);
        assert(names =~= keys.insert(order_place(keys, key@, 0), key@));
    }
}

impl CharmapEntry {
    /// Whether the entry stands for at least one character, its glyphs have one of the
    /// bit depths, and its table is in the order of its keys.
    pub open spec fn is_sound(&self) -> bool {
        self.advance_chars > 0 && self.glyphs.wf() && in_order(self.table_keys())
    }

    /// The keys of the entry's table of advance widths.
    pub open spec fn table_keys(&self) -> Seq<Seq<char>> {
        self.advance_width_to@.map_values(|pair: (String, Fixed)| pair.0@)
    }

    /// The advance width from this entry to the one of key `key`: the one that the table
    /// has for `key`, or else the entry's own.
    pub open spec fn spec_advance_width_to(&self, key: Seq<char>) -> Fixed {
        let place = key_place(self.table_keys(), key, 0);
        if place < self.advance_width_to@.len() {
            self.advance_width_to@[place].1
        } else {
            self.advance_width
        }
    }

    /// The place of `key` in the entry's table, or the table's length.
    pub fn table_place(&self, key: &str) -> (place: usize)
        ensures
            place == key_place(self.table_keys(), key@, 0),
            place <= self.advance_width_to@.len(),
    {
        let ghost keys = self.table_keys();
        let mut k: usize = 0;
        while k < self.advance_width_to.len()
            invariant
                keys == self.table_keys(),
                k <= self.advance_width_to@.len(),
                key_place(keys, key@, k as int) == key_place(keys, key@, 0),
            decreases self.advance_width_to@.len() - k,
        {
            if str_eq(self.advance_width_to[k].0.as_str(), key) {
                return k;
            }
            k = k + 1;
        }
        k
    }

    /// The place of `key` in the order of the keys of the entry's table.
    pub fn table_order_place(&self, key: &str) -> (place: usize)
        ensures
            place == order_place(self.table_keys(), key@, 0),
            place <= self.advance_width_to@.len(),
    {
        let ghost keys = self.table_keys();
        let mut k: usize = 0;
        while k < self.advance_width_to.len()
            invariant
                keys == self.table_keys(),
                k <= self.advance_width_to@.len(),
                order_place(keys, key@, k as int) == order_place(keys, key@, 0),
            decreases self.advance_width_to@.len() - k,
        {
            if !str_less(self.advance_width_to[k].0.as_str(), key) {
                return k;
            }
            k = k + 1;
        }
        k
    }

    pub fn advance_width_to(&self, key: &str) -> (width: Fixed)
        ensures
            width == self.spec_advance_width_to(key@),
    {
        let place = self.table_place(key);
        if place < self.advance_width_to.len() {
            self.advance_width_to[place].1
        } else {
            self.advance_width
        }
    }
}

impl CharDictionary {
    /// Whether every entry stands for at least one character, has glyphs of one of the bit
    /// depths, and has its table in the order of its keys: what an entry needs to go into a
    /// font.
    pub open spec fn is_sound(&self) -> bool {
        forall|i: int| 0 <= i < self.entries@.len() ==> (#[trigger] self.entries@[i]).is_sound()
    }

    /// Whether no entry has a width in its table.
    pub open spec fn has_no_corrections(&self) -> bool {
        forall|i: int|
            0 <= i < self.entries@.len() ==> (#[trigger] self.entries@[i]).advance_width_to@.len()
                == 0
    }

    /// Whether every entry stands for as many characters as its key has, and every table
    /// holds corrections only: widths that differ from the entry's own, to keys of the
    /// dictionary, in the order of these keys.
    pub open spec fn holds_corrections(&self) -> bool {
        &&& forall|i: int|
            0 <= i < self.entries@.len() ==> (#[trigger] self.entries@[i]).advance_chars
                == self.entries@[i].key@.len()
        &&& forall|i: int, k: int|
            0 <= i < self.entries@.len() && 0 <= k < self.entries@[i].advance_width_to@.len()
                ==> self.has((#[trigger] self.entries@[i].advance_width_to@[k]).0@)
                && self.entries@[i].advance_width_to@[k].1 != self.entries@[i].advance_width
        &&& forall|i: int|
            0 <= i < self.entries@.len() ==> in_order((#[trigger] self.entries@[i]).table_keys())
    }

    /// The keys of the entries, in the order in which they came.
    pub open spec fn keys(&self) -> Seq<Seq<char>> {
        self.entries@.map_values(|entry: CharmapEntry| entry.key@)
    }

    /// Whether no two entries have the same key.
    pub open spec fn wf(&self) -> bool {
        forall|i: int, j: int|
            0 <= i < j < self.entries@.len() ==> self.entries@[i].key@ != self.entries@[j].key@
    }

    /// Whether the dictionary has an entry for `key`.
    pub open spec fn has(&self, key: Seq<char>) -> bool {
        key_place(self.keys(), key, 0) < self.entries@.len()
    }

    pub fn new() -> (dictionary: Self)
        ensures
            dictionary.entries@.len() == 0,
            dictionary.wf(),
    {
        CharDictionary { entries: Vec::new() }
    }

    /// The place of the entry for `key`, or the number of entries where there is none.
    pub fn place_of(&self, key: &str) -> (place: usize)
        ensures
            place == key_place(self.keys(), key@, 0),
            place <= self.entries@.len(),
            place < self.entries@.len() ==> self.entries@[place as int].key@ == key@,
            place == self.entries@.len() ==> forall|i: int|
                0 <= i < self.entries@.len() ==> self.entries@[i].key@ != key@,
    {
        let ghost keys = self.keys();
        proof {
            lemma_key_place(keys, key@, 0);
        }
        let mut k: usize = 0;
        while k < self.entries.len()
            invariant
                keys == self.keys(),
                k <= self.entries@.len(),
                key_place(keys, key@, k as int) == key_place(keys, key@, 0),
            decreases self.entries@.len() - k,
        {
            if str_eq(self.entries[k].key.as_str(), key) {
                return k;
            }
            k = k + 1;
        }
        proof {
            lemma_key_place(keys, key@, 0);
            assert forall|i: int| 0 <= i < self.entries@.len() implies self.entries@[i].key@
                != key@ by {
                assert(keys[i] == self.entries@[i].key@);
            }
        }
        k
    }

    pub fn contains_key(&self, entry_key: &CharDictionaryKey) -> (found: bool)
        ensures
            found == self.has(entry_key@),
    {
        self.place_of(entry_key.as_ref()) < self.entries.len()
    }

    /// Gives the dictionary an entry for `entry_key` with the glyphs `glyphs`, unless it has
    /// one. The new entry's advance width is the sum of its glyphs' advances, and it stands
    /// for as many characters as its key has.
    pub fn insert_glyphs(&mut self, entry_key: CharDictionaryKey, glyphs: Vec<Glyph>)
        requires
            old(self).wf(),
        ensures
            final(self).wf(),
            old(self).has(entry_key@) ==> final(self).entries@ == old(self).entries@,
            !old(self).has(entry_key@) ==> {
                &&& final(self).entries@.len() == old(self).entries@.len() + 1
                &&& final(self).entries@.subrange(0, old(self).entries@.len() as int) == old(self).entries@
                &&& final(self).entries@.last().key@ == entry_key@
                &&& final(self).entries@.last().advance_chars == entry_key@.len()
                &&& final(self).entries@.last().advance_width_to@.len() == 0
                &&& final(self).entries@.last().advance_width@ == advance_sum(
                    glyphs@,
                    glyphs@.len() as int,
                )
                &&& final(self).entries@.last().glyphs.0@ == glyphs@
            },
            final(self).has(entry_key@),
            old(self).is_sound() && entry_key@.len() > 0 && (GlyphList(glyphs)).wf() ==> final(self).is_sound(),
            old(self).holds_corrections() ==> final(self).holds_corrections(),
    {
        let place = self.place_of(entry_key.as_ref());
        if place < self.entries.len() {
            return;
        }
        let mut advance_width = Fixed::zero();
        let mut i: usize = 0;
        while i < glyphs.len()
            invariant
                i <= glyphs@.len(),
                advance_width@ == advance_sum(glyphs@, i as int),
            decreases glyphs@.len() - i,
        {
            advance_width = advance_width.saturating_add(glyphs[i].advance_width);
            i = i + 1;
        }
        let advance_chars = entry_key.as_ref().unicode_len();
        let ghost before = self.entries@;
        let key = entry_key.into_inner();
        self.entries.push(
            CharmapEntry {
                key,
                advance_chars,
                advance_width_to: Vec::new(),
                advance_width,
                glyphs: GlyphList(glyphs),
            },
        );
        proof {
            assert(self.entries@.subrange(0, before.len() as int) =~= before);
            let keys = self.keys();
            assert(keys[before.len() as int] == entry_key@);
            lemma_key_place(keys, entry_key@, 0);
            assert forall|i: int| 0 <= i < before.len() implies #[trigger] self.entries@[i]
                == before[i] by {}
            assert(self.entries@[before.len() as int].table_keys() =~= Seq::<Seq<char>>::empty());
            if old(self).holds_corrections() {
                let old_keys = old(self).keys();
                assert(keys =~= old_keys.push(entry_key@));
                assert forall|i: int, k: int|
                    0 <= i < self.entries@.len() && 0 <= k
                        < self.entries@[i].advance_width_to@.len() implies self.has(
                    (#[trigger] self.entries@[i].advance_width_to@[k]).0@,
                ) && self.entries@[i].advance_width_to@[k].1
                    != self.entries@[i].advance_width by {
                    assert(self.entries@[i] == before[i]);
                    let name = before[i].advance_width_to@[k].0@;
                    assert(old(self).has(name));
                    lemma_key_place_push(old_keys, entry_key@, name, 0);
                }
                assert forall|i: int| 0 <= i < self.entries@.len() implies (
                #[trigger] self.entries@[i]).advance_chars == self.entries@[i].key@.len()
                    && in_order(self.entries@[i].table_keys()) by {
                    if i < before.len() {
                        assert(self.entries@[i] == before[i]);
                    } else {
                        assert(self.entries@[i].table_keys() =~= Seq::<Seq<char>>::empty());
                    }
                }
            }
        }
    }

    /// Records that the advance width from the entry of `entry_key` to the one of
    /// `to_entry_key` is `advance_width`, unless that is the entry's own advance width.
    /// Every other entry stays as it is.
    pub fn insert_advance_width(
        &mut self,
        entry_key: CharDictionaryKey,
        to_entry_key: CharDictionaryKey,
        advance_width: Fixed,
    )
        requires
            old(self).wf(),
            old(self).has(entry_key@),
        ensures
            final(self).wf(),
            old(self).is_sound() ==> final(self).is_sound(),
            old(self).holds_corrections() && old(self).has(to_entry_key@) ==> final(self).holds_corrections(),
            final(self).entries@.len() == old(self).entries@.len(),
            final(self).keys() == old(self).keys(),
            forall|i: int|
                0 <= i < old(self).entries@.len() && old(self).entries@[i].key@ != entry_key@
                    ==> final(self).entries@[i] == old(self).entries@[i],
            forall|i: int|
                0 <= i < old(self).entries@.len() && old(self).entries@[i].key@ == entry_key@ ==> {
                    &&& final(self).entries@[i].key == old(self).entries@[i].key
                    &&& final(self).entries@[i].advance_width == old(self).entries@[i].advance_width
                    &&& final(self).entries@[i].advance_chars == old(self).entries@[i].advance_chars
                    &&& final(self).entries@[i].glyphs == old(self).entries@[i].glyphs
                    &&& final(self).entries@[i].advance_width_to@ == if old(self).entries@[i].advance_width == advance_width {
                        old(self).entries@[i].advance_width_to@
                    } else {
                        with_width(
                            old(self).entries@[i].advance_width_to@,
                            to_entry_key.0,
                            advance_width,
                        )
                    }
                    &&& old(self).entries@[i].advance_width != advance_width ==> final(self).entries@[i].spec_advance_width_to(to_entry_key@) == advance_width
                    &&& forall|other: Seq<char>|
                        other != to_entry_key@ ==> #[trigger] final(self).entries@[i].spec_advance_width_to(other) == old(self).entries@[i].spec_advance_width_to(other)
                },
    {
        let place = self.place_of(entry_key.as_ref());
        let ghost before = self.entries@;
        let ghost keys = self.keys();
        if self.entries[place].advance_width.raw == advance_width.raw {
            return;
        }
        let at = self.entries[place].table_place(to_entry_key.as_ref());
        let pos = self.entries[place].table_order_place(to_entry_key.as_ref());
        let mut entry = self.entries.remove(place);
        if at < entry.advance_width_to.len() {
            let pair = entry.advance_width_to.remove(at);
            entry.advance_width_to.insert(at, (pair.0, advance_width));
        } else {
            entry.advance_width_to.insert(pos, (to_entry_key.into_inner(), advance_width));
        }
        self.entries.insert(place, entry);
        proof {
            assert(self.entries@.len() == before.len());
            assert forall|i: int| 0 <= i < before.len() && i != place implies self.entries@[i]
                == before[i] by {}
            assert(self.keys() =~= keys);
            assert(self.entries@[place as int].advance_width_to@ =~= with_width(
                before[place as int].advance_width_to@,
                to_entry_key.0,
                advance_width,
            ));
            if old(self).is_sound() {
                assert forall|i: int| 0 <= i < self.entries@.len() implies (
                #[trigger] self.entries@[i]).is_sound() by {
                    if i != place {
                        assert(self.entries@[i] == before[i]);
                    } else {
                        assert(before[i].is_sound());
                        lemma_table_stays_in_order(
                            before[place as int].advance_width_to@,
                            to_entry_key.0,
                            advance_width,
                        );
                    }
                }
            }
            assert forall|i: int| 0 <= i < before.len() && before[i].key@ == entry_key@ implies i
                == place by {
                assert(keys[i] == before[i].key@);
                assert(keys[place as int] == before[place as int].key@);
            }
            lemma_with_width(
                before[place as int].advance_width_to@,
                before[place as int].advance_width,
                to_entry_key.0,
                advance_width,
                to_entry_key@,
            );
            if old(self).holds_corrections() && old(self).has(to_entry_key@) {
                let was = before[place as int].advance_width_to@;
                let now = self.entries@[place as int].advance_width_to@;
                let at = key_place(was.map_values(|pair: (String, Fixed)| pair.0@), to_entry_key@, 0);
                assert forall|i: int, k: int|
                    0 <= i < self.entries@.len() && 0 <= k
                        < self.entries@[i].advance_width_to@.len() implies self.has(
                    (#[trigger] self.entries@[i].advance_width_to@[k]).0@,
                ) && self.entries@[i].advance_width_to@[k].1
                    != self.entries@[i].advance_width by {
                    if i != place {
                        assert(self.entries@[i] == before[i]);
                        assert(old(self).has(before[i].advance_width_to@[k].0@));
                    } else if at < was.len() {
                        if k != at {
                            assert(now[k] == was[k]);
                            assert(old(self).has(was[k].0@));
                        } else {
                            assert(old(self).has(was[at].0@));
                        }
                    } else {
                        let pos = order_place(
                            was.map_values(|pair: (String, Fixed)| pair.0@),
                            to_entry_key@,
                            0,
                        );
                        if k < pos {
                            assert(now[k] == was[k]);
                            assert(old(self).has(was[k].0@));
                        } else if k > pos {
                            assert(now[k] == was[k - 1]);
                            assert(old(self).has(was[k - 1].0@));
                        }
                    }
                }
                assert forall|i: int| 0 <= i < self.entries@.len() implies in_order(
                    (#[trigger] self.entries@[i]).table_keys(),
                ) by {
                    if i != place {
                        assert(self.entries@[i] == before[i]);
                    } else {
                        let names = was.map_values(|pair: (String, Fixed)| pair.0@);
                        assert(names == before[place as int].table_keys());
                        if at < was.len() {
                            lemma_key_place(names, to_entry_key@, 0);
                            assert(names[at] == was[at].0@);
                            assert(self.entries@[i].table_keys() =~= names);
                        } else {
                            lemma_key_place(names, to_entry_key@, 0);
                            lemma_insert_in_order(names, to_entry_key@);
                            assert(self.entries@[i].table_keys() =~= names.insert(
                                order_place(names, to_entry_key@, 0),
                                to_entry_key@,
                            ));
                        }
                    }
                }
                assert forall|i: int| 0 <= i < self.entries@.len() implies (
                #[trigger] self.entries@[i]).advance_chars == self.entries@[i].key@.len() by {
                    if i != place {
                        assert(self.entries@[i] == before[i]);
                    } else {
                        assert(keys[i] == before[i].key@);
                        assert(self.keys()[i] == self.entries@[i].key@);
                    }
                }
            }
            assert forall|other: Seq<char>| other != to_entry_key@ implies #[trigger] self.entries@[place as int].spec_advance_width_to(
                other,
            ) == before[place as int].spec_advance_width_to(other) by {
                lemma_with_width(
                    before[place as int].advance_width_to@,
                    before[place as int].advance_width,
                    to_entry_key.0,
                    advance_width,
                    other,
                );
            }
        }
    }
}

/// The entry of `entries` for `key`, if there is one.
pub open spec fn entry_for(entries: Seq<CharmapEntry>, key: Seq<char>) -> Option<CharmapEntry> {
    let place = key_place(entries.map_values(|entry: CharmapEntry| entry.key@), key, 0);
    if place < entries.len() {
        Some(entries[place])
    } else {
        None
    }
}

/// The place of a key among keys of which no two are the same is the only place at which
/// the key stands.
pub proof fn lemma_key_place_unique(keys: Seq<Seq<char>>, key: Seq<char>, at: int)
    requires
        0 <= at < keys.len(),
        keys[at] == key,
        forall|i: int, j: int| 0 <= i < j < keys.len() ==> keys[i] != keys[j],
    ensures
        key_place(keys, key, 0) == at,
{
    lemma_key_place(keys, key, 0);
}

impl CharDictionary {
    /// The entry for `key`, if the dictionary has one.
    pub open spec fn entry(&self, key: Seq<char>) -> Option<CharmapEntry> {
        entry_for(self.entries@, key)
    }

    /// Takes the entry for `key` out of the dictionary, if it has one. Every other key
    /// keeps its entry.
    pub fn remove(&mut self, key: &str) -> (entry: Option<CharmapEntry>)
        requires
            old(self).wf(),
        ensures
            final(self).wf(),
            old(self).is_sound() ==> final(self).is_sound() && (entry matches Some(e)
                ==> e.is_sound()),
            entry == old(self).entry(key@),
            !final(self).has(key@),
            forall|other: Seq<char>|
                other != key@ ==> #[trigger] final(self).entry(other) == old(self).entry(other),
            final(self).entries@.len() == old(self).entries@.len() - (if entry is Some {
                1int
            } else {
                0int
            }),
    {
        let place = self.place_of(key);
        if place == self.entries.len() {
            return None;
        }
        let ghost before = self.entries@;
        let ghost keys = self.keys();
        let entry = self.entries.remove(place);
        proof {
            let after = self.entries@;
            let names = self.keys();
            assert forall|i: int| 0 <= i < names.len() implies #[trigger] names[i] == (if i
                < place {
                keys[i]
            } else {
                keys[i + 1]
            }) by {
                assert(names[i] == after[i].key@);
            }
            assert forall|i: int, j: int| 0 <= i < j < after.len() implies after[i].key@
                != after[j].key@ by {
                assert(names[i] == after[i].key@);
                assert(names[j] == after[j].key@);
                let a = if i < place { i } else { i + 1 };
                let b = if j < place { j } else { j + 1 };
                assert(keys[a] == before[a].key@);
                assert(keys[b] == before[b].key@);
            }
            lemma_key_place(names, key@, 0);
            if key_place(names, key@, 0) < names.len() {
                let at = key_place(names, key@, 0);
                let a = if at < place { at } else { at + 1 };
                assert(keys[a] == before[a].key@);
                assert(keys[place as int] == before[place as int].key@);
            }
            assert forall|other: Seq<char>| other != key@ implies #[trigger] self.entry(other)
                == old(self).entry(other) by {
                lemma_key_place(keys, other, 0);
                lemma_key_place(names, other, 0);
                let p = key_place(keys, other, 0);
                let q = key_place(names, other, 0);
                assert forall|i: int, j: int| 0 <= i < j < keys.len() implies keys[i]
                    != keys[j] by {
                    assert(keys[i] == before[i].key@);
                    assert(keys[j] == before[j].key@);
                }
                assert forall|i: int, j: int| 0 <= i < j < names.len() implies names[i]
                    != names[j] by {
                    assert(names[i] == after[i].key@);
                    assert(names[j] == after[j].key@);
                }
                if p < keys.len() {
                    assert(keys[place as int] == key@);
                    let moved = if p < place { p } else { p - 1 };
                    assert(names[moved] == other);
                    lemma_key_place_unique(names, other, moved);
                } else {
                    if q < names.len() {
                        let a = if q < place { q } else { q + 1 };
                        assert(keys[a] == other);
                    }
                }
            }
        }
        Some(entry)
    }

    /// Puts `entry` into the dictionary, in the place of the entry that its key had if it
    /// had one. Every other key keeps its entry.
    pub fn insert(&mut self, entry: CharmapEntry)
        requires
            old(self).wf(),
        ensures
            final(self).wf(),
            old(self).is_sound() && entry.is_sound() ==> final(self).is_sound(),
            final(self).entry(entry.key@) == Some(entry),
            forall|other: Seq<char>|
                other != entry.key@ ==> #[trigger] final(self).entry(other) == old(self).entry(
                    other,
                ),
            final(self).entries@.len() == old(self).entries@.len() + (if old(self).has(
                entry.key@,
            ) {
                0int
            } else {
                1int
            }),
    {
        let ghost key = entry.key@;
        let _ = self.remove(entry.key.as_str());
        let ghost middle = *self;
        self.entries.push(entry);
        proof {
            let before = middle.entries@;
            let keys = middle.keys();
            let after = self.entries@;
            let names = self.keys();
            lemma_key_place(keys, key, 0);
            assert forall|i: int| 0 <= i < keys.len() implies keys[i] != key by {}
            assert forall|i: int| 0 <= i < keys.len() implies #[trigger] names[i] == keys[i] by {
                assert(names[i] == after[i].key@);
                assert(keys[i] == before[i].key@);
            }
            assert(names[keys.len() as int] == key);
            assert forall|i: int, j: int| 0 <= i < j < after.len() implies after[i].key@
                != after[j].key@ by {
                assert(names[i] == after[i].key@);
                assert(names[j] == after[j].key@);
                if j < before.len() {
                    assert(keys[i] == before[i].key@);
                    assert(keys[j] == before[j].key@);
                }
            }
            assert forall|i: int, j: int| 0 <= i < j < names.len() implies names[i]
                != names[j] by {
                assert(names[i] == after[i].key@);
                assert(names[j] == after[j].key@);
            }
            lemma_key_place_unique(names, key, keys.len() as int);
            assert forall|other: Seq<char>| other != key implies #[trigger] self.entry(other)
                == middle.entry(other) by {
                lemma_key_place(keys, other, 0);
                lemma_key_place(names, other, 0);
                let p = key_place(keys, other, 0);
                let q = key_place(names, other, 0);
                if p < keys.len() {
                    assert(names[p] == other);
                    lemma_key_place_unique(names, other, p);
                } else {
                    if q < names.len() {
                        assert(q < keys.len());
                        assert(names[q] == keys[q]);
                    }
                }
            }
        }
    }

    /// Puts every entry of `other` into the dictionary. A key that both have gets the entry
    /// of `other`.
    pub fn extend(&mut self, other: CharDictionary)
        requires
            old(self).wf(),
            other.wf(),
        ensures
            final(self).wf(),
            old(self).is_sound() && other.is_sound() ==> final(self).is_sound(),
            forall|key: Seq<char>| #[trigger]
                final(self).entry(key) == (if other.has(key) {
                    other.entry(key)
                } else {
                    old(self).entry(key)
                }),
    {
        let ghost source = other.entries@;
        let ghost names = other.keys();
        let mut rest = other.entries;
        proof {
            assert forall|i: int, j: int| 0 <= i < j < names.len() implies names[i]
                != names[j] by {
                assert(names[i] == source[i].key@);
                assert(names[j] == source[j].key@);
            }
        }
        loop
            invariant
                self.wf(),
                old(self).is_sound() && other.is_sound() ==> self.is_sound(),
                source == other.entries@,
                names == source.map_values(|entry: CharmapEntry| entry.key@),
                forall|i: int, j: int| 0 <= i < j < names.len() ==> names[i] != names[j],
                rest@.len() <= source.len(),
                rest@ == source.subrange(0, rest@.len() as int),
                forall|key: Seq<char>| #[trigger]
                    self.entry(key) == (if rest@.len() <= key_place(names, key, 0) < source.len() {
                        Some(source[key_place(names, key, 0)])
                    } else {
                        old(self).entry(key)
                    }),
            ensures
                self.wf(),
                old(self).is_sound() && other.is_sound() ==> self.is_sound(),
                forall|key: Seq<char>| #[trigger]
                    self.entry(key) == (if key_place(names, key, 0) < source.len() {
                        Some(source[key_place(names, key, 0)])
                    } else {
                        old(self).entry(key)
                    }),
            decreases rest@.len(),
        {
            let ghost n = rest@.len() as int;
            let ghost current = *self;
            match rest.pop() {
                Some(entry) => {
                    proof {
                        assert(entry == source[n - 1]);
                        assert(names[n - 1] == entry.key@);
                        lemma_key_place_unique(names, entry.key@, n - 1);
                        assert(rest@ =~= source.subrange(0, n - 1));
                    }
                    self.insert(entry);
                    proof {
                        assert forall|key: Seq<char>| #[trigger]
                            self.entry(key) == (if n - 1 <= key_place(names, key, 0)
                                < source.len() {
                                Some(source[key_place(names, key, 0)])
                            } else {
                                old(self).entry(key)
                            }) by {
                            lemma_key_place(names, key, 0);
                            if key != entry.key@ {
                                assert(self.entry(key) == current.entry(key));
                            }
                        }
                    }
                },
                None => {
                    proof {
                        assert forall|key: Seq<char>| #[trigger]
                            self.entry(key) == (if key_place(names, key, 0) < source.len() {
                                Some(source[key_place(names, key, 0)])
                            } else {
                                old(self).entry(key)
                            }) by {
                            lemma_key_place(names, key, 0);
                        }
                    }
                    break;
                },
            }
        }
    }
}

impl CharDictionary {
    /// Whether the entries are in the order of their keys.
    pub open spec fn is_sorted(&self) -> bool {
        in_order(self.keys())
    }

    /// The place of `key` in the order of the keys of the entries.
    pub fn order_place_of(&self, key: &str) -> (place: usize)
        ensures
            place == order_place(self.keys(), key@, 0),
            place <= self.entries@.len(),
    {
        let ghost keys = self.keys();
        let mut k: usize = 0;
        while k < self.entries.len()
            invariant
                keys == self.keys(),
                k <= self.entries@.len(),
                order_place(keys, key@, k as int) == order_place(keys, key@, 0),
            decreases self.entries@.len() - k,
        {
            if !str_less(self.entries[k].key.as_str(), key) {
                return k;
            }
            k = k + 1;
        }
        k
    }

    /// Puts `entry`, whose key the dictionary does not have, into the dictionary at the
    /// place of its key in the order of the keys. Every other key keeps its entry.
    pub fn insert_in_order(&mut self, entry: CharmapEntry)
        requires
            old(self).wf(),
            !old(self).has(entry.key@),
        ensures
            final(self).wf(),
            old(self).is_sorted() ==> final(self).is_sorted(),
            old(self).is_sound() && entry.is_sound() ==> final(self).is_sound(),
            final(self).entries@ == old(self).entries@.insert(
                order_place(old(self).keys(), entry.key@, 0),
                entry,
            ),
            final(self).entries@.len() == old(self).entries@.len() + 1,
            final(self).entry(entry.key@) == Some(entry),
            forall|other: Seq<char>|
                other != entry.key@ ==> #[trigger] final(self).entry(other) == old(self).entry(
                    other,
                ),
    {
        let ghost before = self.entries@;
        let ghost keys = self.keys();
        let ghost key = entry.key@;
        let pos = self.order_place_of(entry.key.as_str());
        self.entries.insert(pos, entry);
        proof {
            let after = self.entries@;
            let names = self.keys();
            lemma_key_place(keys, key, 0);
            assert forall|j: int| 0 <= j < keys.len() implies keys[j] != key by {}
            assert(names =~= keys.insert(pos as int, key));
            assert forall|i: int, j: int| 0 <= i < j < after.len() implies after[i].key@
                != after[j].key@ by {
                let a = if i < pos { i } else { i - 1 };
                let b = if j < pos { j } else { j - 1 };
                if i != pos && j != pos {
                    assert(after[i] == before[a] && after[j] == before[b]);
                } else if i == pos {
                    assert(after[j] == before[b]);
                    assert(keys[b] == before[b].key@);
                } else {
                    assert(after[i] == before[a]);
                    assert(keys[a] == before[a].key@);
                }
            }
            if old(self).is_sorted() {
                lemma_insert_in_order(keys, key);
            }
            assert forall|j: int| 0 <= j < pos implies names[j] != key by {
                assert(names[j] == keys[j]);
            }
            assert(names[pos as int] == key);
            lemma_key_place_skips(names, key, 0, pos as int);
            assert forall|other: Seq<char>| other != key implies #[trigger] self.entry(other)
                == old(self).entry(other) by {
                lemma_key_place_insert(keys, pos as int, key, other, 0);
                lemma_key_place(keys, other, 0);
                let was = key_place(keys, other, 0);
                if was < keys.len() {
                    if was < pos {
                        assert(after[was] == before[was]);
                    } else {
                        assert(after[was + 1] == before[was]);
                    }
                }
            }
            if old(self).is_sound() && entry.is_sound() {
                assert forall|i: int| 0 <= i < after.len() implies (#[trigger] after[i]).is_sound() by {
                    if i < pos {
                        assert(after[i] == before[i]);
                    } else if i > pos {
                        assert(after[i] == before[i - 1]);
                    }
                }
            }
        }
    }

    /// The dictionary with its entries in the order of their keys. Every key keeps its
    /// entry.
    pub fn sorted(self) -> (ordered: Self)
        requires
            self.wf(),
        ensures
            ordered.wf(),
            ordered.is_sorted(),
            ordered.entries@.len() == self.entries@.len(),
            self.is_sound() ==> ordered.is_sound(),
            forall|key: Seq<char>| #[trigger] ordered.entry(key) == self.entry(key),
    {
        let ghost source = self.entries@;
        let ghost names = self.keys();
        let mut rest = self.entries;
        let mut ordered = CharDictionary::new();
        proof {
            assert forall|i: int, j: int| 0 <= i < j < names.len() implies names[i]
                != names[j] by {
                assert(names[i] == source[i].key@);
                assert(names[j] == source[j].key@);
            }
            assert(ordered.keys() =~= Seq::<Seq<char>>::empty());
        }
        loop
            invariant
                ordered.wf(),
                ordered.is_sorted(),
                self.is_sound() ==> ordered.is_sound(),
                source == self.entries@,
                names == source.map_values(|entry: CharmapEntry| entry.key@),
                forall|i: int, j: int| 0 <= i < j < names.len() ==> names[i] != names[j],
                rest@.len() <= source.len(),
                rest@ == source.subrange(0, rest@.len() as int),
                ordered.entries@.len() == source.len() - rest@.len(),
                forall|key: Seq<char>| #[trigger]
                    ordered.entry(key) == (if rest@.len() <= key_place(names, key, 0)
                        < source.len() {
                        Some(source[key_place(names, key, 0)])
                    } else {
                        None
                    }),
            ensures
                ordered.wf(),
                ordered.is_sorted(),
                self.is_sound() ==> ordered.is_sound(),
                ordered.entries@.len() == source.len(),
                forall|key: Seq<char>| #[trigger]
                    ordered.entry(key) == (if key_place(names, key, 0) < source.len() {
                        Some(source[key_place(names, key, 0)])
                    } else {
                        None
                    }),
            decreases rest@.len(),
        {
            let ghost n = rest@.len() as int;
            let ghost current = ordered;
            match rest.pop() {
                Some(entry) => {
                    proof {
                        assert(entry == source[n - 1]);
                        assert(names[n - 1] == entry.key@);
                        lemma_key_place_unique(names, entry.key@, n - 1);
                        assert(rest@ =~= source.subrange(0, n - 1));
                        assert(current.entry(entry.key@) is None);
                    }
                    ordered.insert_in_order(entry);
                    proof {
                        assert forall|key: Seq<char>| #[trigger]
                            ordered.entry(key) == (if n - 1 <= key_place(names, key, 0)
                                < source.len() {
                                Some(source[key_place(names, key, 0)])
                            } else {
                                None
                            }) by {
                            lemma_key_place(names, key, 0);
                            if key != entry.key@ {
                                assert(ordered.entry(key) == current.entry(key));
                            }
                        }
                    }
                },
                None => {
                    proof {
                        assert forall|key: Seq<char>| #[trigger]
                            ordered.entry(key) == (if key_place(names, key, 0) < source.len() {
                                Some(source[key_place(names, key, 0)])
                            } else {
                                None
                            }) by {
                            lemma_key_place(names, key, 0);
                        }
                    }
                    break;
                },
            }
        }
        ordered
    }
}

} // verus!
