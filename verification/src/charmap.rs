//! The character map: a trie over characters that leads from the start of a text to the
//! entry of the longest key that the text starts with.

use crate::fixed::Fixed;
use crate::glyph::Glyph;
use crate::text::str_eq;
use vstd::prelude::*;
use vstd::std_specs::iter::IteratorSpec;
use vstd::string::{axiom_spec_iter, next_postcondition};

verus! {

/// A node of the trie. `entry` is the entry that a text has reached when it leaves the
/// trie at this node; `children` lead on, each by one character.
#[derive(Debug)]
pub struct CharmapNode {
    pub entry: usize,
    pub children: Vec<(char, usize)>,
}

/// A trie whose nodes are held in one vector, children before parents; the root is last.
#[derive(Debug)]
pub struct Trie {
    pub nodes: Vec<CharmapNode>,
}

/// The place of the first child for `c` from place `from` on, or the number of children
/// where there is none.
pub open spec fn child_place(children: Seq<(char, usize)>, c: char, from: int) -> int
    decreases children.len() - from,
{
    if from < 0 || from >= children.len() {
        children.len() as int
    } else if children[from].0 == c {
        from
    } else {
        child_place(children, c, from + 1)
    }
}

/// The character of a text at place `at`; after its end a text goes on with NUL
/// characters.
pub open spec fn char_at(text: Seq<char>, at: int) -> char {
    if 0 <= at < text.len() {
        text[at]
    } else {
        '\0'
    }
}

/// The entry that the text from place `at` on reaches from node `node`: the descent
/// follows the text's characters as long as there is a child for the next one.
pub open spec fn find_from(nodes: Seq<CharmapNode>, node: int, text: Seq<char>, at: int) -> int
    decreases node,
{
    if node < 0 || node >= nodes.len() {
        0
    } else {
        let children = nodes[node].children@;
        let place = child_place(children, char_at(text, at), 0);
        if place < children.len() && 0 <= children[place].1 < node {
            find_from(nodes, children[place].1 as int, text, at + 1)
        } else {
            nodes[node].entry as int
        }
    }
}

impl Trie {
    /// Whether the trie has a root, every node names one of `entries` entries, and every
    /// child comes before its parent.
    pub open spec fn wf(&self, entries: int) -> bool {
        &&& self.nodes@.len() > 0
        &&& forall|i: int|
            0 <= i < self.nodes@.len() ==> (#[trigger] self.nodes@[i]).entry < entries
        &&& forall|i: int, k: int|
            0 <= i < self.nodes@.len() && 0 <= k < self.nodes@[i].children@.len()
                ==> (#[trigger] self.nodes@[i].children@[k]).1 < i
    }

    /// The entry that `text` reaches from the root.
    pub open spec fn spec_find(&self, text: Seq<char>) -> int {
        find_from(self.nodes@, self.nodes@.len() - 1, text, 0)
    }

    /// The entry that the text from place `at` on reaches from the root. The descent ends
    /// for every text, at a node of the trie.
    pub fn find(&self, text: &[char], at: usize) -> (entry: usize)
        requires
            self.nodes@.len() > 0,
            at <= text@.len(),
        ensures
            entry == find_from(self.nodes@, self.nodes@.len() - 1, text@, at as int),
    {
        let mut node: usize = self.nodes.len() - 1;
        let mut pos: usize = at;
        loop
            invariant
                node < self.nodes@.len(),
                pos <= text@.len(),
                find_from(self.nodes@, node as int, text@, pos as int) == find_from(
                    self.nodes@,
                    self.nodes@.len() - 1,
                    text@,
                    at as int,
                ),
            ensures
                node < self.nodes@.len(),
                self.nodes@[node as int].entry == find_from(
                    self.nodes@,
                    self.nodes@.len() - 1,
                    text@,
                    at as int,
                ),
            decreases node,
        {
            let c: char = if pos < text.len() {
                text[pos]
            } else {
                '\0'
            };
            let children = &self.nodes[node].children;
            let place = place_of(children, c);
            if place < children.len() && children[place].1 < node {
                let child = children[place].1;
                proof {
                    if pos >= text@.len() {
                        lemma_padding_at(self.nodes@, child as int, text@, pos + 1, pos as int);
                    }
                }
                node = child;
                if pos < text.len() {
                    pos = pos + 1;
                }
            } else {
                break;
            }
        }
        self.nodes[node].entry
    }
}

/// After its end a text looks the same from every place.
proof fn lemma_padding_at(nodes: Seq<CharmapNode>, node: int, text: Seq<char>, a: int, b: int)
    requires
        a >= text.len(),
        b >= text.len(),
    ensures
        find_from(nodes, node, text, a) == find_from(nodes, node, text, b),
    decreases node,
{
    if 0 <= node < nodes.len() {
        let children = nodes[node].children@;
        let place = child_place(children, '\0', 0);
        if place < children.len() && 0 <= children[place].1 < node {
            lemma_padding_at(nodes, children[place].1 as int, text, a + 1, b + 1);
        }
    }
}

/// The place of the first child for `c`, or the number of children where there is none.
pub fn place_of(children: &Vec<(char, usize)>, c: char) -> (place: usize)
    ensures
        place == child_place(children@, c, 0),
        place <= children@.len(),
{
    let mut k: usize = 0;
    while k < children.len()
        invariant
            k <= children@.len(),
            child_place(children@, c, k as int) == child_place(children@, c, 0),
        decreases children@.len() - k,
    {
        if children[k].0 == c {
            return k;
        }
        k = k + 1;
    }
    k
}

/// The descent through a trie ends at one of its entries, whatever the text.
pub proof fn lemma_find_reaches_entry(trie: Trie, entries: int, text: Seq<char>, node: int, at: int)
    requires
        trie.wf(entries),
        0 <= node < trie.nodes@.len(),
    ensures
        0 <= find_from(trie.nodes@, node, text, at) < entries,
    decreases node,
{
    let children = trie.nodes@[node].children@;
    let place = child_place(children, char_at(text, at), 0);
    if place < children.len() && 0 <= children[place].1 < node {
        lemma_find_reaches_entry(trie, entries, text, children[place].1 as int, at + 1);
    }
}

/// The advance widths of an entry: the width to the entries that are listed, and the
/// width to every other one.
#[derive(Debug)]
pub struct AdvanceWidths<'a> {
    pub default: Fixed,
    pub pairs: Vec<(&'a str, Fixed)>,
}

/// The width that `pairs` lists for `key` from place `from` on, or `default`.
pub open spec fn width_to(pairs: Seq<(&str, Fixed)>, default: Fixed, key: Seq<char>, from: int) -> Fixed
    decreases pairs.len() - from,
{
    if from < 0 || from >= pairs.len() {
        default
    } else if pairs[from].0@ == key {
        pairs[from].1
    } else {
        width_to(pairs, default, key, from + 1)
    }
}

impl<'a> AdvanceWidths<'a> {
    /// The advance width to the entry of key `key`.
    pub open spec fn spec_get(&self, key: Seq<char>) -> Fixed {
        width_to(self.pairs@, self.default, key, 0)
    }

    pub fn get(&self, key: &str) -> (width: Fixed)
        ensures
            width == self.spec_get(key@),
    {
        let mut k: usize = 0;
        while k < self.pairs.len()
            invariant
                k <= self.pairs@.len(),
                width_to(self.pairs@, self.default, key@, k as int) == self.spec_get(key@),
            decreases self.pairs@.len() - k,
        {
            if str_eq(self.pairs[k].0, key) {
                return self.pairs[k].1;
            }
            k = k + 1;
        }
        self.default
    }
}

/// What the font holds for one key: the glyphs to draw, how many characters of the text
/// they stand for, and how far the next entry is.
#[derive(Debug)]
pub struct CharmapEntry<'a> {
    pub key: &'a str,
    pub advance_chars: usize,
    pub advance_widths: AdvanceWidths<'a>,
    pub glyph: Glyph<'a>,
}

impl<'a> CharmapEntry<'a> {
    /// The entry of no key, which stands for no character and has no width.
    pub fn null(data: &'a [u8]) -> (entry: Self)
        ensures
            entry.key@.len() == 0,
            entry.advance_chars == 0,
            entry.advance_widths.default@ == 0,
            entry.advance_widths.pairs@.len() == 0,
            entry.glyph.wf(),
            entry.glyph.id == 0,
            entry.glyph.next is None,
    {
        proof {
            reveal_strlit("");
        }
        CharmapEntry {
            key: "",
            advance_chars: 0,
            advance_widths: AdvanceWidths { default: Fixed::zero(), pairs: Vec::new() },
            glyph: Glyph::null(data),
        }
    }

    /// The advance width from this entry to the one of key `key`. It depends on nothing but
    /// the entry and the key.
    pub open spec fn spec_advance_width_to(&self, key: Seq<char>) -> Fixed {
        self.advance_widths.spec_get(key)
    }

    pub fn advance_width_to(&self, key: &str) -> (width: Fixed)
        ensures
            width == self.spec_advance_width_to(key@),
    {
        self.advance_widths.get(key)
    }
}

/// The character map of a font: its entries, and the trie that leads to them.
#[derive(Debug)]
pub struct Charmap<'a> {
    pub entries: Vec<CharmapEntry<'a>>,
    pub trie: Trie,
}

impl<'a> Charmap<'a> {
    /// Whether the trie leads to entries of the map, and every entry has glyph images for
    /// every position.
    pub open spec fn wf(&self) -> bool {
        &&& self.trie.wf(self.entries@.len() as int)
        &&& forall|i: int| 0 <= i < self.entries@.len() ==> (#[trigger] self.entries@[i]).glyph.wf()
    }

    /// Whether every entry stands for at least one character of the text, so that a text is
    /// used up entry by entry.
    pub open spec fn advances(&self) -> bool {
        forall|i: int| 0 <= i < self.entries@.len() ==> (#[trigger] self.entries@[i]).advance_chars > 0
    }

    /// The entry for the start of `text`.
    pub open spec fn spec_get(&self, text: Seq<char>) -> CharmapEntry<'a> {
        self.entries@[self.trie.spec_find(text)]
    }

    /// The entry for the start of `slice`. The descent reads the characters of `slice` one
    /// by one and keeps none of them.
    pub fn get(&self, slice: &str) -> (entry: &CharmapEntry<'a>)
        requires
            self.wf(),
        ensures
            *entry == self.spec_get(slice@),
    {
        broadcast use next_postcondition, axiom_spec_iter;
        let ghost nodes = self.trie.nodes@;
        let ghost text = slice@;
        let mut iter = slice.chars();
        let mut node: usize = self.trie.nodes.len() - 1;
        let ghost mut pos: int = 0;
        proof {
            assert(text.subrange(0, text.len() as int) =~= text);
        }
        loop
            invariant_except_break
                iter.remaining() == text.subrange(pos, text.len() as int),
                find_from(nodes, node as int, text, pos) == find_from(
                    nodes,
                    nodes.len() - 1,
                    text,
                    0,
                ),
            invariant
                self.wf(),
                nodes == self.trie.nodes@,
                text == slice@,
                node < nodes.len(),
                0 <= pos <= text.len(),
                iter.obeys_prophetic_iter_laws(),
            ensures
                node < nodes.len(),
                nodes[node as int].entry == find_from(nodes, nodes.len() - 1, text, 0),
            decreases node,
        {
            let children = &self.trie.nodes[node].children;
            if children.len() == 0 {
                break;
            }
            let ghost before = iter;
            let c: char = match iter.next() {
                Some(c) => c,
                None => '\0',
            };
            proof {
                if before.remaining().len() > 0 {
                    assert(before.remaining()[0] == text[pos]);
                    assert(iter.remaining() =~= text.subrange(pos + 1, text.len() as int));
                } else {
                    assert(pos == text.len());
                }
                assert(c == char_at(text, pos));
            }
            let place = place_of(children, c);
            if place < children.len() && children[place].1 < node {
                let child = children[place].1;
                proof {
                    if pos >= text.len() {
                        lemma_padding_at(nodes, child as int, text, pos + 1, pos);
                    } else {
                        pos = pos + 1;
                    }
                }
                node = child;
            } else {
                break;
            }
        }
        proof {
            lemma_find_reaches_entry(
                self.trie,
                self.entries@.len() as int,
                text,
                nodes.len() - 1,
                0,
            );
        }
        &self.entries[self.trie.nodes[node].entry]
    }

    /// The index of the entry for the text from place `at` on.
    pub fn index_at(&self, text: &[char], at: usize) -> (index: usize)
        requires
            self.wf(),
            at <= text@.len(),
        ensures
            index == find_from(self.trie.nodes@, self.trie.nodes@.len() - 1, text@, at as int),
            index < self.entries@.len(),
    {
        proof {
            lemma_find_reaches_entry(
                self.trie,
                self.entries@.len() as int,
                text@,
                self.trie.nodes@.len() - 1,
                at as int,
            );
        }
        self.trie.find(text, at)
    }
}

/// Asking an entry twice for the advance width to the same key gives the same width.
pub proof fn lemma_advance_width_is_a_function(
    entry: CharmapEntry,
    key: Seq<char>,
    first: Fixed,
    second: Fixed,
)
    requires
        first == entry.spec_advance_width_to(key),
        second == entry.spec_advance_width_to(key),
    ensures
        first == second,
{
}

} // verus!
