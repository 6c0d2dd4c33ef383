use mplusfonts::charmap::{AdvanceWidths, Charmap, CharmapEntry, CharmapNode, Trie};
use mplusfonts::compile::charmap::build_trie;
use mplusfonts::fixed::Fixed;
use mplusfonts::glyph::Glyph;

fn keys(list: &[&str]) -> Vec<Vec<char>> {
    list.iter().map(|k| k.chars().collect()).collect()
}

fn find(trie: &Trie, text: &str) -> usize {
    let chars: Vec<char> = text.chars().collect();
    let entries = trie.nodes.iter().map(|n| n.entry).max().unwrap_or(0) + 1;
    let map = Charmap { entries: (0..entries).map(|_| CharmapEntry::null(&[])).collect(), trie: copy(trie) };
    map.index_at(&chars, 0)
}

fn copy(trie: &Trie) -> Trie {
    Trie {
        nodes: trie
            .nodes
            .iter()
            .map(|n| CharmapNode { entry: n.entry, children: n.children.clone() })
            .collect(),
    }
}

fn longest(list: &[&str], text: &str) -> usize {
    let padded: Vec<char> = text.chars().chain(std::iter::repeat('\0').take(8)).collect();
    let mut best = list.len();
    for (i, key) in list.iter().enumerate() {
        let key: Vec<char> = key.chars().collect();
        if padded.starts_with(&key) && (best == list.len() || key.len() > list[best].chars().count()) {
            best = i;
        }
    }
    best
}

#[test]
fn trie_leads_to_the_longest_key() {
    let list = ["f", "ff", "ffi", "a", "ab", "x", "0"];
    let trie = build_trie(&keys(&list));
    for text in ["f", "ff", "ffi", "ffix", "fa", "a", "ab", "abc", "ac", "x0", "0x1F", "", "z", "ffj"] {
        assert_eq!(find(&trie, text), longest(&list, text), "text {text:?}");
    }
    assert_eq!(find(&trie, "ffi"), 2);
    assert_eq!(find(&trie, "ffa"), 1);
    assert_eq!(find(&trie, "q"), list.len());
}

#[test]
fn trie_without_keys_is_one_leaf() {
    let trie = build_trie(&keys(&[]));
    assert_eq!(trie.nodes.len(), 1);
    assert!(trie.nodes[0].children.is_empty());
    assert_eq!(find(&trie, "anything"), 0);
    assert_eq!(find(&trie, ""), 0);
}

#[test]
fn trie_falls_back_to_the_entry_of_the_path_so_far() {
    // "ab" has no entry of its own on the way to "abc"
    let list = ["a", "abc"];
    let trie = build_trie(&keys(&list));
    assert_eq!(find(&trie, "abc"), 1);
    assert_eq!(find(&trie, "abd"), 0);
    assert_eq!(find(&trie, "ab"), 0);
    assert_eq!(find(&trie, "b"), 2);
}

#[test]
fn trie_children_come_before_their_parents() {
    let list = ["ka", "ki", "ku", "k", "sa", "shi"];
    let trie = build_trie(&keys(&list));
    for (i, node) in trie.nodes.iter().enumerate() {
        assert!(node.entry <= list.len());
        for (_, child) in &node.children {
            assert!(*child < i);
        }
    }
}

#[test]
fn trie_pads_the_text_with_nul() {
    let list = ["a\0", "a"];
    let trie = build_trie(&keys(&list));
    // at its end a text goes on with NUL characters
    assert_eq!(find(&trie, "a"), 0);
    assert_eq!(find(&trie, "ab"), 1);
}

#[test]
fn trie_descent_ends_for_every_text() {
    let list = ["0", "1", "2", "3", "4", "5", "6", "7", "8", "9", "x"];
    let trie = build_trie(&keys(&list));
    let long: String = std::iter::repeat("0x1F").take(500).collect();
    assert_eq!(find(&trie, &long), 0);
    assert_eq!(find(&trie, "\u{10FFFF}"), list.len());
}

fn entry<'a>(key: &'a str, default: i64, pairs: Vec<(&'a str, i64)>) -> CharmapEntry<'a> {
    CharmapEntry {
        key,
        advance_chars: key.chars().count(),
        advance_widths: AdvanceWidths {
            default: Fixed::from_raw(default),
            pairs: pairs.into_iter().map(|(k, v)| (k, Fixed::from_raw(v))).collect(),
        },
        glyph: Glyph::null(&[]),
    }
}

#[test]
fn advance_width_to_is_the_listed_width_or_the_default() {
    let e = entry("f", 400, vec![("i", 350), ("ffi", 300), ("i", 999)]);
    assert_eq!(e.advance_width_to("i"), Fixed::from_raw(350));
    assert_eq!(e.advance_width_to("ffi"), Fixed::from_raw(300));
    assert_eq!(e.advance_width_to("x"), Fixed::from_raw(400));
    assert_eq!(e.advance_width_to(""), Fixed::from_raw(400));
}

#[test]
fn advance_width_to_gives_the_same_width_twice() {
    let e = entry("f", 400, vec![("i", 350)]);
    for key in ["i", "x", "", "ffi"] {
        assert_eq!(e.advance_width_to(key), e.advance_width_to(key));
    }
}

#[test]
fn charmap_get_returns_the_entry_for_the_start_of_the_text() {
    let list = ["f", "ffi", "i"];
    let trie = build_trie(&keys(&list));
    let mut entries: Vec<CharmapEntry> = list.iter().map(|k| entry(k, 100, vec![])).collect();
    entries.push(entry("\u{FFFD}", 100, vec![]));
    let map = Charmap { entries, trie };
    assert_eq!(map.get("ffind").key, "ffi");
    assert_eq!(map.get("find").key, "f");
    assert_eq!(map.get("in").key, "i");
    assert_eq!(map.get("no").key, "\u{FFFD}");
    assert_eq!(map.get("").key, "\u{FFFD}");
}

#[test]
fn null_entry_has_no_key_and_no_width() {
    let e = CharmapEntry::null(&[]);
    assert_eq!(e.key, "");
    assert_eq!(e.advance_chars, 0);
    assert_eq!(e.advance_width_to("a"), Fixed::from_raw(0));
    assert_eq!(e.glyph.id, 0);
    assert!(e.glyph.next.is_none());
}
