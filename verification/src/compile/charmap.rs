//! The character map builder: from the keys of the dictionary to the trie that leads a
//! text to the entry of the longest key that it starts with.

use crate::charmap::{char_at, child_place, find_from, place_of, CharmapNode, Trie};
use crate::compile::dict::CharmapEntry;
use crate::text::chars_of;
use vstd::prelude::*;

verus! {

/// The entries of a font with the trie over their keys. A text that starts with no key
/// is led to the number of entries, where the entry for what is not defined goes.
#[derive(Debug)]
pub struct Charmap {
    pub entries: Vec<CharmapEntry>,
    pub trie: Trie,
}

/// Whether `text` starts with `key`; after its end a text goes on with NUL characters.
pub open spec fn starts_with(text: Seq<char>, key: Seq<char>) -> bool {
    forall|i: int| 0 <= i < key.len() ==> key[i] == char_at(text, i)
}

/// Whether `entry` is the place of the longest of `keys` that `text` starts with, or the
/// number of keys if it starts with none.
pub open spec fn is_longest_match(keys: Seq<Seq<char>>, text: Seq<char>, entry: int) -> bool {
    if entry == keys.len() {
        forall|j: int| 0 <= j < keys.len() ==> !starts_with(text, #[trigger] keys[j])
    } else {
        &&& 0 <= entry < keys.len()
        &&& starts_with(text, keys[entry])
        &&& forall|j: int|
            0 <= j < keys.len() && starts_with(text, #[trigger] keys[j]) ==> keys[j].len()
                <= keys[entry].len()
    }
}

/// Whether key `m` has the character `c` at place `depth`.
pub open spec fn goes_on(keys: Seq<Vec<char>>, m: int, depth: int, c: char) -> bool {
    0 <= m < keys.len() && keys[m]@.len() > depth && keys[m]@[depth] == c
}

/// Whether key `m` has the path `path` for its first characters.
pub open spec fn on_path(keys: Seq<Vec<char>>, m: int, path: Seq<char>) -> bool {
    &&& 0 <= m < keys.len()
    &&& keys[m]@.len() >= path.len()
    &&& keys[m]@.subrange(0, path.len() as int) == path
}

/// Whether `members` are the keys that have the path `path` for their first characters,
/// each named once.
pub open spec fn members_of(keys: Seq<Vec<char>>, members: Seq<usize>, path: Seq<char>) -> bool {
    &&& forall|k: int| 0 <= k < members.len() ==> on_path(keys, #[trigger] members[k] as int, path)
    &&& forall|m: int| #[trigger] on_path(keys, m, path) ==> members.contains(m as usize)
}

/// Whether `entry` is the longest key that is a part of the path `path` from its start
/// and is shorter than `limit`, or the number of keys if there is none.
pub open spec fn best_on_path(
    keys: Seq<Vec<char>>,
    path: Seq<char>,
    limit: int,
    entry: int,
) -> bool {
    if entry == keys.len() {
        forall|j: int|
            0 <= j < keys.len() && (#[trigger] keys[j])@.len() < limit ==> !(keys[j]@.len()
                <= path.len() && keys[j]@ == path.subrange(0, keys[j]@.len() as int))
    } else {
        &&& 0 <= entry < keys.len()
        &&& keys[entry]@.len() < limit
        &&& keys[entry]@.len() <= path.len()
        &&& keys[entry]@ == path.subrange(0, keys[entry]@.len() as int)
        &&& forall|j: int|
            0 <= j < keys.len() && (#[trigger] keys[j])@.len() < limit && keys[j]@.len()
                <= path.len() && keys[j]@ == path.subrange(0, keys[j]@.len() as int)
                ==> keys[j]@.len() <= keys[entry]@.len()
    }
}

/// The descent from a node does not depend on the nodes that come after it.
pub proof fn lemma_find_stable(
    before: Seq<CharmapNode>,
    after: Seq<CharmapNode>,
    node: int,
    text: Seq<char>,
    at: int,
)
    requires
        before.len() <= after.len(),
        forall|i: int| 0 <= i < before.len() ==> before[i] == after[i],
        0 <= node < before.len(),
    ensures
        find_from(before, node, text, at) == find_from(after, node, text, at),
    decreases node,
{
    let children = before[node].children@;
    let place = child_place(children, char_at(text, at), 0);
    if place < children.len() && 0 <= children[place].1 < node {
        lemma_find_stable(before, after, children[place].1 as int, text, at + 1);
    }
}

/// The members that go on from the path with the character `c`.
fn members_with(keys: &Vec<Vec<char>>, members: &Vec<usize>, depth: usize, c: char) -> (sub: Vec<
    usize,
>)
    requires
        forall|k: int| 0 <= k < members@.len() ==> (#[trigger] members@[k]) < keys@.len(),
    ensures
        forall|k: int|
            0 <= k < sub@.len() ==> goes_on(keys@, #[trigger] sub@[k] as int, depth as int, c),
        forall|k: int| 0 <= k < sub@.len() ==> members@.contains(#[trigger] sub@[k]),
        forall|i: int|
            0 <= i < members@.len() && goes_on(keys@, #[trigger] members@[i] as int, depth as int, c)
                ==> sub@.contains(members@[i]),
{
    let mut sub: Vec<usize> = Vec::new();
    let mut i: usize = 0;
    while i < members.len()
        invariant
            i <= members@.len(),
            forall|k: int| 0 <= k < members@.len() ==> (#[trigger] members@[k]) < keys@.len(),
            forall|k: int|
                0 <= k < sub@.len() ==> goes_on(keys@, #[trigger] sub@[k] as int, depth as int, c),
            forall|k: int| 0 <= k < sub@.len() ==> members@.contains(#[trigger] sub@[k]),
            forall|j: int|
                0 <= j < i && goes_on(keys@, #[trigger] members@[j] as int, depth as int, c)
                    ==> sub@.contains(members@[j]),
        decreases members@.len() - i,
    {
        let m = members[i];
        if keys[m].len() > depth && keys[m][depth] == c {
            let ghost old_sub = sub@;
            sub.push(m);
            proof {
                assert(sub@[old_sub.len() as int] == m);
                assert forall|j: int|
                    0 <= j < i + 1 && goes_on(
                        keys@,
                        #[trigger] members@[j] as int,
                        depth as int,
                        c,
                    ) implies sub@.contains(members@[j]) by {
                    if j < i {
                        let k = choose|k: int| 0 <= k < old_sub.len() && old_sub[k] == members@[j];
                        assert(sub@[k] == members@[j]);
                    } else {
                        assert(sub@[old_sub.len() as int] == members@[j]);
                    }
                }
                assert forall|k: int| 0 <= k < sub@.len() implies members@.contains(
                    #[trigger] sub@[k],
                ) by {
                    if k < old_sub.len() {
                        assert(sub@[k] == old_sub[k]);
                    } else {
                        assert(members@[i as int] == sub@[k]);
                    }
                }
            }
        }
        i = i + 1;
    }
    sub
}

/// Whether `text` has the path `path` for its first characters.
pub open spec fn agrees(text: Seq<char>, path: Seq<char>) -> bool {
    forall|i: int| 0 <= i < path.len() ==> path[i] == char_at(text, i)
}

/// Whether `entry` is the place of the longest key that `text` starts with, or the number
/// of keys if it starts with none.
pub open spec fn is_longest(keys: Seq<Vec<char>>, text: Seq<char>, entry: int) -> bool {
    if entry == keys.len() {
        forall|j: int| 0 <= j < keys.len() ==> !starts_with(text, (#[trigger] keys[j])@)
    } else {
        &&& 0 <= entry < keys.len()
        &&& starts_with(text, keys[entry]@)
        &&& forall|j: int|
            0 <= j < keys.len() && starts_with(text, (#[trigger] keys[j])@) ==> keys[j]@.len()
                <= keys[entry]@.len()
    }
}

/// Whether every child of the first `count` nodes comes before its parent, and every
/// node names an entry or the place after the last one.
pub open spec fn nodes_ok(nodes: Seq<CharmapNode>, entries: int) -> bool {
    &&& forall|i: int| 0 <= i < nodes.len() ==> (#[trigger] nodes[i]).entry <= entries
    &&& forall|i: int, k: int|
        0 <= i < nodes.len() && 0 <= k < nodes[i].children@.len() ==> (
        #[trigger] nodes[i].children@[k]).1 < i
}

/// A text that has a path for its first characters starts with a key that is no longer
/// than the path just if the key is a part of the path from its start.
proof fn lemma_short_key(text: Seq<char>, path: Seq<char>, key: Seq<char>)
    requires
        agrees(text, path),
        key.len() <= path.len(),
    ensures
        starts_with(text, key) <==> key == path.subrange(0, key.len() as int),
{
    let part = path.subrange(0, key.len() as int);
    if starts_with(text, key) {
        assert(key =~= part);
    }
    if key == part {
        assert forall|i: int| 0 <= i < key.len() implies key[i] == char_at(text, i) by {
            assert(key[i] == part[i]);
        }
    }
}

/// A text that has a path for its first characters and starts with a key that is longer
/// than the path has the key's next character after the path, and the key has the path
/// for its first characters.
proof fn lemma_long_key(text: Seq<char>, path: Seq<char>, key: Seq<char>)
    requires
        agrees(text, path),
        key.len() > path.len(),
        starts_with(text, key),
    ensures
        key.subrange(0, path.len() as int) == path,
        key[path.len() as int] == char_at(text, path.len() as int),
{
    assert(key.subrange(0, path.len() as int) =~= path);
}

/// The first child for a character is a child for that character, and where there is
/// none, no child is for it.
proof fn lemma_child_place(children: Seq<(char, usize)>, c: char, from: int)
    requires
        0 <= from,
    ensures
        child_place(children, c, from) < children.len() ==> children[child_place(
            children,
            c,
            from,
        )].0 == c && from <= child_place(children, c, from),
        child_place(children, c, from) >= children.len() ==> forall|k: int|
            from <= k < children.len() ==> (#[trigger] children[k]).0 != c,
    decreases children.len() - from,
{
    if from < children.len() && children[from].0 != c {
        lemma_child_place(children, c, from + 1);
    }
}

/// What is known of the children of a node while it is built: each leads the texts that
/// go on with its character to the longest key that they start with.
pub open spec fn children_ok(
    nodes: Seq<CharmapNode>,
    keys: Seq<Vec<char>>,
    children: Seq<(char, usize)>,
    path: Seq<char>,
) -> bool {
    &&& forall|k: int| 0 <= k < children.len() ==> (#[trigger] children[k]).1 < nodes.len()
    &&& forall|k: int, text: Seq<char>|
        0 <= k < children.len() && agrees(text, path.push(children[k].0)) ==> is_longest(
            keys,
            text,
            #[trigger] find_from(nodes, children[k].1 as int, text, path.len() as int + 1),
        )
}

/// Builds the node for the keys `members`, which are those that have the path of `depth`
/// characters for their first ones, after the nodes for the keys that go on from there.
fn build_node(
    nodes: &mut Vec<CharmapNode>,
    keys: &Vec<Vec<char>>,
    members: &Vec<usize>,
    depth: usize,
    inherited: usize,
    limit: usize,
    Ghost(path): Ghost<Seq<char>>,
) -> (node: usize)
    requires
        keys@.len() < usize::MAX,
        forall|i: int, j: int| 0 <= i < j < keys@.len() ==> keys@[i]@ != keys@[j]@,
        forall|j: int| 0 <= j < keys@.len() ==> (#[trigger] keys@[j])@.len() <= limit,
        path.len() == depth,
        members_of(keys@, members@, path),
        best_on_path(keys@, path, depth as int, inherited as int),
        nodes_ok(old(nodes)@, keys@.len() as int),
    ensures
        final(nodes)@.len() == node + 1,
        old(nodes)@.len() <= node,
        forall|i: int| 0 <= i < old(nodes)@.len() ==> old(nodes)@[i] == final(nodes)@[i],
        nodes_ok(final(nodes)@, keys@.len() as int),
        forall|text: Seq<char>|
            agrees(text, path) ==> is_longest(
                keys@,
                text,
                #[trigger] find_from(final(nodes)@, node as int, text, depth as int),
            ),
    decreases limit - depth,
{
    let ghost start = nodes@;
    let mut entry: usize = inherited;
    let mut i: usize = 0;
    while i < members.len()
        invariant
            i <= members@.len(),
            members_of(keys@, members@, path),
            path.len() == depth,
            forall|a: int, b: int| 0 <= a < b < keys@.len() ==> keys@[a]@ != keys@[b]@,
            best_on_path(keys@, path, depth as int, inherited as int),
            entry == inherited || (entry < keys@.len() && keys@[entry as int]@ == path),
            entry == inherited ==> forall|j: int|
                0 <= j < i ==> keys@[(#[trigger] members@[j]) as int]@.len() != depth,
        decreases members@.len() - i,
    {
        let m = members[i];
        proof {
            assert(on_path(keys@, members@[i as int] as int, path));
        }
        if keys[m].len() == depth {
            entry = m;
            proof {
                assert(keys@[m as int]@ =~= keys@[m as int]@.subrange(0, depth as int));
            }
        }
        i = i + 1;
    }
    proof {
        // The node's entry is the longest key on the path that is no longer than the path.
        assert(best_on_path(keys@, path, depth + 1, entry as int)) by {
            if entry < keys@.len() && keys@[entry as int]@ == path {
                assert(path.subrange(0, depth as int) =~= path);
                assert forall|j: int|
                    0 <= j < keys@.len() && (#[trigger] keys@[j])@.len() < depth + 1
                        && keys@[j]@.len() <= path.len() && keys@[j]@ == path.subrange(
                        0,
                        keys@[j]@.len() as int,
                    ) implies keys@[j]@.len() <= keys@[entry as int]@.len() by {}
            } else {
                // No member has the length of the path, so no key is the path.
                assert forall|j: int| 0 <= j < keys@.len() implies (#[trigger] keys@[j])@.len()
                    != depth || keys@[j]@ != path.subrange(0, depth as int) by {
                    if keys@[j]@.len() == depth && keys@[j]@ == path.subrange(0, depth as int) {
                        assert(path.subrange(0, depth as int) =~= path);
                        assert(keys@[j]@.subrange(0, depth as int) =~= keys@[j]@);
                        assert(on_path(keys@, j, path));
                        assert(members@.contains(j as usize));
                        let k = choose|k: int| 0 <= k < members@.len() && members@[k] == j as usize;
                        assert(keys@[members@[k] as int]@.len() != depth);
                    }
                }
            }
        }
    }
    let mut children: Vec<(char, usize)> = Vec::new();
    let mut i: usize = 0;
    while i < members.len()
        invariant
            i <= members@.len(),
            keys@.len() < usize::MAX,
            forall|a: int, b: int| 0 <= a < b < keys@.len() ==> keys@[a]@ != keys@[b]@,
            forall|j: int| 0 <= j < keys@.len() ==> (#[trigger] keys@[j])@.len() <= limit,
            path.len() == depth,
            members_of(keys@, members@, path),
            best_on_path(keys@, path, depth + 1, entry as int),
            entry <= keys@.len(),
            start.len() <= nodes@.len(),
            forall|k: int| 0 <= k < start.len() ==> start[k] == nodes@[k],
            nodes_ok(nodes@, keys@.len() as int),
            children_ok(nodes@, keys@, children@, path),
            forall|j: int|
                0 <= j < i && keys@[(#[trigger] members@[j]) as int]@.len() > depth ==> exists|
                    k: int,
                |
                    0 <= k < children@.len() && (#[trigger] children@[k]).0
                        == keys@[members@[j] as int]@[depth as int],
        decreases members@.len() - i,
    {
        let m = members[i];
        proof {
            assert(on_path(keys@, members@[i as int] as int, path));
        }
        if keys[m].len() > depth {
            let c = keys[m][depth];
            let place = place_of(&children, c);
            proof {
                lemma_child_place(children@, c, 0);
            }
            if place == children.len() {
                let sub = members_with(keys, members, depth, c);
                let ghost longer = path.push(c);
                proof {
                    assert forall|k: int| 0 <= k < sub@.len() implies on_path(
                        keys@,
                        #[trigger] sub@[k] as int,
                        longer,
                    ) by {
                        let s = sub@[k];
                        assert(goes_on(keys@, s as int, depth as int, c));
                        assert(members@.contains(s));
                        let at = choose|at: int| 0 <= at < members@.len() && members@[at] == s;
                        assert(on_path(keys@, members@[at] as int, path));
                        assert(keys@[s as int]@.subrange(0, depth + 1) =~= longer);
                    }
                    assert forall|x: int| #[trigger] on_path(keys@, x, longer) implies sub@.contains(
                        x as usize,
                    ) by {
                        assert(keys@[x]@.subrange(0, depth as int) =~= longer.subrange(
                            0,
                            depth as int,
                        ));
                        assert(longer.subrange(0, depth as int) =~= path);
                        assert(keys@[x]@.subrange(0, depth + 1)[depth as int] == c);
                        assert(on_path(keys@, x, path));
                        assert(members@.contains(x as usize));
                        let at = choose|at: int|
                            0 <= at < members@.len() && members@[at] == x as usize;
                        assert(goes_on(keys@, members@[at] as int, depth as int, c));
                    }
                    assert(best_on_path(keys@, longer, depth + 1, entry as int)) by {
                        assert forall|j: int| 0 <= j < keys@.len() && keys@[j]@.len() <= depth implies
                            longer.subrange(0, (#[trigger] keys@[j])@.len() as int)
                            == path.subrange(0, keys@[j]@.len() as int) by {
                            assert(longer.subrange(0, keys@[j]@.len() as int) =~= path.subrange(
                                0,
                                keys@[j]@.len() as int,
                            ));
                        }
                    }
                }
                let ghost before = nodes@;
                let ghost earlier = children@;
                let child = build_node(nodes, keys, &sub, depth + 1, entry, limit, Ghost(longer));
                children.push((c, child));
                proof {
                    assert forall|k: int| 0 <= k < children@.len() implies (
                    #[trigger] children@[k]).1 < nodes@.len() by {
                        if k < earlier.len() {
                            assert(children@[k] == earlier[k]);
                        }
                    }
                    assert forall|k: int, text: Seq<char>|
                        0 <= k < children@.len() && agrees(
                            text,
                            path.push(children@[k].0),
                        ) implies is_longest(
                        keys@,
                        text,
                        #[trigger] find_from(nodes@, children@[k].1 as int, text, path.len() as int + 1),
                    ) by {
                        if k < earlier.len() {
                            assert(children@[k] == earlier[k]);
                            assert(earlier[k].1 < before.len());
                            assert(is_longest(
                                keys@,
                                text,
                                find_from(before, earlier[k].1 as int, text, path.len() as int + 1),
                            ));
                            lemma_find_stable(
                                before,
                                nodes@,
                                earlier[k].1 as int,
                                text,
                                path.len() as int + 1,
                            );
                        } else {
                            assert(children@[k] == (c, child));
                        }
                    }
                    assert forall|j: int|
                        0 <= j < i + 1 && keys@[(#[trigger] members@[j]) as int]@.len()
                            > depth implies exists|k: int|
                        0 <= k < children@.len() && (#[trigger] children@[k]).0
                            == keys@[members@[j] as int]@[depth as int] by {
                        if j < i {
                            let k = choose|k: int|
                                0 <= k < earlier.len() && (#[trigger] earlier[k]).0
                                    == keys@[members@[j] as int]@[depth as int];
                            assert(children@[k] == earlier[k]);
                        } else {
                            assert(children@[earlier.len() as int].0 == c);
                        }
                    }
                }
            } else {
                proof {
                    assert(children@[place as int].0 == c);
                }
            }
        }
        i = i + 1;
    }
    let ghost before = nodes@;
    let ghost kids = children@;
    nodes.push(CharmapNode { entry, children });
    let node = nodes.len() - 1;
    proof {
        assert(nodes@[node as int].children@ == kids);
        assert forall|k: int| 0 <= k < kids.len() implies (#[trigger] kids[k]).1 < node by {}
        assert forall|text: Seq<char>| agrees(text, path) implies is_longest(
            keys@,
            text,
            #[trigger] find_from(nodes@, node as int, text, depth as int),
        ) by {
            let c = char_at(text, depth as int);
            let place = child_place(kids, c, 0);
            lemma_child_place(kids, c, 0);
            if place < kids.len() {
                let child = kids[place].1;
                assert(child < node);
                assert(agrees(text, path.push(kids[place].0))) by {
                    let longer = path.push(kids[place].0);
                    assert forall|x: int| 0 <= x < longer.len() implies longer[x] == char_at(
                        text,
                        x,
                    ) by {
                        if x < depth {
                            assert(longer[x] == path[x]);
                        }
                    }
                }
                assert(is_longest(
                    keys@,
                    text,
                    find_from(before, child as int, text, path.len() as int + 1),
                ));
                lemma_find_stable(before, nodes@, child as int, text, depth + 1);
            } else {
                assert(find_from(nodes@, node as int, text, depth as int) == entry);
                assert forall|j: int|
                    0 <= j < keys@.len() && starts_with(text, (#[trigger] keys@[j])@) implies keys@[j]@.len()
                    <= depth && keys@[j]@ == path.subrange(0, keys@[j]@.len() as int) by {
                    if keys@[j]@.len() > depth {
                        lemma_long_key(text, path, keys@[j]@);
                        assert(on_path(keys@, j, path));
                        assert(members@.contains(j as usize));
                        let at = choose|at: int|
                            0 <= at < members@.len() && members@[at] == j as usize;
                        let k = choose|k: int|
                            0 <= k < kids.len() && (#[trigger] kids[k]).0
                                == keys@[members@[at] as int]@[depth as int];
                        assert(kids[k].0 == c);
                    } else {
                        lemma_short_key(text, path, keys@[j]@);
                    }
                }
                if entry < keys@.len() {
                    lemma_short_key(text, path, keys@[entry as int]@);
                }
            }
        }
        assert(nodes_ok(nodes@, keys@.len() as int)) by {
            assert forall|a: int| 0 <= a < nodes@.len() implies (#[trigger] nodes@[a]).entry
                <= keys@.len() by {
                if a < before.len() {
                    assert(nodes@[a] == before[a]);
                }
            }
            assert forall|a: int, k: int|
                0 <= a < nodes@.len() && 0 <= k < nodes@[a].children@.len() implies (
            #[trigger] nodes@[a].children@[k]).1 < a by {
                if a < before.len() {
                    assert(nodes@[a] == before[a]);
                }
            }
        }
    }
    node
}

/// The trie over `keys`. A text is led to the place of the longest key that it starts
/// with, or to the number of keys if it starts with none.
pub fn build_trie(keys: &Vec<Vec<char>>) -> (trie: Trie)
    requires
        keys@.len() < usize::MAX,
        forall|i: int, j: int| 0 <= i < j < keys@.len() ==> keys@[i]@ != keys@[j]@,
    ensures
        trie.wf(keys@.len() as int + 1),
        forall|text: Seq<char>| is_longest(keys@, text, #[trigger] trie.spec_find(text)),
{
    let mut limit: usize = 0;
    let mut members: Vec<usize> = Vec::new();
    let mut i: usize = 0;
    while i < keys.len()
        invariant
            i <= keys@.len(),
            members@.len() == i,
            forall|k: int| 0 <= k < i ==> members@[k] == k,
            forall|j: int| 0 <= j < i ==> (#[trigger] keys@[j])@.len() <= limit,
        decreases keys@.len() - i,
    {
        if keys[i].len() > limit {
            limit = keys[i].len();
        }
        members.push(i);
        i = i + 1;
    }
    let mut nodes: Vec<CharmapNode> = Vec::new();
    let ghost path = Seq::<char>::empty();
    proof {
        assert forall|k: int| 0 <= k < members@.len() implies on_path(
            keys@,
            #[trigger] members@[k] as int,
            path,
        ) by {
            assert(keys@[k]@.subrange(0, 0) =~= path);
        }
        assert forall|m: int| #[trigger] on_path(keys@, m, path) implies members@.contains(
            m as usize,
        ) by {
            assert(members@[m] == m as usize);
        }
    }
    let root = build_node(&mut nodes, keys, &members, 0, keys.len(), limit, Ghost(path));
    let trie = Trie { nodes };
    proof {
        assert forall|text: Seq<char>| is_longest(keys@, text, #[trigger] trie.spec_find(text)) by {
            assert(agrees(text, path));
            assert(is_longest(keys@, text, find_from(trie.nodes@, root as int, text, 0)));
        }
    }
    trie
}

impl Charmap {
    /// The keys of the entries.
    pub open spec fn keys(&self) -> Seq<Seq<char>> {
        self.entries@.map_values(|entry: CharmapEntry| entry.key@)
    }

    /// The character map of `entries`, of which no two have the same key. A text is led to
    /// the entry of the longest key that it starts with, or past the last entry if it
    /// starts with none.
    pub fn from_iter(entries: Vec<CharmapEntry>) -> (charmap: Self)
        requires
            entries@.len() < usize::MAX,
            forall|i: int, j: int|
                0 <= i < j < entries@.len() ==> entries@[i].key@ != entries@[j].key@,
        ensures
            charmap.entries == entries,
            charmap.trie.wf(entries@.len() as int + 1),
            forall|text: Seq<char>|
                is_longest_match(charmap.keys(), text, #[trigger] charmap.trie.spec_find(text)),
    {
        let mut keys: Vec<Vec<char>> = Vec::new();
        let mut i: usize = 0;
        while i < entries.len()
            invariant
                i <= entries@.len(),
                keys@.len() == i,
                forall|k: int| 0 <= k < i ==> (#[trigger] keys@[k])@ == entries@[k].key@,
            decreases entries@.len() - i,
        {
            keys.push(chars_of(entries[i].key.as_str()));
            i = i + 1;
        }
        let trie = build_trie(&keys);
        let charmap = Charmap { entries, trie };
        proof {
            let names = charmap.keys();
            assert forall|text: Seq<char>|
                is_longest_match(names, text, #[trigger] charmap.trie.spec_find(text)) by {
                let found = charmap.trie.spec_find(text);
                assert(is_longest(keys@, text, found));
                assert forall|j: int| 0 <= j < names.len() implies #[trigger] names[j]
                    == keys@[j]@ by {}
                if found == names.len() {
                    assert forall|j: int| 0 <= j < names.len() implies !starts_with(
                        text,
                        #[trigger] names[j],
                    ) by {
                        assert(!starts_with(text, keys@[j]@));
                    }
                } else {
                    assert(names[found] == keys@[found]@);
                    assert forall|j: int|
                        0 <= j < names.len() && starts_with(text, #[trigger] names[j]) implies names[j].len()
                        <= names[found].len() by {
                        assert(starts_with(text, keys@[j]@));
                    }
                }
            }
        }
        charmap
    }
}

} // verus!
