//! The character sources of a font: the strings that are shaped for it.

use vstd::arithmetic::div_mod::lemma_fundamental_div_mod_converse;
use vstd::prelude::*;
use vstd::string::StringExecFns;

verus! {

/// An end of a range of characters.
#[derive(Clone, Copy, Debug, PartialEq, Eq, Structural)]
pub enum CharBound {
    Included(char),
    Excluded(char),
    Unbounded,
}

/// A source of the strings that a font is compiled for.
#[derive(Debug)]
pub enum CharSource {
    /// The strings themselves.
    Strings(Vec<String>),
    /// Every character of a range.
    Range(CharBound, CharBound),
    /// Every character of a range, and what it takes to find the advance widths between
    /// the characters and the strings.
    Kern(CharBound, CharBound, Vec<String>),
}

/// Whether `v` is the number of a character.
pub open spec fn is_char(v: u32) -> bool {
    v <= 0xD7FF || 0xE000 <= v <= 0x10FFFF
}

/// The characters of the numbers from `lo` up to, not including, `hi`, in their order.
pub open spec fn chars_between(lo: u32, hi: u32) -> Seq<char>
    decreases hi,
{
    if hi <= lo {
        Seq::empty()
    } else if is_char((hi - 1) as u32) {
        chars_between(lo, (hi - 1) as u32).push(((hi - 1) as u32) as char)
    } else {
        chars_between(lo, (hi - 1) as u32)
    }
}

/// The number of the first character of a range that starts at `start`.
pub open spec fn first_of(start: CharBound) -> u32 {
    match start {
        CharBound::Included(c) => c as u32,
        CharBound::Excluded(c) => (c as u32 + 1) as u32,
        CharBound::Unbounded => 0,
    }
}

/// The number after the last character of a range that ends at `end`.
pub open spec fn after_last_of(end: CharBound) -> u32 {
    match end {
        CharBound::Included(c) => (c as u32 + 1) as u32,
        CharBound::Excluded(c) => c as u32,
        CharBound::Unbounded => 0x110000,
    }
}

/// The characters of the range from `start` to `end`.
pub open spec fn range_chars(start: CharBound, end: CharBound) -> Seq<char> {
    chars_between(first_of(start), after_last_of(end))
}

/// The strings of a sequence of strings as sequences of characters.
pub open spec fn texts(strings: Seq<String>) -> Seq<Seq<char>> {
    strings.map_values(|s: String| s@)
}

/// Every character as a string of its own.
pub open spec fn singles(chars: Seq<char>) -> Seq<Seq<char>> {
    Seq::new(chars.len(), |i: int| seq![chars[i]])
}

/// Every pair of two of the characters, the pairs of a first character one after the
/// other.
pub open spec fn pairs(chars: Seq<char>) -> Seq<Seq<char>> {
    Seq::new(
        chars.len() * chars.len(),
        |i: int| seq![chars[i / chars.len() as int], chars[i % chars.len() as int]],
    )
}

/// Every one of `heads` followed by every one of `tails`, those of one head one after
/// the other.
pub open spec fn products(heads: Seq<Seq<char>>, tails: Seq<Seq<char>>) -> Seq<Seq<char>> {
    Seq::new(
        heads.len() * tails.len(),
        |i: int| heads[i / tails.len() as int] + tails[i % tails.len() as int],
    )
}

/// Every one of `heads` with every one of `tails` before it, those of one head one after
/// the other.
pub open spec fn products_reversed(heads: Seq<Seq<char>>, tails: Seq<Seq<char>>) -> Seq<
    Seq<char>,
> {
    Seq::new(
        heads.len() * tails.len(),
        |i: int| tails[i % tails.len() as int] + heads[i / tails.len() as int],
    )
}

/// Every string followed by every string, then every character followed by every string,
/// then every string followed by every character.
pub open spec fn affixed(chars: Seq<char>, strings: Seq<Seq<char>>) -> Seq<Seq<char>> {
    products(strings, strings) + products(singles(chars), strings) + products_reversed(
        singles(chars),
        strings,
    )
}

/// Calls `char::from_u32`, which gives the character of a number, and nothing for a number
/// that is none of a character: a surrogate, or a number above 0x10FFFF.
#[verifier::external_body]
fn char_from_u32(v: u32) -> (c: Option<char>)
    ensures
        c is Some <==> is_char(v),
        c matches Some(c) ==> c as u32 == v,
{
    char::from_u32(v)
}

/// Calls `String::from_iter` on the characters of a slice, which gives the string of
/// these characters in their order.
#[verifier::external_body]
fn string_from_chars(chars: &[char]) -> (s: String)
    ensures
        s@ == chars@,
{
    String::from_iter(chars.iter())
}

/// The characters of the numbers from `lo` up to, not including, `hi`.
pub fn chars_in(lo: u32, hi: u32) -> (chars: Vec<char>)
    ensures
        chars@ == chars_between(lo, hi),
{
    let mut chars: Vec<char> = Vec::new();
    if hi <= lo {
        return chars;
    }
    let mut v: u32 = lo;
    while v < hi
        invariant
            lo <= v <= hi,
            chars@ == chars_between(lo, v),
        decreases hi - v,
    {
        match char_from_u32(v) {
            Some(c) => {
                proof {
                    vstd::utf8::char_u32_cast(c, v);
                }
                chars.push(c);
            },
            None => {},
        }
        v = v + 1;
    }
    chars
}

fn first_number(start: CharBound) -> (v: u32)
    ensures
        v == first_of(start),
{
    match start {
        CharBound::Included(c) => c as u32,
        CharBound::Excluded(c) => c as u32 + 1,
        CharBound::Unbounded => 0,
    }
}

fn after_last_number(end: CharBound) -> (v: u32)
    ensures
        v == after_last_of(end),
{
    match end {
        CharBound::Included(c) => c as u32 + 1,
        CharBound::Excluded(c) => c as u32,
        CharBound::Unbounded => 0x110000,
    }
}

/// Every character of the range from `start` to `end` as a string of its own.
pub fn single_char_strings(start: CharBound, end: CharBound) -> (strings: Vec<String>)
    requires
        !(start is Excluded),
    ensures
        texts(strings@) == singles(range_chars(start, end)),
{
    let chars = chars_in(first_number(start), after_last_number(end));
    let mut strings: Vec<String> = Vec::new();
    let mut i: usize = 0;
    while i < chars.len()
        invariant
            i <= chars@.len(),
            strings@.len() == i,
            forall|k: int| 0 <= k < i ==> (#[trigger] strings@[k])@ == seq![chars@[k]],
        decreases chars@.len() - i,
    {
        let mut one: Vec<char> = Vec::new();
        one.push(chars[i]);
        proof {
            assert(one@ =~= seq![chars@[i as int]]);
        }
        strings.push(string_from_chars(one.as_slice()));
        i = i + 1;
    }
    proof {
        assert(texts(strings@) =~= singles(chars@));
    }
    strings
}

/// Every pair of two characters of the range from `start` to `end` as a string.
pub fn strings_in_cartesian_square(start: CharBound, end: CharBound) -> (strings: Vec<String>)
    requires
        !(start is Excluded),
    ensures
        texts(strings@) == pairs(range_chars(start, end)),
{
    let chars = chars_in(first_number(start), after_last_number(end));
    let ghost n = chars@.len() as int;
    let ghost target = pairs(chars@);
    let mut strings: Vec<String> = Vec::new();
    let mut a: usize = 0;
    while a < chars.len()
        invariant
            n == chars@.len(),
            target == pairs(chars@),
            a <= n,
            strings@.len() == a * n,
            forall|k: int| 0 <= k < strings@.len() ==> (#[trigger] strings@[k])@ == target[k],
        decreases chars@.len() - a,
    {
        let mut b: usize = 0;
        while b < chars.len()
            invariant
                n == chars@.len(),
                target == pairs(chars@),
                a < n,
                b <= n,
                strings@.len() == a * n + b,
                forall|k: int| 0 <= k < strings@.len() ==> (#[trigger] strings@[k])@ == target[k],
            decreases chars@.len() - b,
        {
            let mut two: Vec<char> = Vec::new();
            two.push(chars[a]);
            two.push(chars[b]);
            proof {
                let i = a * n + b;
                lemma_fundamental_div_mod_converse(i, n, a as int, b as int);
                assert(i < n * n) by (nonlinear_arith)
                    requires
                        i == a * n + b,
                        0 <= a < n,
                        0 <= b < n,
                ;
                assert(two@ =~= seq![chars@[a as int], chars@[b as int]]);
                assert(target[i] == two@);
            }
            strings.push(string_from_chars(two.as_slice()));
            b = b + 1;
        }
        proof {
            assert((a + 1) * n == a * n + n) by (nonlinear_arith);
        }
        a = a + 1;
    }
    proof {
        assert(texts(strings@) =~= target);
    }
    strings
}

/// Every one of `heads` joined with every one of `tails`: the tail after the head, or
/// before it if `reversed`.
fn join_all(heads: &Vec<String>, tails: &Vec<String>, reversed: bool, out: &mut Vec<String>)
    ensures
        texts(final(out)@) == texts(old(out)@) + (if reversed {
            products_reversed(texts(heads@), texts(tails@))
        } else {
            products(texts(heads@), texts(tails@))
        }),
{
    let ghost before = texts(out@);
    let ghost h = texts(heads@);
    let ghost t = texts(tails@);
    let ghost m = tails@.len() as int;
    let ghost target = if reversed {
        products_reversed(h, t)
    } else {
        products(h, t)
    };
    let ghost start = out@.len() as int;
    let mut a: usize = 0;
    while a < heads.len()
        invariant
            h == texts(heads@),
            t == texts(tails@),
            m == tails@.len(),
            target == (if reversed {
                products_reversed(h, t)
            } else {
                products(h, t)
            }),
            a <= heads@.len(),
            out@.len() == start + a * m,
            before.len() == start,
            forall|k: int| 0 <= k < start ==> (#[trigger] out@[k])@ == before[k],
            forall|k: int| 0 <= k < a * m ==> (#[trigger] out@[start + k])@ == target[k],
        decreases heads@.len() - a,
    {
        let mut b: usize = 0;
        while b < tails.len()
            invariant
                h == texts(heads@),
                t == texts(tails@),
                m == tails@.len(),
                target == (if reversed {
                    products_reversed(h, t)
                } else {
                    products(h, t)
                }),
                a < heads@.len(),
                b <= m,
                out@.len() == start + a * m + b,
                before.len() == start,
                forall|k: int| 0 <= k < start ==> (#[trigger] out@[k])@ == before[k],
                forall|k: int| 0 <= k < a * m + b ==> (#[trigger] out@[start + k])@ == target[k],
            decreases tails@.len() - b,
        {
            let joined = if reversed {
                String::from_str(tails[b].as_str()).concat(heads[a].as_str())
            } else {
                String::from_str(heads[a].as_str()).concat(tails[b].as_str())
            };
            proof {
                let i = a * m + b;
                lemma_fundamental_div_mod_converse(i, m, a as int, b as int);
                assert(i < heads@.len() * m) by (nonlinear_arith)
                    requires
                        i == a * m + b,
                        0 <= a < heads@.len(),
                        0 <= b < m,
                ;
                assert(h[a as int] == heads@[a as int]@);
                assert(t[b as int] == tails@[b as int]@);
                assert(target[i] == joined@);
            }
            let ghost earlier = out@;
            out.push(joined);
            proof {
                assert forall|k: int| 0 <= k < a * m + b + 1 implies (#[trigger] out@[start + k])@
                    == target[k] by {
                    if k < a * m + b {
                        assert(out@[start + k] == earlier[start + k]);
                    }
                }
                assert forall|k: int| 0 <= k < start implies (#[trigger] out@[k])@ == before[k] by {
                    assert(out@[k] == earlier[k]);
                }
            }
            b = b + 1;
        }
        proof {
            assert((a + 1) * m == a * m + m) by (nonlinear_arith);
        }
        a = a + 1;
    }
    proof {
        assert(a * m == heads@.len() * m);
        assert(target.len() == heads@.len() * m);
        let whole = before + target;
        assert(texts(out@).len() == whole.len());
        assert forall|k: int| 0 <= k < whole.len() implies texts(out@)[k] == whole[k] by {
            if k >= start {
                assert(out@[start + (k - start)]@ == target[k - start]);
            }
        }
        assert(texts(out@) =~= whole);
    }
}

/// Every string followed by every string, every character of the range from `start` to
/// `end` followed by every string, and every string followed by every character.
pub fn single_char_affixed_strings(start: CharBound, end: CharBound, strings: &Vec<String>) -> (
    affixes: Vec<String>
)
    requires
        !(start is Excluded),
    ensures
        texts(affixes@) == affixed(range_chars(start, end), texts(strings@)),
{
    let chars = single_char_strings(start, end);
    let mut affixes: Vec<String> = Vec::new();
    proof {
        assert(texts(affixes@) =~= Seq::<Seq<char>>::empty());
    }
    join_all(strings, strings, false, &mut affixes);
    join_all(&chars, strings, false, &mut affixes);
    join_all(&chars, strings, true, &mut affixes);
    proof {
        let s = texts(strings@);
        let c = singles(range_chars(start, end));
        assert(texts(affixes@) =~= products(s, s) + products(c, s) + products_reversed(c, s));
    }
    affixes
}

/// A copy of strings.
pub fn copy_strings(strings: &Vec<String>) -> (copy: Vec<String>)
    ensures
        texts(copy@) == texts(strings@),
{
    let mut copy: Vec<String> = Vec::new();
    let mut i: usize = 0;
    while i < strings.len()
        invariant
            i <= strings@.len(),
            copy@.len() == i,
            forall|k: int| 0 <= k < i ==> (#[trigger] copy@[k])@ == strings@[k]@,
        decreases strings@.len() - i,
    {
        copy.push(String::from_str(strings[i].as_str()));
        i = i + 1;
    }
    proof {
        assert(texts(copy@) =~= texts(strings@));
    }
    copy
}

/// The end of the range in which every pair of characters is shaped: the end of the
/// source's range if that lies before U+0250, and U+0250 otherwise.
pub open spec fn kerning_end(end: CharBound) -> CharBound {
    match end {
        CharBound::Included(e) => if (e as u32) < 0x250 {
            end
        } else {
            CharBound::Excluded('\u{250}')
        },
        CharBound::Excluded(e) => if (e as u32) < 0x251 {
            end
        } else {
            CharBound::Excluded('\u{250}')
        },
        CharBound::Unbounded => CharBound::Excluded('\u{250}'),
    }
}

impl CharSource {
    /// Whether the source is one whose strings can be listed: a range starts with a
    /// character or with the first one of all.
    pub open spec fn wf(&self) -> bool {
        match self {
            CharSource::Strings(_) => true,
            CharSource::Range(start, _) => !(start is Excluded),
            CharSource::Kern(start, _, _) => !(start is Excluded),
        }
    }

    /// The groups of strings of the source.
    ///
    /// Strings give themselves, and a range gives its characters. A kerning source gives
    /// the characters of its range and its strings for a typeface of fixed pitch, and for
    /// a range that starts after U+024F. For every other one it gives the characters of
    /// its range, the pairs of characters of the range up to [`kerning_end`], and the
    /// strings joined with each other and with these characters.
    pub open spec fn spec_strings(&self, is_code: bool) -> Seq<Seq<Seq<char>>> {
        match self {
            CharSource::Strings(strings) => seq![texts(strings@)],
            CharSource::Range(start, end) => seq![singles(range_chars(*start, *end))],
            CharSource::Kern(start, end, strings) => if is_code || first_of(*start) > 0x24F {
                seq![singles(range_chars(*start, *end)), texts(strings@)]
            } else {
                seq![
                    singles(range_chars(*start, *end)),
                    pairs(range_chars(*start, kerning_end(*end))),
                    affixed(range_chars(*start, kerning_end(*end)), texts(strings@)),
                ]
            },
        }
    }

    pub fn strings(&self, is_code: bool) -> (groups: Vec<Vec<String>>)
        requires
            self.wf(),
        ensures
            groups@.len() == self.spec_strings(is_code).len(),
            forall|g: int|
                0 <= g < groups@.len() ==> texts((#[trigger] groups@[g])@) == self.spec_strings(
                    is_code,
                )[g],
    {
        let mut groups: Vec<Vec<String>> = Vec::new();
        match self {
            CharSource::Strings(strings) => {
                groups.push(copy_strings(strings));
            },
            CharSource::Range(start, end) => {
                groups.push(single_char_strings(*start, *end));
            },
            CharSource::Kern(start, end, strings) => {
                groups.push(single_char_strings(*start, *end));
                if is_code || first_number(*start) > 0x24F {
                    groups.push(copy_strings(strings));
                } else {
                    let limit = match *end {
                        CharBound::Included(e) => if (e as u32) < 0x250 {
                            *end
                        } else {
                            CharBound::Excluded('\u{250}')
                        },
                        CharBound::Excluded(e) => if (e as u32) < 0x251 {
                            *end
                        } else {
                            CharBound::Excluded('\u{250}')
                        },
                        CharBound::Unbounded => CharBound::Excluded('\u{250}'),
                    };
                    groups.push(strings_in_cartesian_square(*start, limit));
                    groups.push(single_char_affixed_strings(*start, limit, strings));
                }
            },
        }
        groups
    }
}

} // verus!
