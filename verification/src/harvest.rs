//! What the harvest of string literals asks of an attribute and of a place in the source
//! text: whether the attribute is one of the harvest's own, and which bytes the place
//! covers.

use crate::text::{bytes_eq, str_eq};
use core::ops::Range;
use vstd::prelude::*;
use vstd::slice::slice_subrange;
use vstd::string::StringSliceAdditionalSpecFns;

verus! {

/// The path of an attribute, and whether the attribute is nothing but its path.
#[derive(Debug)]
pub struct AttrPath {
    pub segments: Vec<String>,
    pub is_path_only: bool,
}

/// The debug representation of a place in the source text.
#[derive(Debug)]
pub struct SpanRepr(pub String);

/// Telling the attributes of the harvest from others.
pub trait AttrExt {
    /// Whether the attribute is the path `strings::name` and nothing else.
    spec fn spec_is_attr(&self, name: Seq<char>) -> bool;

    /// Whether the attribute asks for the harvested strings.
    fn is_emit_attr(&self) -> (r: bool)
        ensures
            r == self.spec_is_attr("emit"@),
    ;

    /// Whether the attribute keeps its item out of the harvest.
    fn is_skip_attr(&self) -> (r: bool)
        ensures
            r == self.spec_is_attr("skip"@),
    ;
}

impl AttrPath {
    fn is_attr(&self, name: &str) -> (r: bool)
        ensures
            r == self.spec_is_attr(name@),
    {
        self.is_path_only && self.segments.len() == 2 && str_eq(
            self.segments[0].as_str(),
            "strings",
        ) && str_eq(self.segments[1].as_str(), name)
    }
}

impl AttrExt for AttrPath {
    open spec fn spec_is_attr(&self, name: Seq<char>) -> bool {
        &&& self.is_path_only
        &&& self.segments@.len() == 2
        &&& self.segments@[0]@ == "strings"@
        &&& self.segments@[1]@ == name
    }

    fn is_emit_attr(&self) -> (r: bool) {
        self.is_attr("emit")
    }

    fn is_skip_attr(&self) -> (r: bool) {
        self.is_attr("skip")
    }
}

/// Whether `b` is an ASCII digit.
pub open spec fn is_digit(b: u8) -> bool {
    48 <= b <= 57
}

/// Whether `b` is an ASCII letter, an ASCII digit or an underscore.
pub open spec fn is_word(b: u8) -> bool {
    is_digit(b) || 65 <= b <= 90 || 97 <= b <= 122 || b == 95
}

/// The place after the digits that start at place `i`.
pub open spec fn digits_end(s: Seq<u8>, i: int) -> int
    decreases s.len() - i,
{
    if 0 <= i < s.len() && is_digit(s[i]) {
        digits_end(s, i + 1)
    } else {
        i
    }
}

/// The number that the digits from place `i` up to place `j` are in base ten.
pub open spec fn number(s: Seq<u8>, i: int, j: int) -> int
    decreases j - i,
{
    if j <= i || j > s.len() {
        0
    } else {
        number(s, i, j - 1) * 10 + (s[j - 1] - 48)
    }
}

/// Whether the bytes `literal` stand at place `i`.
pub open spec fn has_at(s: Seq<u8>, i: int, literal: Seq<u8>) -> bool {
    0 <= i && i + literal.len() <= s.len() && s.subrange(i, i + literal.len()) == literal
}

/// The bytes of ` bytes(`.
pub open spec fn bytes_literal() -> Seq<u8> {
    seq![32u8, 98u8, 121u8, 116u8, 101u8, 115u8, 40u8]
}

/// The bytes of `range: `.
pub open spec fn range_literal() -> Seq<u8> {
    seq![114u8, 97u8, 110u8, 103u8, 101u8, 58u8, 32u8]
}

/// The bytes of `..`.
pub open spec fn dots_literal() -> Seq<u8> {
    seq![46u8, 46u8]
}

/// The two numbers of a range `lo..hi` that starts at place `a`, and the place after it: each
/// number is one or more digits, as many as there are, and one that a `usize` holds.
pub open spec fn range_at(s: Seq<u8>, a: int) -> Option<(int, int, int)> {
    let a_end = digits_end(s, a);
    let b = a_end + 2;
    let b_end = digits_end(s, b);
    if 0 <= a < a_end && has_at(s, a_end, dots_literal()) && b < b_end && number(s, a, a_end)
        <= usize::MAX && number(s, b, b_end) <= usize::MAX {
        Some((number(s, a, a_end), number(s, b, b_end), b_end))
    } else {
        None
    }
}

/// The range of a representation that starts with `#`, a number, ` bytes(`, a range, and
/// `)`.
pub open spec fn server_span(s: Seq<u8>) -> Option<(int, int)> {
    let d = digits_end(s, 1);
    match range_at(s, d + 7) {
        Some((lo, hi, end)) => if s.len() > 0 && s[0] == 35 && 1 < d && has_at(
            s,
            d,
            bytes_literal(),
        ) && end < s.len() && s[end] == 41 {
            Some((lo, hi))
        } else {
            None
        },
        None => None,
    }
}

/// The range that follows the word `range: ` at place `i`, if the word starts there.
pub open spec fn analyzer_at(s: Seq<u8>, i: int) -> Option<(int, int)> {
    match range_at(s, i + 7) {
        Some((lo, hi, _)) => if 0 <= i && (i == 0 || (i <= s.len() && !is_word(s[i - 1])))
            && has_at(s, i, range_literal()) {
            Some((lo, hi))
        } else {
            None
        },
        None => None,
    }
}

/// The range that follows the first word `range: ` from place `from` on that a range
/// follows.
pub open spec fn analyzer_span(s: Seq<u8>, from: int) -> Option<(int, int)>
    decreases s.len() - from,
{
    if from < 0 || from >= s.len() {
        None
    } else if analyzer_at(s, from) is Some {
        analyzer_at(s, from)
    } else {
        analyzer_span(s, from + 1)
    }
}

/// The bytes that a representation names: those of its form with `bytes(..)`, or else
/// those of its form with `range: ..`, or else none.
pub open spec fn byte_range(s: Seq<u8>) -> (int, int) {
    match server_span(s) {
        Some(range) => range,
        None => match analyzer_span(s, 0) {
            Some(range) => range,
            None => (0, 0),
        },
    }
}

/// A number does not become smaller with a further digit.
proof fn lemma_number_grows(s: Seq<u8>, i: int, j: int, k: int)
    requires
        0 <= i <= j <= k <= s.len(),
        forall|x: int| i <= x < k ==> is_digit(#[trigger] s[x]),
    ensures
        0 <= number(s, i, j) <= number(s, i, k),
    decreases k - j,
{
    lemma_number_positive(s, i, j);
    if j < k {
        lemma_number_grows(s, i, j, k - 1);
        lemma_number_positive(s, i, k - 1);
    }
}

proof fn lemma_number_positive(s: Seq<u8>, i: int, j: int)
    requires
        0 <= i <= j <= s.len(),
        forall|x: int| i <= x < j ==> is_digit(#[trigger] s[x]),
    ensures
        0 <= number(s, i, j),
    decreases j - i,
{
    if i < j {
        lemma_number_positive(s, i, j - 1);
    }
}

/// The place after the digits that start at place `i`.
fn scan_digits(s: &[u8], i: usize) -> (end: usize)
    requires
        i <= s@.len(),
    ensures
        end == digits_end(s@, i as int),
        i <= end <= s@.len(),
        forall|x: int| i <= x < end ==> is_digit(#[trigger] s@[x]),
{
    let mut end: usize = i;
    while end < s.len() && 48 <= s[end] && s[end] <= 57
        invariant
            i <= end <= s@.len(),
            digits_end(s@, end as int) == digits_end(s@, i as int),
            forall|x: int| i <= x < end ==> is_digit(#[trigger] s@[x]),
        decreases s@.len() - end,
    {
        end = end + 1;
    }
    end
}

/// The number that the digits from place `i` up to place `j` are, if a `usize` holds it.
fn parse_number(s: &[u8], i: usize, j: usize) -> (value: Option<usize>)
    requires
        i <= j <= s@.len(),
        forall|x: int| i <= x < j ==> is_digit(#[trigger] s@[x]),
    ensures
        value is Some <==> number(s@, i as int, j as int) <= usize::MAX,
        value matches Some(v) ==> v == number(s@, i as int, j as int),
{
    let mut value: usize = 0;
    let mut k: usize = i;
    while k < j
        invariant
            i <= k <= j <= s@.len(),
            forall|x: int| i <= x < j ==> is_digit(#[trigger] s@[x]),
            value == number(s@, i as int, k as int),
        decreases j - k,
    {
        let digit: usize = (s[k] - 48) as usize;
        if value > (usize::MAX - digit) / 10 {
            proof {
                lemma_number_grows(s@, i as int, k + 1, j as int);
                assert(number(s@, i as int, k + 1) == value * 10 + digit);
            }
            return None;
        }
        value = value * 10 + digit;
        k = k + 1;
    }
    Some(value)
}

/// Whether the bytes `literal` stand at place `i`.
fn stands_at(s: &[u8], i: usize, literal: &[u8]) -> (r: bool)
    ensures
        r == has_at(s@, i as int, literal@),
{
    if i > s.len() || literal.len() > s.len() - i {
        return false;
    }
    bytes_eq(slice_subrange(s, i, i + literal.len()), literal)
}

/// The two numbers of a range that starts at place `a`, and the place after it.
fn parse_range(s: &[u8], a: usize) -> (r: Option<(usize, usize, usize)>)
    ensures
        match r {
            Some((lo, hi, end)) => range_at(s@, a as int) == Some(
                (lo as int, hi as int, end as int),
            ) && end <= s@.len(),
            None => range_at(s@, a as int) is None,
        },
{
    if a > s.len() {
        return None;
    }
    let a_end = scan_digits(s, a);
    let dots = vec![46u8, 46u8];
    proof {
        assert(dots@ =~= dots_literal());
    }
    if a_end == a || !stands_at(s, a_end, dots.as_slice()) {
        return None;
    }
    let b = a_end + 2;
    let b_end = scan_digits(s, b);
    if b_end == b {
        return None;
    }
    let lo = parse_number(s, a, a_end);
    let hi = parse_number(s, b, b_end);
    match (lo, hi) {
        (Some(lo), Some(hi)) => Some((lo, hi, b_end)),
        _ => None,
    }
}

/// The range of a representation of the form with `bytes(..)`.
fn parse_server_span(s: &[u8]) -> (r: Option<(usize, usize)>)
    ensures
        match r {
            Some((lo, hi)) => server_span(s@) == Some((lo as int, hi as int)),
            None => server_span(s@) is None,
        },
{
    if s.len() == 0 || s[0] != 35 {
        return None;
    }
    let d = scan_digits(s, 1);
    let word = vec![32u8, 98u8, 121u8, 116u8, 101u8, 115u8, 40u8];
    proof {
        assert(word@ =~= bytes_literal());
    }
    if d == 1 || !stands_at(s, d, word.as_slice()) {
        return None;
    }
    match parse_range(s, d + 7) {
        Some((lo, hi, end)) => {
            if end < s.len() && s[end] == 41 {
                Some((lo, hi))
            } else {
                None
            }
        },
        None => None,
    }
}

/// The range of a representation of the form with `range: ..`.
fn parse_analyzer_span(s: &[u8]) -> (r: Option<(usize, usize)>)
    ensures
        match r {
            Some((lo, hi)) => analyzer_span(s@, 0) == Some((lo as int, hi as int)),
            None => analyzer_span(s@, 0) is None,
        },
{
    let word = vec![114u8, 97u8, 110u8, 103u8, 101u8, 58u8, 32u8];
    proof {
        assert(word@ =~= range_literal());
    }
    let mut i: usize = 0;
    while i < s.len()
        invariant
            i <= s@.len(),
            word@ == range_literal(),
            analyzer_span(s@, i as int) == analyzer_span(s@, 0),
        decreases s@.len() - i,
    {
        let starts_word = i == 0 || !(is_word_byte(s[i - 1]));
        if starts_word && stands_at(s, i, word.as_slice()) {
            match parse_range(s, i + 7) {
                Some((lo, hi, _)) => {
                    return Some((lo, hi));
                },
                None => {},
            }
        }
        i = i + 1;
    }
    None
}

fn is_word_byte(b: u8) -> (r: bool)
    ensures
        r == is_word(b),
{
    (48 <= b && b <= 57) || (65 <= b && b <= 90) || (97 <= b && b <= 122) || b == 95
}

/// Reading the place that a representation names.
pub trait SpanExt {
    spec fn spec_byte_range(&self) -> (int, int);

    /// The bytes of the source text that the place covers, as far as its representation
    /// names them; a number that no `usize` holds names nothing.
    fn byte_range_shim(&self) -> (range: Range<usize>)
        ensures
            (range.start as int, range.end as int) == self.spec_byte_range(),
    ;
}

impl SpanExt for SpanRepr {
    open spec fn spec_byte_range(&self) -> (int, int) {
        byte_range(vstd::utf8::encode_utf8(self.0@))
    }

    fn byte_range_shim(&self) -> (range: Range<usize>) {
        let bytes = self.0.as_str().as_bytes();
        match parse_server_span(bytes) {
            Some((lo, hi)) => lo..hi,
            None => match parse_analyzer_span(bytes) {
                Some((lo, hi)) => lo..hi,
                None => 0..0,
            },
        }
    }
}

} // verus!
