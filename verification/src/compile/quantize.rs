//! Packing of 8-bit coverage values into gray levels of 1, 2, 4 or 8 bits.

use vstd::arithmetic::div_mod::{lemma_fundamental_div_mod, lemma_fundamental_div_mod_converse};
use vstd::prelude::*;
use vstd::slice::slice_to_vec;

verus! {

/// Whether `bit_depth` is one of the gray depths that an image can be packed at.
pub open spec fn is_bit_depth(bit_depth: u8) -> bool {
    bit_depth == 1 || bit_depth == 2 || bit_depth == 4 || bit_depth == 8
}

/// `2^e` for `0 <= e <= 8`.
pub open spec fn pow2_small(e: int) -> int {
    if e <= 0 {
        1
    } else if e == 1 {
        2
    } else if e == 2 {
        4
    } else if e == 3 {
        8
    } else if e == 4 {
        16
    } else if e == 5 {
        32
    } else if e == 6 {
        64
    } else if e == 7 {
        128
    } else {
        256
    }
}

/// The highest gray level at a bit depth: `2^bit_depth - 1`.
pub open spec fn max_level(bit_depth: u8) -> int {
    pow2_small(bit_depth as int) - 1
}

/// The step between two gray levels, in coverage values: `255 / (2^bit_depth - 1)`.
pub open spec fn level_divisor(bit_depth: u8) -> int {
    if bit_depth == 1 {
        255
    } else if bit_depth == 2 {
        85
    } else if bit_depth == 4 {
        17
    } else {
        1
    }
}

/// `value / divisor`, rounded to the nearest integer, halves rounded up. A divisor of zero
/// leaves the value as it is.
pub open spec fn downsample_spec(value: u8, divisor: u8) -> int {
    if divisor == 0 {
        value as int
    } else {
        (2 * value + divisor) / (2 * divisor)
    }
}

/// The gray level of a coverage value at a bit depth.
pub open spec fn level_of(value: u8, bit_depth: u8) -> int {
    downsample_spec(value, level_divisor(bit_depth) as u8)
}

/// The number of pixels that one byte holds.
pub open spec fn pixels_per_byte(bit_depth: u8) -> int {
    if bit_depth == 1 {
        8
    } else if bit_depth == 2 {
        4
    } else if bit_depth == 4 {
        2
    } else {
        1
    }
}

/// The number of bytes that hold one row of `width` pixels: a row that does not fill whole
/// bytes gets one more byte.
pub open spec fn bytes_per_row(width: int, bit_depth: u8) -> int {
    (width * bit_depth + 7) / 8
}

/// The weight of the pixel at place `k` of a byte. Pixels are packed from the most
/// significant bit down, so it is `2^(8 - bit_depth * (k + 1))`.
pub open spec fn place_weight(bit_depth: u8, k: int) -> int {
    pow2_small(8 - bit_depth * (k + 1))
}

/// The gray level at `row` and `col` of an image, and zero to the right of the image.
pub open spec fn level_at(image: Seq<u8>, width: int, bit_depth: u8, row: int, col: int) -> int {
    if 0 <= col < width && 0 <= row * width + col < image.len() {
        level_of(image[row * width + col], bit_depth)
    } else {
        0
    }
}

/// The sum of the first `k` places of byte `j` of a packed row.
pub open spec fn packed_sum(
    image: Seq<u8>,
    width: int,
    bit_depth: u8,
    row: int,
    j: int,
    k: int,
) -> int
    decreases k,
{
    if k <= 0 {
        0
    } else {
        packed_sum(image, width, bit_depth, row, j, k - 1) + level_at(
            image,
            width,
            bit_depth,
            row,
            j * pixels_per_byte(bit_depth) + k - 1,
        ) * place_weight(bit_depth, k - 1)
    }
}

/// Byte `j` of the packed row `row`.
pub open spec fn packed_byte(image: Seq<u8>, width: int, bit_depth: u8, row: int, j: int) -> u8 {
    packed_sum(image, width, bit_depth, row, j, pixels_per_byte(bit_depth)) as u8
}

/// The packed form of an image of rows of `width` coverage values. At depth 8 it is the
/// image itself. Below that, each row is packed on its own, most significant bits first, and
/// the unused bits of a row's last byte are zero.
pub open spec fn quantized(image: Seq<u8>, width: int, bit_depth: u8) -> Seq<u8> {
    if bit_depth == 8 {
        image
    } else {
        Seq::new(
            ((image.len() as int / width) * bytes_per_row(width, bit_depth)) as nat,
            |i: int|
                packed_byte(
                    image,
                    width,
                    bit_depth,
                    i / bytes_per_row(width, bit_depth),
                    i % bytes_per_row(width, bit_depth),
                ),
        )
    }
}

/// The fixed-point computation of [`downsample`] rounds to the nearest level.
proof fn lemma_fixed_point_rounds(v: int, d: int, q: int, t: int)
    requires
        0 <= v,
        0 < d,
        q == (v * 8388608) / d,
        t == (q + 4194304) / 8388608,
    ensures
        t == (2 * v + d) / (2 * d),
{
    let big = v * 8388608;
    let r = big % d;
    let u = (q + 4194304) % 8388608;
    lemma_fundamental_div_mod(big, d);
    lemma_fundamental_div_mod(q + 4194304, 8388608);
    vstd::arithmetic::div_mod::lemma_mod_pos_bound(big, d);
    let rem = 2 * v + d - 2 * d * t;
    assert(rem * 8388608 == 2 * d * u + 2 * r) by (nonlinear_arith)
        requires
            big == v * 8388608,
            big == d * q + r,
            q + 4194304 == 8388608 * t + u,
            rem == 2 * v + d - 2 * d * t,
    ;
    assert(2 * d * u <= 2 * d * 8388607) by (nonlinear_arith)
        requires
            0 <= u <= 8388607,
            0 < d,
    ;
    assert(0 <= 2 * d * u) by (nonlinear_arith)
        requires
            0 <= u,
            0 < d,
    ;
    assert(0 <= rem < 2 * d) by (nonlinear_arith)
        requires
            rem * 8388608 == 2 * d * u + 2 * r,
            0 <= 2 * d * u <= 2 * d * 8388607,
            0 <= r < d,
            0 < d,
    ;
    assert(2 * v + d == t * (2 * d) + rem) by (nonlinear_arith)
        requires
            rem == 2 * v + d - 2 * d * t,
    ;
    lemma_fundamental_div_mod_converse(2 * v + d, 2 * d, t, rem);
}

/// Rounds `value / divisor` to the nearest integer, halves up, in fixed-point arithmetic
/// with 23 fractional bits. A divisor of zero leaves the value as it is.
pub fn downsample(value: u8, divisor: u8) -> (level: u8)
    ensures
        level == downsample_spec(value, divisor),
{
    if divisor == 0 {
        return value;
    }
    let wide: u32 = value as u32;
    let scaled: u32 = wide << 23;
    assert(scaled == wide * 8388608) by (bit_vector)
        requires
            scaled == wide << 23,
            wide < 256,
    ;
    let quotient: u32 = scaled / (divisor as u32);
    let rounded: u32 = quotient + 4194304;
    let result: u32 = rounded >> 23;
    assert(result == rounded / 8388608) by (bit_vector)
        requires
            result == rounded >> 23,
    ;
    proof {
        lemma_fixed_point_rounds(value as int, divisor as int, quotient as int, result as int);
    }
    result as u8
}

/// The gray level of a coverage value, written out for each of the bit depths.
pub proof fn lemma_level_explicit(value: u8, bit_depth: u8)
    requires
        is_bit_depth(bit_depth),
    ensures
        bit_depth == 1 ==> level_of(value, bit_depth) == (2 * value + 255) / 510,
        bit_depth == 2 ==> level_of(value, bit_depth) == (2 * value + 85) / 170,
        bit_depth == 4 ==> level_of(value, bit_depth) == (2 * value + 17) / 34,
        bit_depth == 8 ==> level_of(value, bit_depth) == value,
{
    let d = level_divisor(bit_depth) as u8;
    if bit_depth == 1 {
        assert((2 * value + d) / (2 * d) == (2 * value + 255) / 510);
    } else if bit_depth == 2 {
        assert((2 * value + d) / (2 * d) == (2 * value + 85) / 170);
    } else if bit_depth == 4 {
        assert((2 * value + d) / (2 * d) == (2 * value + 17) / 34);
    } else {
        assert((2 * value + d) / (2 * d) == (2 * value + 1) / 2);
    }
}

/// A gray level is at most the highest level of its depth.
pub proof fn lemma_level_bound(value: u8, bit_depth: u8)
    requires
        is_bit_depth(bit_depth),
    ensures
        0 <= level_of(value, bit_depth) <= max_level(bit_depth),
{
    lemma_level_explicit(value, bit_depth);
}

/// The gray level does not fall when the coverage rises.
pub proof fn lemma_quantize_monotonic(bit_depth: u8, v: u8, w: u8)
    requires
        is_bit_depth(bit_depth),
        v <= w,
    ensures
        level_of(v, bit_depth) <= level_of(w, bit_depth),
{
    lemma_level_explicit(v, bit_depth);
    lemma_level_explicit(w, bit_depth);
}

/// Full coverage becomes the highest gray level, and no coverage becomes level zero.
pub proof fn lemma_quantize_extremes(bit_depth: u8)
    requires
        is_bit_depth(bit_depth),
    ensures
        level_of(255, bit_depth) == max_level(bit_depth),
        level_of(0, bit_depth) == 0,
{
    lemma_level_explicit(255, bit_depth);
    lemma_level_explicit(0, bit_depth);
}

/// An image of one pixel is packed into one byte, which holds the pixel's gray level in
/// its most significant bits.
pub proof fn lemma_quantize_single_pixel(bit_depth: u8, v: u8)
    requires
        is_bit_depth(bit_depth),
    ensures
        quantized(seq![v], 1, bit_depth).len() == 1,
        quantized(seq![v], 1, bit_depth)[0] == level_of(v, bit_depth) * place_weight(bit_depth, 0),
{
    let image = seq![v];
    if bit_depth != 8 {
        assert(bytes_per_row(1, bit_depth) == 1);
        lemma_level_bound(v, bit_depth);
        lemma_packed_tail_is_zero(image, 1, bit_depth, 0, 0, 1, pixels_per_byte(bit_depth));
        assert(packed_sum(image, 1, bit_depth, 0, 0, 0) == 0);
        assert(packed_sum(image, 1, bit_depth, 0, 0, 1) == level_at(image, 1, bit_depth, 0, 0)
            * place_weight(bit_depth, 0));
        assert(level_at(image, 1, bit_depth, 0, 0) == level_of(v, bit_depth));
        assert(level_of(v, bit_depth) * place_weight(bit_depth, 0) <= 255) by (nonlinear_arith)
            requires
                0 <= level_of(v, bit_depth) <= max_level(bit_depth),
                (max_level(bit_depth) + 1) * place_weight(bit_depth, 0) == 256,
                place_weight(bit_depth, 0) > 0,
        ;
    } else {
        lemma_level_explicit(v, 8);
        assert(level_of(v, 8) == v);
    }
}

/// Places to the right of the image add nothing to a byte.
proof fn lemma_packed_tail_is_zero(
    image: Seq<u8>,
    width: int,
    bit_depth: u8,
    row: int,
    j: int,
    from: int,
    to: int,
)
    requires
        0 <= from <= to,
        j * pixels_per_byte(bit_depth) + from >= width,
    ensures
        packed_sum(image, width, bit_depth, row, j, to) == packed_sum(
            image,
            width,
            bit_depth,
            row,
            j,
            from,
        ),
    decreases to - from,
{
    if from < to {
        lemma_packed_tail_is_zero(image, width, bit_depth, row, j, from, to - 1);
    }
}

/// Packs the rows of an image of 8-bit coverage values at `bit_depth` bits per pixel.
pub fn quantize(image_data: &[u8], image_width: u32, bit_depth: u8) -> (bytes: Vec<u8>)
    requires
        is_bit_depth(bit_depth),
        bit_depth != 8 ==> image_width > 0 && image_data@.len() as int % (image_width as int) == 0,
    ensures
        bytes@ == quantized(image_data@, image_width as int, bit_depth),
{
    if bit_depth == 8 {
        return slice_to_vec(image_data);
    }
    let ghost image = image_data@;
    let ghost w = image_width as int;
    let per_byte: u32 = if bit_depth == 1 {
        8
    } else if bit_depth == 2 {
        4
    } else {
        2
    };
    let divisor: u8 = if bit_depth == 1 {
        255
    } else if bit_depth == 2 {
        85
    } else {
        17
    };
    let row_bytes: u32 = image_width / per_byte + if image_width % per_byte != 0 {
        1u32
    } else {
        0u32
    };
    let width: usize = image_width as usize;
    let rows: usize = image_data.len() / width;
    let ghost bpr = bytes_per_row(w, bit_depth);
    proof {
        assert(row_bytes as int == bpr);
        assert(divisor as int == level_divisor(bit_depth));
        lemma_fundamental_div_mod(image.len() as int, w);
        assert(image.len() == w * (rows as int));
        assert(image.len() == image_data.len());
    }
    let mut bytes: Vec<u8> = Vec::new();
    let mut row: usize = 0;
    while row < rows
        invariant
            is_bit_depth(bit_depth),
            bit_depth != 8,
            image == image_data@,
            w == image_width as int,
            width as int == w,
            w > 0,
            per_byte as int == pixels_per_byte(bit_depth),
            divisor as int == level_divisor(bit_depth),
            bpr == bytes_per_row(w, bit_depth),
            row_bytes as int == bpr,
            bpr > 0,
            image.len() == w * (rows as int),
            image.len() <= usize::MAX,
            row <= rows,
            bytes@ == Seq::new(
                (row as int * bpr) as nat,
                |i: int| packed_byte(image, w, bit_depth, i / bpr, i % bpr),
            ),
        decreases rows - row,
    {
        let mut j: u32 = 0;
        proof {
            assert((row as int) * w + w <= image.len()) by (nonlinear_arith)
                requires
                    image.len() == w * (rows as int),
                    row < rows,
                    w > 0,
            ;
            assert(0 <= (row as int) * w) by (nonlinear_arith)
                requires
                    0 <= row as int,
                    w > 0,
            ;
            assert(0 <= (row as int) * bpr) by (nonlinear_arith)
                requires
                    0 <= row as int,
                    bpr > 0,
            ;
        }
        let base: usize = row * width;
        while j < row_bytes
            invariant
                is_bit_depth(bit_depth),
                bit_depth != 8,
                image == image_data@,
                w == image_width as int,
                width as int == w,
                w > 0,
                per_byte as int == pixels_per_byte(bit_depth),
                divisor as int == level_divisor(bit_depth),
                bpr == bytes_per_row(w, bit_depth),
                row_bytes as int == bpr,
                bpr > 0,
                row < rows,
                base as int == (row as int) * w,
                base + w <= image.len(),
                image.len() <= usize::MAX,
                0 <= (row as int) * bpr,
                j <= row_bytes,
                bytes@ == Seq::new(
                    ((row as int) * bpr + j) as nat,
                    |i: int| packed_byte(image, w, bit_depth, i / bpr, i % bpr),
                ),
            decreases row_bytes - j,
        {
            let mut byte: u8 = 0;
            let mut k: u32 = 0;
            let first: u64 = (j as u64) * (per_byte as u64);
            proof {
                assert(first as int == (j as int) * pixels_per_byte(bit_depth));
                assert(first < w);
            }
            while k < per_byte
                invariant
                    is_bit_depth(bit_depth),
                    bit_depth != 8,
                    image == image_data@,
                    w == image_width as int,
                    width as int == w,
                    per_byte as int == pixels_per_byte(bit_depth),
                    divisor as int == level_divisor(bit_depth),
                    base as int == (row as int) * w,
                    base + w <= image.len(),
                    image.len() <= usize::MAX,
                    first as int == (j as int) * pixels_per_byte(bit_depth),
                    first < w,
                    k <= per_byte,
                    byte as int == packed_sum(image, w, bit_depth, row as int, j as int, k as int),
                    byte as int + place_weight(bit_depth, k as int - 1) <= 256,
                    k == 0 ==> byte == 0,
                decreases per_byte - k,
            {
                let col: u64 = first + (k as u64);
                let weight: u8 = place_weight_of(bit_depth, k);
                if col < image_width as u64 {
                    let value: u8 = image_data[base + (col as usize)];
                    let level: u8 = downsample(value, divisor);
                    proof {
                        lemma_level_bound(value, bit_depth);
                        assert(level as int == level_at(
                            image,
                            w,
                            bit_depth,
                            row as int,
                            col as int,
                        ));
                        lemma_place_fits(bit_depth, k as int, level as int);
                    }
                    byte = byte + level * weight;
                }
                k = k + 1;
            }
            bytes.push(byte);
            proof {
                let i = (row as int) * bpr + j;
                lemma_fundamental_div_mod_converse(i, bpr, row as int, j as int);
                assert(bytes@ =~= Seq::new(
                    ((row as int) * bpr + j + 1) as nat,
                    |i: int| packed_byte(image, w, bit_depth, i / bpr, i % bpr),
                ));
            }
            j = j + 1;
        }
        proof {
            assert((row as int + 1) * bpr == (row as int) * bpr + bpr) by (nonlinear_arith);
        }
        row = row + 1;
    }
    proof {
        assert(rows as int == image.len() as int / w) by {
            lemma_fundamental_div_mod_converse(image.len() as int, w, rows as int, 0);
        }
        assert(bytes@ =~= quantized(image, w, bit_depth));
    }
    bytes
}

/// A level at place `k` fits on top of what places `0..k` hold.
proof fn lemma_place_fits(bit_depth: u8, k: int, level: int)
    requires
        is_bit_depth(bit_depth),
        bit_depth != 8,
        0 <= k < pixels_per_byte(bit_depth),
        0 <= level <= max_level(bit_depth),
    ensures
        0 <= level * place_weight(bit_depth, k) <= 255,
        level * place_weight(bit_depth, k) + place_weight(bit_depth, k) <= place_weight(
            bit_depth,
            k - 1,
        ),
        place_weight(bit_depth, k - 1) <= 256,
{
    let weight = place_weight(bit_depth, k);
    assert(place_weight(bit_depth, k - 1) == weight * (max_level(bit_depth) + 1));
    assert(level * weight + weight <= weight * (max_level(bit_depth) + 1)) by (nonlinear_arith)
        requires
            0 <= level <= max_level(bit_depth),
            weight > 0,
    ;
    assert(0 <= level * weight) by (nonlinear_arith)
        requires
            0 <= level,
            weight > 0,
    ;
}

/// The weight of place `k` of a byte.
pub fn place_weight_of(bit_depth: u8, k: u32) -> (weight: u8)
    requires
        is_bit_depth(bit_depth),
        bit_depth != 8,
        k < pixels_per_byte(bit_depth),
    ensures
        weight as int == place_weight(bit_depth, k as int),
{
    let shift: u32 = if bit_depth == 1 {
        7 - k
    } else if bit_depth == 2 {
        6 - 2 * k
    } else {
        4 - 4 * k
    };
    let weight: u8 = 1u8 << shift;
    assert(weight as int == pow2_small(shift as int)) by {
        assert(weight == 1u8 << shift);
        assert(shift < 8);
        assert(1u8 << 0u32 == 1u8) by (bit_vector);
        assert(1u8 << 1u32 == 2u8) by (bit_vector);
        assert(1u8 << 2u32 == 4u8) by (bit_vector);
        assert(1u8 << 3u32 == 8u8) by (bit_vector);
        assert(1u8 << 4u32 == 16u8) by (bit_vector);
        assert(1u8 << 5u32 == 32u8) by (bit_vector);
        assert(1u8 << 6u32 == 64u8) by (bit_vector);
        assert(1u8 << 7u32 == 128u8) by (bit_vector);
    }
    weight
}

} // verus!
