//! Glyph images: packed gray levels with a place on the grid, parts of them, sets of them
//! for the sub-pixel positions of a glyph, and the blend of two images where they overlap.

use crate::color::{Colormap, Dark, Screen};
use crate::compile::quantize::{
    bytes_per_row, is_bit_depth, lemma_level_bound, level_at, level_of, max_level, packed_byte,
    packed_sum, pixels_per_byte, place_weight, place_weight_of, quantized,
};
use crate::rect::{add_clamped, mul_clamped, neg_clamped, to_i32_clamped, Point, Rectangle, Size};
use vstd::arithmetic::div_mod::{lemma_fundamental_div_mod, lemma_fundamental_div_mod_converse};
use vstd::prelude::*;

verus! {

/// The gray level of the pixel in column `x` of row `y` of packed image data: its bits in
/// the byte that holds it.
pub open spec fn pixel_level(data: Seq<u8>, width: int, bit_depth: u8, x: int, y: int) -> int {
    let byte = data[y * bytes_per_row(width, bit_depth) + x / pixels_per_byte(bit_depth)];
    (byte as int / place_weight(bit_depth, x % pixels_per_byte(bit_depth))) % (max_level(
        bit_depth,
    ) + 1)
}

/// The gray levels of the pixels of an area of `width` columns and `height` rows, whose
/// first pixel is in column `left` of row `top` of packed image data, row by row.
pub open spec fn area_levels(
    data: Seq<u8>,
    image_width: int,
    bit_depth: u8,
    left: int,
    top: int,
    width: int,
    height: int,
) -> Seq<u8> {
    Seq::new(
        (width * height) as nat,
        |i: int|
            pixel_level(data, image_width, bit_depth, left + i % width, top + i / width) as u8,
    )
}

/// No place of a byte holds more than the highest gray level.
proof fn lemma_level_at_bound(image: Seq<u8>, width: int, bit_depth: u8, row: int, col: int)
    requires
        is_bit_depth(bit_depth),
    ensures
        0 <= level_at(image, width, bit_depth, row, col) <= max_level(bit_depth),
{
    if 0 <= col < width && 0 <= row * width + col < image.len() {
        lemma_level_bound(image[row * width + col], bit_depth);
    }
}

/// The bit at place `m` of a sum of eight bits, each at its place.
proof fn lemma_bits_of_eight(l: Seq<int>, m: int)
    requires
        l.len() == 8,
        forall|k: int| 0 <= k < 8 ==> 0 <= #[trigger] l[k] <= 1,
        0 <= m < 8,
    ensures
        ((l[0] * 128 + l[1] * 64 + l[2] * 32 + l[3] * 16 + l[4] * 8 + l[5] * 4 + l[6] * 2 + l[7])
            / crate::compile::quantize::pow2_small(7 - m)) % 2 == l[m],
{
    let s = l[0] * 128 + l[1] * 64 + l[2] * 32 + l[3] * 16 + l[4] * 8 + l[5] * 4 + l[6] * 2 + l[7];
    assert(0 <= l[0] <= 1 && 0 <= l[1] <= 1 && 0 <= l[2] <= 1 && 0 <= l[3] <= 1);
    assert(0 <= l[4] <= 1 && 0 <= l[5] <= 1 && 0 <= l[6] <= 1 && 0 <= l[7] <= 1);
    if m == 0 {
        assert((s / 128) % 2 == l[0]);
    } else if m == 1 {
        assert((s / 64) % 2 == l[1]);
    } else if m == 2 {
        assert((s / 32) % 2 == l[2]);
    } else if m == 3 {
        assert((s / 16) % 2 == l[3]);
    } else if m == 4 {
        assert((s / 8) % 2 == l[4]);
    } else if m == 5 {
        assert((s / 4) % 2 == l[5]);
    } else if m == 6 {
        assert((s / 2) % 2 == l[6]);
    } else {
        assert((s / 1) % 2 == l[7]);
    }
}

/// The two bits at place `m` of a sum of four pairs of bits, each at its place.
proof fn lemma_bits_of_four(l0: int, l1: int, l2: int, l3: int, m: int)
    requires
        0 <= l0 <= 3,
        0 <= l1 <= 3,
        0 <= l2 <= 3,
        0 <= l3 <= 3,
        0 <= m < 4,
    ensures
        ((l0 * 64 + l1 * 16 + l2 * 4 + l3) / crate::compile::quantize::pow2_small(6 - 2 * m)) % 4
            == (if m == 0 {
            l0
        } else if m == 1 {
            l1
        } else if m == 2 {
            l2
        } else {
            l3
        }),
{
    let a = l0 as u32;
    let b = l1 as u32;
    let c = l2 as u32;
    let d = l3 as u32;
    let s = (a * 64 + b * 16 + c * 4 + d) as u32;
    assert(s == l0 * 64 + l1 * 16 + l2 * 4 + l3);
    if m == 0 {
        assert((s / 64) % 4 == a) by (bit_vector)
            requires
                s == a * 64 + b * 16 + c * 4 + d,
                a <= 3,
                b <= 3,
                c <= 3,
                d <= 3,
        ;
    } else if m == 1 {
        assert((s / 16) % 4 == b) by (bit_vector)
            requires
                s == a * 64 + b * 16 + c * 4 + d,
                a <= 3,
                b <= 3,
                c <= 3,
                d <= 3,
        ;
    } else if m == 2 {
        assert((s / 4) % 4 == c) by (bit_vector)
            requires
                s == a * 64 + b * 16 + c * 4 + d,
                a <= 3,
                b <= 3,
                c <= 3,
                d <= 3,
        ;
    } else {
        assert((s / 1) % 4 == d) by (bit_vector)
            requires
                s == a * 64 + b * 16 + c * 4 + d,
                a <= 3,
                b <= 3,
                c <= 3,
                d <= 3,
        ;
    }
}

/// The sum of the places of a packed byte, written out.
proof fn lemma_packed_sum_unrolled(image: Seq<u8>, width: int, bit_depth: u8, row: int, j: int)
    requires
        is_bit_depth(bit_depth),
        bit_depth != 8,
    ensures
        ({
            let first = j * pixels_per_byte(bit_depth);
            let sum = packed_sum(image, width, bit_depth, row, j, pixels_per_byte(bit_depth));
            &&& bit_depth == 4 ==> sum == level_at(image, width, bit_depth, row, first) * 16
                + level_at(image, width, bit_depth, row, first + 1)
            &&& bit_depth == 2 ==> sum == level_at(image, width, bit_depth, row, first) * 64
                + level_at(image, width, bit_depth, row, first + 1) * 16 + level_at(
                image,
                width,
                bit_depth,
                row,
                first + 2,
            ) * 4 + level_at(image, width, bit_depth, row, first + 3)
            &&& bit_depth == 1 ==> sum == level_at(image, width, bit_depth, row, first) * 128
                + level_at(image, width, bit_depth, row, first + 1) * 64 + level_at(
                image,
                width,
                bit_depth,
                row,
                first + 2,
            ) * 32 + level_at(image, width, bit_depth, row, first + 3) * 16 + level_at(
                image,
                width,
                bit_depth,
                row,
                first + 4,
            ) * 8 + level_at(image, width, bit_depth, row, first + 5) * 4 + level_at(
                image,
                width,
                bit_depth,
                row,
                first + 6,
            ) * 2 + level_at(image, width, bit_depth, row, first + 7)
        }),
{
    reveal_with_fuel(packed_sum, 9);
}

/// The bits of place `m` of a packed byte are the gray level that was packed there.
proof fn lemma_place_of_packed_byte(
    image: Seq<u8>,
    width: int,
    bit_depth: u8,
    row: int,
    j: int,
    m: int,
)
    requires
        is_bit_depth(bit_depth),
        bit_depth != 8,
        0 <= m < pixels_per_byte(bit_depth),
    ensures
        (packed_byte(image, width, bit_depth, row, j) as int / place_weight(bit_depth, m)) % (
        max_level(bit_depth) + 1) == level_at(
            image,
            width,
            bit_depth,
            row,
            j * pixels_per_byte(bit_depth) + m,
        ),
{
    let first = j * pixels_per_byte(bit_depth);
    let l0 = level_at(image, width, bit_depth, row, first);
    let l1 = level_at(image, width, bit_depth, row, first + 1);
    let l2 = level_at(image, width, bit_depth, row, first + 2);
    let l3 = level_at(image, width, bit_depth, row, first + 3);
    let l4 = level_at(image, width, bit_depth, row, first + 4);
    let l5 = level_at(image, width, bit_depth, row, first + 5);
    let l6 = level_at(image, width, bit_depth, row, first + 6);
    let l7 = level_at(image, width, bit_depth, row, first + 7);
    lemma_level_at_bound(image, width, bit_depth, row, first);
    lemma_level_at_bound(image, width, bit_depth, row, first + 1);
    lemma_level_at_bound(image, width, bit_depth, row, first + 2);
    lemma_level_at_bound(image, width, bit_depth, row, first + 3);
    lemma_level_at_bound(image, width, bit_depth, row, first + 4);
    lemma_level_at_bound(image, width, bit_depth, row, first + 5);
    lemma_level_at_bound(image, width, bit_depth, row, first + 6);
    lemma_level_at_bound(image, width, bit_depth, row, first + 7);
    lemma_packed_sum_unrolled(image, width, bit_depth, row, j);
    let sum = packed_sum(image, width, bit_depth, row, j, pixels_per_byte(bit_depth));
    if bit_depth == 4 {
        assert(0 <= sum <= 255);
        if m == 0 {
            assert((sum / 16) % 16 == l0);
        } else {
            assert((sum / 1) % 16 == l1);
        }
    } else if bit_depth == 2 {
        assert(0 <= sum <= 255);
        lemma_bits_of_four(l0, l1, l2, l3, m);
        assert(8 - 2 * (m + 1) == 6 - 2 * m);
    } else {
        assert(0 <= sum <= 255);
        let l = seq![l0, l1, l2, l3, l4, l5, l6, l7];
        lemma_bits_of_eight(l, m);
        assert(8 - 1 * (m + 1) == 7 - m);
        assert(l[m] == level_at(image, width, bit_depth, row, first + m));
    }
}

/// Unpacking what was packed gives the gray levels of the coverage: the pixel in column
/// `x` of row `y` of the packed image is the gray level of the coverage there.
pub proof fn lemma_unpack_quantized(image: Seq<u8>, width: int, bit_depth: u8, x: int, y: int)
    requires
        is_bit_depth(bit_depth),
        width > 0,
        image.len() as int % width == 0,
        0 <= x < width,
        0 <= y < image.len() as int / width,
    ensures
        pixel_level(quantized(image, width, bit_depth), width, bit_depth, x, y) == level_of(
            image[y * width + x],
            bit_depth,
        ),
{
    let rows = image.len() as int / width;
    lemma_fundamental_div_mod(image.len() as int, width);
    assert(0 <= y * width + x < image.len()) by (nonlinear_arith)
        requires
            image.len() == width * rows,
            0 <= x < width,
            0 <= y < rows,
    ;
    if bit_depth == 8 {
        crate::compile::quantize::lemma_level_explicit(image[y * width + x], 8);
        assert(x % 1 == 0 && x / 1 == x);
        assert(bytes_per_row(width, 8) == width);
        assert(pixels_per_byte(8) == 1);
        assert(8 - 8 * (0 + 1) == 0);
        assert(place_weight(8, 0) == 1);
        assert(max_level(8) + 1 == 256);
        let v = image[y * width + x];
        assert((v as int / 1) % 256 == v);
        assert(quantized(image, width, 8) == image);
    } else {
        let per_byte = pixels_per_byte(bit_depth);
        let bpr = bytes_per_row(width, bit_depth);
        let j = x / per_byte;
        let m = x % per_byte;
        assert(0 <= j < bpr && 0 <= m < per_byte && x == j * per_byte + m);
        let i = y * bpr + j;
        lemma_fundamental_div_mod_converse(i, bpr, y, j);
        assert(0 <= i < rows * bpr) by (nonlinear_arith)
            requires
                i == y * bpr + j,
                0 <= j < bpr,
                0 <= y < rows,
        ;
        assert(quantized(image, width, bit_depth)[i] == packed_byte(image, width, bit_depth, y, j));
        lemma_place_of_packed_byte(image, width, bit_depth, y, j, m);
        assert(level_at(image, width, bit_depth, y, j * per_byte + m) == level_of(
            image[y * width + x],
            bit_depth,
        ));
        assert(pixel_level(quantized(image, width, bit_depth), width, bit_depth, x, y) == (
        quantized(image, width, bit_depth)[i] as int / place_weight(bit_depth, m)) % (max_level(
            bit_depth,
        ) + 1));
    }
}

/// Packed gray levels: rows of `size.width` pixels, each row in whole bytes.
#[derive(Clone, Copy, Debug)]
pub struct ImageRaw<'a> {
    pub data: &'a [u8],
    pub size: Size,
    pub bit_depth: u8,
}

/// A part of an image.
#[derive(Clone, Copy, Debug)]
pub struct SubImage<'a> {
    pub parent: ImageRaw<'a>,
    pub area: Rectangle,
}

/// Something to draw, and where on the grid its first pixel goes.
#[derive(Clone, Copy, Debug)]
pub struct Image<T> {
    pub image_drawable: T,
    pub offset: Point,
}

/// The images of a glyph at its sub-pixel positions.
#[derive(Debug)]
pub enum ImageSet<'a> {
    /// One image for every position.
    Repeated(Image<ImageRaw<'a>>),
    /// One image for each position.
    Array(Vec<Image<ImageRaw<'a>>>),
}

/// Gray levels, pixel by pixel.
pub trait Colors {
    /// Whether every pixel has its bits in the data.
    spec fn wf(&self) -> bool;

    spec fn spec_colors(&self) -> Seq<u8>;

    /// The gray levels of the pixels, row by row.
    fn colors(&self) -> (levels: Vec<u8>)
        requires
            self.wf(),
        ensures
            levels@ == self.spec_colors(),
    ;
}

/// Taking a part of an image.
pub trait ImageDrawableExt: Sized {
    spec fn spec_sub_image(&self, area: &Rectangle) -> Rectangle;

    /// Whether `sub` is a part of this image.
    spec fn spec_is_parent_of(&self, sub: &SubImage<'_>) -> bool;

    /// The part of the image that lies in `area`.
    fn sub_image(&self, area: &Rectangle) -> (sub: SubImage<'_>)
        ensures
            sub.area == self.spec_sub_image(area),
            sub.lies_within(),
            self.spec_is_parent_of(&sub),
    ;
}

impl<'a> ImageRaw<'a> {
    /// The number of whole rows of `width` pixels that `len` bytes hold, as far as a `u32`
    /// counts them.
    pub open spec fn rows_in(len: int, width: int, bit_depth: u8) -> int {
        if bytes_per_row(width, bit_depth) == 0 {
            0
        } else {
            (len / bytes_per_row(width, bit_depth)) % 0x1_0000_0000
        }
    }

    /// An image of rows of `width` pixels. Its height is the number of whole rows in `data`;
    /// an image of no width has no data either.
    pub fn new(data: &'a [u8], width: u32, bit_depth: u8) -> (raw: Self)
        requires
            is_bit_depth(bit_depth),
        ensures
            raw.bit_depth == bit_depth,
            raw.size.height == Self::rows_in(data@.len() as int, width as int, bit_depth),
            width == 0 ==> raw.size.width == 0 && raw.data@.len() == 0,
            width != 0 ==> raw.size.width == width && raw.data@ == data@,
            raw.well_formed(),
    {
        let bits: u64 = (bit_depth as u64) * (width as u64);
        let row_bytes: u64 = bits / 8 + if bits % 8 > 0 {
            1u64
        } else {
            0u64
        };
        if row_bytes == 0 {
            let empty: &'a [u8] = crate::image::empty_tail(data);
            return ImageRaw { data: empty, size: Size::zero(), bit_depth };
        }
        let rows: u64 = (data.len() as u64) / row_bytes;
        let height: u32 = (rows % 0x1_0000_0000u64) as u32;
        proof {
            let bpr = bytes_per_row(width as int, bit_depth);
            assert(bits as int == (width as int) * (bit_depth as int)) by (nonlinear_arith)
                requires
                    bits as int == (bit_depth as int) * (width as int),
            ;
            assert(row_bytes as int == bpr);
            lemma_fundamental_div_mod(data@.len() as int, bpr);
            vstd::arithmetic::div_mod::lemma_mod_pos_bound(data@.len() as int, bpr);
            assert(bpr * (height as int) <= bpr * (rows as int)) by (nonlinear_arith)
                requires
                    0 <= height as int <= rows as int,
                    bpr > 0,
            ;
        }
        ImageRaw { data, size: Size { width, height }, bit_depth }
    }

    /// Whether the data holds every row.
    pub open spec fn well_formed(&self) -> bool {
        &&& is_bit_depth(self.bit_depth)
        &&& bytes_per_row(self.size.width as int, self.bit_depth) * self.size.height
            <= self.data@.len()
    }

    /// The image's area, with its first pixel at the origin.
    pub open spec fn spec_bounding_box(&self) -> Rectangle {
        Rectangle { top_left: Point { x: 0, y: 0 }, size: self.size }
    }

    pub fn bounding_box(&self) -> (r: Rectangle)
        ensures
            r == self.spec_bounding_box(),
    {
        Rectangle { top_left: Point::zero(), size: self.size }
    }

    /// The gray level of the pixel in column `x` of row `y`.
    pub fn level(&self, x: u32, y: u32) -> (level: u8)
        requires
            self.well_formed(),
            x < self.size.width,
            y < self.size.height,
        ensures
            level == pixel_level(self.data@, self.size.width as int, self.bit_depth, x as int, y as int),
    {
        let per_byte: u32 = if self.bit_depth == 1 {
            8
        } else if self.bit_depth == 2 {
            4
        } else if self.bit_depth == 4 {
            2
        } else {
            1
        };
        let row_bytes: u32 = self.size.width / per_byte + if self.size.width % per_byte != 0 {
            1u32
        } else {
            0u32
        };
        let ghost bpr = bytes_per_row(self.size.width as int, self.bit_depth);
        proof {
            assert(row_bytes as int == bpr);
            assert((y as int) * bpr + bpr <= bpr * (self.size.height as int))
                by (nonlinear_arith)
                requires
                    0 <= y as int,
                    (y as int) < self.size.height as int,
                    bpr >= 0,
            ;
            assert(0 <= (y as int) * bpr) by (nonlinear_arith)
                requires
                    0 <= y as int,
                    bpr >= 0,
            ;
        }
        let len: usize = self.data.len();
        proof {
            assert((y as int) * (row_bytes as int) + (x as int) / (per_byte as int) < len);
        }
        let index: usize = (y as usize) * (row_bytes as usize) + (x / per_byte) as usize;
        let byte: u8 = self.data[index];
        if self.bit_depth == 8 {
            proof {
                assert(x as int % 1 == 0);
                assert(x as int / 1 == x as int);
                assert(byte as int / 1 == byte as int);
                assert(pixels_per_byte(self.bit_depth) == 1);
                assert(8 - 8 * (0 + 1) == 0);
                assert(place_weight(self.bit_depth, 0) == 1);
                assert(max_level(self.bit_depth) + 1 == 256);
                assert(bpr == self.size.width);
            }
            return byte;
        }
        let weight: u8 = place_weight_of(self.bit_depth, x % per_byte);
        let levels: u8 = if self.bit_depth == 1 {
            2
        } else if self.bit_depth == 2 {
            4
        } else {
            16
        };
        (byte / weight) % levels
    }

    /// The gray levels of an area of the image, row by row.
    pub fn levels_of(&self, left: u32, top: u32, width: u32, height: u32) -> (levels: Vec<u8>)
        requires
            self.well_formed(),
            width == 0 || height == 0 || (left + width <= self.size.width && top + height
                <= self.size.height),
        ensures
            levels@ == area_levels(
                self.data@,
                self.size.width as int,
                self.bit_depth,
                left as int,
                top as int,
                width as int,
                height as int,
            ),
    {
        let mut levels: Vec<u8> = Vec::new();
        let ghost w = width as int;
        let ghost target = area_levels(
            self.data@,
            self.size.width as int,
            self.bit_depth,
            left as int,
            top as int,
            width as int,
            height as int,
        );
        if width == 0 || height == 0 {
            proof {
                assert((width as int) * (height as int) == 0) by (nonlinear_arith)
                    requires
                        width == 0 || height == 0,
                ;
                assert(levels@ =~= target);
            }
            return levels;
        }
        let mut row: u32 = 0;
        while row < height
            invariant
                self.well_formed(),
                width > 0,
                w == width as int,
                left + width <= self.size.width,
                top + height <= self.size.height,
                row <= height,
                target == area_levels(
                    self.data@,
                    self.size.width as int,
                    self.bit_depth,
                    left as int,
                    top as int,
                    width as int,
                    height as int,
                ),
                levels@.len() == (row as int) * w,
                forall|i: int| 0 <= i < levels@.len() ==> levels@[i] == #[trigger] target[i],
                target.len() == w * (height as int),
            decreases height - row,
        {
            let mut col: u32 = 0;
            while col < width
                invariant
                    self.well_formed(),
                    width > 0,
                    w == width as int,
                    left + width <= self.size.width,
                    top + height <= self.size.height,
                    row < height,
                    col <= width,
                    target == area_levels(
                        self.data@,
                        self.size.width as int,
                        self.bit_depth,
                        left as int,
                        top as int,
                        width as int,
                        height as int,
                    ),
                    levels@.len() == (row as int) * w + col,
                    forall|i: int| 0 <= i < levels@.len() ==> levels@[i] == #[trigger] target[i],
                    target.len() == w * (height as int),
                decreases width - col,
            {
                let level = self.level(left + col, top + row);
                proof {
                    let i = (row as int) * w + col;
                    lemma_fundamental_div_mod_converse(i, w, row as int, col as int);
                    assert(i < w * (height as int)) by (nonlinear_arith)
                        requires
                            i == (row as int) * w + col,
                            0 <= col as int,
                            (col as int) < w,
                            0 <= row as int,
                            (row as int) < height as int,
                    ;
                    assert(left + i % w == left + col);
                    assert(top + i / w == top + row);
                    assert(target[i] == pixel_level(
                        self.data@,
                        self.size.width as int,
                        self.bit_depth,
                        left + i % w,
                        top + i / w,
                    ) as u8);
                    assert(target[i] == level);
                }
                levels.push(level);
                col = col + 1;
            }
            proof {
                assert((row as int + 1) * w == (row as int) * w + w) by (nonlinear_arith);
            }
            row = row + 1;
        }
        proof {
            assert((height as int) * w == w * (height as int)) by (nonlinear_arith);
            assert(levels@ =~= target);
        }
        levels
    }
}

/// The empty end of a slice.
fn empty_tail<'a>(data: &'a [u8]) -> (tail: &'a [u8])
    ensures
        tail@.len() == 0,
{
    vstd::slice::slice_subrange(data, data.len(), data.len())
}

impl<'a> Colors for ImageRaw<'a> {
    open spec fn wf(&self) -> bool {
        self.well_formed()
    }

    open spec fn spec_colors(&self) -> Seq<u8> {
        area_levels(
            self.data@,
            self.size.width as int,
            self.bit_depth,
            0,
            0,
            self.size.width as int,
            self.size.height as int,
        )
    }

    fn colors(&self) -> (levels: Vec<u8>) {
        self.levels_of(0, 0, self.size.width, self.size.height)
    }
}

impl<'a> ImageDrawableExt for ImageRaw<'a> {
    open spec fn spec_sub_image(&self, area: &Rectangle) -> Rectangle {
        self.spec_bounding_box().spec_intersection(area)
    }

    open spec fn spec_is_parent_of(&self, sub: &SubImage<'_>) -> bool {
        sub.parent.data@ == self.data@ && sub.parent.size == self.size && sub.parent.bit_depth
            == self.bit_depth
    }

    fn sub_image(&self, area: &Rectangle) -> (sub: SubImage<'_>) {
        let inner = self.bounding_box().intersection(area);
        proof {
            lemma_sub_image_lies_within(*self, *area);
        }
        SubImage { parent: *self, area: inner }
    }
}

impl<'a> SubImage<'a> {
    /// Whether the part holds no pixel or lies in its image.
    pub open spec fn lies_within(&self) -> bool {
        self.area.is_zero_sized() || (self.area.top_left.x >= 0 && self.area.top_left.y >= 0
            && self.area.top_left.x + self.area.size.width <= self.parent.size.width
            && self.area.top_left.y + self.area.size.height <= self.parent.size.height)
    }
}

/// What an image's area has in common with any rectangle holds no pixel or lies in the image.
pub proof fn lemma_sub_image_lies_within(raw: ImageRaw, area: Rectangle)
    ensures
        (SubImage { parent: raw, area: raw.spec_sub_image(&area) }).lies_within(),
{
}

impl<'a> Colors for SubImage<'a> {
    open spec fn wf(&self) -> bool {
        self.parent.well_formed() && self.lies_within()
    }

    open spec fn spec_colors(&self) -> Seq<u8> {
        area_levels(
            self.parent.data@,
            self.parent.size.width as int,
            self.parent.bit_depth,
            self.area.top_left.x as int,
            self.area.top_left.y as int,
            self.area.size.width as int,
            self.area.size.height as int,
        )
    }

    fn colors(&self) -> (levels: Vec<u8>) {
        if self.area.size.width == 0 || self.area.size.height == 0 {
            proof {
                assert((self.area.size.width as int) * (self.area.size.height as int) == 0)
                    by (nonlinear_arith)
                    requires
                        self.area.size.width == 0 || self.area.size.height == 0,
                ;
                assert(self.spec_colors() =~= Seq::<u8>::empty());
            }
            return Vec::new();
        }
        self.parent.levels_of(
            self.area.top_left.x as u32,
            self.area.top_left.y as u32,
            self.area.size.width,
            self.area.size.height,
        )
    }
}

impl<T> Image<T> {
    pub fn new(image_drawable: T, offset: Point) -> (image: Self)
        ensures
            image.image_drawable == image_drawable,
            image.offset == offset,
    {
        Image { image_drawable, offset }
    }
}

impl<T: Colors> Colors for Image<T> {
    open spec fn wf(&self) -> bool {
        self.image_drawable.wf()
    }

    open spec fn spec_colors(&self) -> Seq<u8> {
        self.image_drawable.spec_colors()
    }

    fn colors(&self) -> (levels: Vec<u8>) {
        self.image_drawable.colors()
    }
}

impl<'a> Image<ImageRaw<'a>> {
    /// The image of no pixels at the origin.
    pub fn null(data: &'a [u8]) -> (image: Self)
        ensures
            image.image_drawable.size == (Size { width: 0, height: 0 }),
            image.image_drawable.data@.len() == 0,
            image.image_drawable.bit_depth == 8,
            image.offset == (Point { x: 0, y: 0 }),
    {
        Image { image_drawable: ImageRaw::new(data, 0, 8), offset: Point::zero() }
    }

    /// The area of the grid that the image covers.
    pub open spec fn spec_bounding_box(&self) -> Rectangle {
        self.image_drawable.spec_bounding_box().spec_translate(self.offset)
    }

    pub fn bounding_box(&self) -> (r: Rectangle)
        ensures
            r == self.spec_bounding_box(),
    {
        self.image_drawable.bounding_box().translate(self.offset)
    }

    /// The area of the image that lies in `area` of the grid, in the image's own
    /// coordinates.
    pub open spec fn spec_clip(&self, area: &Rectangle) -> Rectangle {
        self.image_drawable.spec_bounding_box().spec_intersection(
            &area.spec_translate(
                Point {
                    x: to_i32_clamped(-(self.offset.x as int)),
                    y: to_i32_clamped(-(self.offset.y as int)),
                },
            ),
        )
    }

    /// The part of the image that lies in `area` of the grid, placed where it lies.
    pub open spec fn spec_clipped(&self, area: &Rectangle) -> Image<SubImage<'a>> {
        Image {
            image_drawable: SubImage {
                parent: self.image_drawable,
                area: self.image_drawable.spec_sub_image(&self.spec_clip(area)),
            },
            offset: self.spec_clip(area).spec_translate(self.offset).top_left,
        }
    }

    pub fn clipped(&self, area: &Rectangle) -> (part: Image<SubImage<'a>>)
        ensures
            part == self.spec_clipped(area),
            part.image_drawable.lies_within(),
    {
        let back = Point::new(neg_clamped(self.offset.x), neg_clamped(self.offset.y));
        let area = area.translate(back);
        let area = self.image_drawable.bounding_box().intersection(&area);
        let inner = self.image_drawable.bounding_box().intersection(&area);
        proof {
            lemma_sub_image_lies_within(self.image_drawable, area);
        }
        Image {
            image_drawable: SubImage { parent: self.image_drawable, area: inner },
            offset: area.translate(self.offset).top_left,
        }
    }

    /// The image, moved by `x` and `y`.
    pub fn add_offset(&self, x: i32, y: i32) -> (image: Self)
        ensures
            image.image_drawable == self.image_drawable,
            image.offset.x == to_i32_clamped(self.offset.x + x),
            image.offset.y == to_i32_clamped(self.offset.y + y),
    {
        Image {
            image_drawable: self.image_drawable,
            offset: Point::new(add_clamped(self.offset.x, x), add_clamped(self.offset.y, y)),
        }
    }

    /// The image, with its offset multiplied by `x` and `y`.
    pub fn mul_offset(&self, x: i32, y: i32) -> (image: Self)
        ensures
            image.image_drawable == self.image_drawable,
            image.offset.x == to_i32_clamped(self.offset.x * x),
            image.offset.y == to_i32_clamped(self.offset.y * y),
    {
        Image {
            image_drawable: self.image_drawable,
            offset: Point::new(mul_clamped(self.offset.x, x), mul_clamped(self.offset.y, y)),
        }
    }
}

impl<'a> ImageSet<'a> {
    /// Whether the set has an image for every position: one for each is at least one.
    pub open spec fn wf(&self) -> bool {
        match self {
            ImageSet::Repeated(_) => true,
            ImageSet::Array(images) => images@.len() > 0,
        }
    }

    /// The image of position `index`; positions are counted modulo their number.
    pub open spec fn spec_get(&self, index: int) -> Image<ImageRaw<'a>> {
        match self {
            ImageSet::Repeated(image) => *image,
            ImageSet::Array(images) => images@[index % (images@.len() as int)],
        }
    }

    pub fn get(&self, index: usize) -> (image: &Image<ImageRaw<'a>>)
        requires
            self.wf(),
        ensures
            *image == self.spec_get(index as int),
    {
        match self {
            ImageSet::Repeated(image) => image,
            ImageSet::Array(images) => &images[index % images.len()],
        }
    }
}

/// Two images cut to the area that both cover, to be blended there.
#[derive(Debug)]
pub struct ImageMix<'a, 'b, 'c, T: Copy, const N: usize> {
    pub first: Image<SubImage<'a>>,
    pub second: Image<SubImage<'b>>,
    pub colormap: &'c Colormap<T, N>,
    pub area: Rectangle,
}

/// What fills the area of a blend.
#[derive(Debug)]
pub enum MixFill<T> {
    /// One color for every pixel.
    Solid(T),
    /// A color for each pixel, row by row.
    Contiguous(Vec<T>),
}

/// Blending with another image.
pub trait Mixed<'a> {
    spec fn spec_mixed_area(&self, other: &Image<ImageRaw<'_>>) -> Rectangle;

    /// The part of the image that lies in `area`.
    spec fn spec_part(&self, area: &Rectangle) -> Image<SubImage<'a>>;

    /// The blend of the image and `other` on the area that both cover.
    fn mixed<'b, 'c, T: Copy, const N: usize>(
        &self,
        other: &Image<ImageRaw<'b>>,
        colormap: &'c Colormap<T, N>,
    ) -> (mix: ImageMix<'a, 'b, 'c, T, N>)
        ensures
            mix.area == self.spec_mixed_area(other),
            mix.colormap == colormap,
            mix.first.image_drawable.lies_within(),
            mix.second.image_drawable.lies_within(),
            mix.first == self.spec_part(&mix.area),
            mix.second == other.spec_clipped(&mix.area),
    ;
}

impl<'a> Mixed<'a> for Image<ImageRaw<'a>> {
    open spec fn spec_mixed_area(&self, other: &Image<ImageRaw<'_>>) -> Rectangle {
        self.spec_bounding_box().spec_intersection(&other.spec_bounding_box())
    }

    open spec fn spec_part(&self, area: &Rectangle) -> Image<SubImage<'a>> {
        self.spec_clipped(area)
    }

    fn mixed<'b, 'c, T: Copy, const N: usize>(
        &self,
        other: &Image<ImageRaw<'b>>,
        colormap: &'c Colormap<T, N>,
    ) -> (mix: ImageMix<'a, 'b, 'c, T, N>) {
        let area = self.bounding_box().intersection(&other.bounding_box());
        let first = self.clipped(&area);
        let second = other.clipped(&area);
        ImageMix { first, second, colormap, area }
    }
}

/// The blend of the colors of two sequences of gray levels, pair by pair, as far as both
/// go.
pub open spec fn blended<T: Screen>(
    first: Seq<u8>,
    second: Seq<u8>,
    colors: Seq<T>,
    n: int,
) -> Seq<T> {
    Seq::new(
        if first.len() <= second.len() {
            first.len()
        } else {
            second.len()
        },
        |i: int|
            colors[first[i] as int % n].spec_screen(
                colors[second[i] as int % n],
                colors[0],
                colors[n - 1],
            ),
    )
}

impl<'a, 'b, 'c, T: Copy + Screen + Dark, const N: usize> ImageMix<'a, 'b, 'c, T, N> {
    /// What fills the blend's area: the one color of a ramp whose ends are the same, or
    /// else the screen blend of the two images' colors, pixel by pixel.
    pub fn fill(&self) -> (fill: MixFill<T>)
        requires
            self.colormap.wf(),
            self.first.wf(),
            self.second.wf(),
        ensures
            self.colormap.colors@[0] == self.colormap.colors@[N - 1] ==> fill == MixFill::Solid(
                self.colormap.colors@[0],
            ),
            self.colormap.colors@[0] != self.colormap.colors@[N - 1] ==> (match fill {
                MixFill::Contiguous(colors) => colors@ == blended(
                    self.first.spec_colors(),
                    self.second.spec_colors(),
                    self.colormap.colors@,
                    N as int,
                ),
                MixFill::Solid(_) => false,
            }),
    {
        let start = self.colormap.first();
        let end = self.colormap.last();
        if start.same(&end) {
            return MixFill::Solid(start);
        }
        let first = self.first.colors();
        let second = self.second.colors();
        let count: usize = if first.len() <= second.len() {
            first.len()
        } else {
            second.len()
        };
        let ghost target = blended(first@, second@, self.colormap.colors@, N as int);
        let mut colors: Vec<T> = Vec::new();
        let mut i: usize = 0;
        while i < count
            invariant
                self.colormap.wf(),
                start == self.colormap.colors@[0],
                end == self.colormap.colors@[N - 1],
                count <= first@.len(),
                count <= second@.len(),
                target.len() == count,
                target == blended(first@, second@, self.colormap.colors@, N as int),
                i <= count,
                colors@.len() == i,
                forall|k: int| 0 <= k < i ==> colors@[k] == #[trigger] target[k],
            decreases count - i,
        {
            let one = self.colormap.get(first[i]);
            let other = self.colormap.get(second[i]);
            colors.push(one.screen(other, start, end));
            i = i + 1;
        }
        proof {
            assert(colors@ =~= target);
        }
        MixFill::Contiguous(colors)
    }
}

} // verus!
