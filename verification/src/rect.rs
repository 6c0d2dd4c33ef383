//! Points, sizes and rectangles on the pixel grid, and the cuts that the renderer makes to
//! rectangles. Every operation clamps at the ends of the coordinate range.

use vstd::prelude::*;

verus! {

/// A position on the pixel grid. `y` grows downwards.
#[derive(Clone, Copy, Debug, PartialEq, Eq, Structural, Hash)]
pub struct Point {
    pub x: i32,
    pub y: i32,
}

/// The extent of an area in pixels.
#[derive(Clone, Copy, Debug, PartialEq, Eq, Structural, Hash)]
pub struct Size {
    pub width: u32,
    pub height: u32,
}

/// An area of the pixel grid: the pixels from `top_left`, `size.width` to the right and
/// `size.height` down.
#[derive(Clone, Copy, Debug, PartialEq, Eq, Structural, Hash)]
pub struct Rectangle {
    pub top_left: Point,
    pub size: Size,
}

/// `v` clamped to the range of `i32`.
pub open spec fn to_i32_clamped(v: int) -> i32 {
    if v < i32::MIN {
        i32::MIN
    } else if v > i32::MAX {
        i32::MAX
    } else {
        v as i32
    }
}

/// `v` clamped to the range of `u32`.
pub open spec fn to_u32_clamped(v: int) -> u32 {
    if v < 0 {
        0
    } else if v > u32::MAX {
        u32::MAX
    } else {
        v as u32
    }
}

/// `v` as an extent, which is zero where `v` is negative.
pub open spec fn extent_of(v: i32) -> u32 {
    if v < 0 {
        0
    } else {
        v as u32
    }
}

pub open spec fn max_i32(a: i32, b: i32) -> i32 {
    if a >= b {
        a
    } else {
        b
    }
}

pub open spec fn min_i32(a: i32, b: i32) -> i32 {
    if a <= b {
        a
    } else {
        b
    }
}

pub open spec fn max_u32(a: u32, b: u32) -> u32 {
    if a >= b {
        a
    } else {
        b
    }
}

pub open spec fn min_u32(a: u32, b: u32) -> u32 {
    if a <= b {
        a
    } else {
        b
    }
}

/// `a + b`, clamped.
pub fn add_clamped(a: i32, b: i32) -> (r: i32)
    ensures
        r == to_i32_clamped(a + b),
{
    let wide: i64 = a as i64 + b as i64;
    if wide < -2147483648i64 {
        i32::MIN
    } else if wide > 2147483647i64 {
        i32::MAX
    } else {
        wide as i32
    }
}

/// `a - b`, clamped.
pub fn sub_clamped(a: i32, b: i32) -> (r: i32)
    ensures
        r == to_i32_clamped(a - b),
{
    let wide: i64 = a as i64 - b as i64;
    if wide < -2147483648i64 {
        i32::MIN
    } else if wide > 2147483647i64 {
        i32::MAX
    } else {
        wide as i32
    }
}

/// `a * b`, clamped.
pub fn mul_clamped(a: i32, b: i32) -> (r: i32)
    ensures
        r == to_i32_clamped(a * b),
{
    proof {
        assert(-0x4000_0000_0000_0000 <= (a as int) * (b as int) <= 0x4000_0000_0000_0000)
            by (nonlinear_arith)
            requires
                -0x8000_0000 <= a as int <= 0x7fff_ffff,
                -0x8000_0000 <= b as int <= 0x7fff_ffff,
        ;
    }
    let wide: i64 = (a as i64) * (b as i64);
    if wide < -2147483648i64 {
        i32::MIN
    } else if wide > 2147483647i64 {
        i32::MAX
    } else {
        wide as i32
    }
}

/// `-a`, clamped.
pub fn neg_clamped(a: i32) -> (r: i32)
    ensures
        r == to_i32_clamped(-a),
{
    if a == i32::MIN {
        i32::MAX
    } else {
        -a
    }
}

/// The coordinate `extent` pixels after `a`, clamped.
pub fn add_extent(a: i32, extent: u32) -> (r: i32)
    ensures
        r == to_i32_clamped(a + extent),
{
    let wide: i64 = a as i64 + extent as i64;
    if wide > 2147483647i64 {
        i32::MAX
    } else {
        wide as i32
    }
}

/// The extent from coordinate `from` to coordinate `to`: zero where `to` is not after
/// `from`, and at most `i32::MAX`.
pub fn extent_between(from: i32, to: i32) -> (r: u32)
    ensures
        r == extent_of(to_i32_clamped(to - from)),
{
    let d = sub_clamped(to, from);
    if d < 0 {
        0
    } else {
        d as u32
    }
}

pub fn larger_i32(a: i32, b: i32) -> (r: i32)
    ensures
        r == max_i32(a, b),
{
    if a >= b {
        a
    } else {
        b
    }
}

pub fn smaller_i32(a: i32, b: i32) -> (r: i32)
    ensures
        r == min_i32(a, b),
{
    if a <= b {
        a
    } else {
        b
    }
}

pub fn larger_u32(a: u32, b: u32) -> (r: u32)
    ensures
        r == max_u32(a, b),
{
    if a >= b {
        a
    } else {
        b
    }
}

pub fn smaller_u32(a: u32, b: u32) -> (r: u32)
    ensures
        r == min_u32(a, b),
{
    if a <= b {
        a
    } else {
        b
    }
}

impl Point {
    pub fn new(x: i32, y: i32) -> (r: Point)
        ensures
            r == (Point { x, y }),
    {
        Point { x, y }
    }

    pub fn zero() -> (r: Point)
        ensures
            r == (Point { x: 0, y: 0 }),
    {
        Point { x: 0, y: 0 }
    }
}

impl Size {
    pub fn new(width: u32, height: u32) -> (r: Size)
        ensures
            r == (Size { width, height }),
    {
        Size { width, height }
    }

    pub fn zero() -> (r: Size)
        ensures
            r == (Size { width: 0, height: 0 }),
    {
        Size { width: 0, height: 0 }
    }
}

impl Rectangle {
    pub fn new(top_left: Point, size: Size) -> (r: Rectangle)
        ensures
            r == (Rectangle { top_left, size }),
    {
        Rectangle { top_left, size }
    }

    /// The empty rectangle at the origin.
    pub open spec fn spec_zero() -> Rectangle {
        Rectangle { top_left: Point { x: 0, y: 0 }, size: Size { width: 0, height: 0 } }
    }

    pub fn zero() -> (r: Rectangle)
        ensures
            r == Self::spec_zero(),
    {
        Rectangle { top_left: Point::zero(), size: Size::zero() }
    }

    /// Whether the rectangle holds no pixel.
    pub open spec fn is_zero_sized(&self) -> bool {
        self.size.width == 0 || self.size.height == 0
    }

    /// Whether `point` is one of the rectangle's pixels.
    pub open spec fn contains(&self, point: Point) -> bool {
        &&& !self.is_zero_sized()
        &&& self.top_left.x <= point.x < self.top_left.x + self.size.width
        &&& self.top_left.y <= point.y < self.top_left.y + self.size.height
    }

    /// Whether the rectangle is at most `i32::MAX` pixels wide and high, and the coordinate
    /// after its last column, and the one after its last row, are coordinates of the grid.
    pub open spec fn fits(&self) -> bool {
        &&& self.size.width <= i32::MAX
        &&& self.size.height <= i32::MAX
        &&& self.top_left.x + self.size.width <= i32::MAX
        &&& self.top_left.y + self.size.height <= i32::MAX
    }

    /// The extent `extent` from the coordinate `from` on, as far as it fits.
    pub open spec fn fitted_extent(from: i32, extent: u32) -> u32 {
        if from >= 0 {
            min_u32(extent, (i32::MAX - from) as u32)
        } else {
            min_u32(extent, i32::MAX as u32)
        }
    }

    /// The rectangle without the part that does not fit.
    pub open spec fn spec_fitted(&self) -> Rectangle {
        Rectangle {
            top_left: self.top_left,
            size: Size {
                width: Self::fitted_extent(self.top_left.x, self.size.width),
                height: Self::fitted_extent(self.top_left.y, self.size.height),
            },
        }
    }

    pub fn fitted(&self) -> (r: Rectangle)
        ensures
            r == self.spec_fitted(),
            r.fits(),
    {
        let room_x: u32 = if self.top_left.x >= 0 {
            (i32::MAX - self.top_left.x) as u32
        } else {
            i32::MAX as u32
        };
        let room_y: u32 = if self.top_left.y >= 0 {
            (i32::MAX - self.top_left.y) as u32
        } else {
            i32::MAX as u32
        };
        Rectangle {
            top_left: self.top_left,
            size: Size {
                width: smaller_u32(self.size.width, room_x),
                height: smaller_u32(self.size.height, room_y),
            },
        }
    }

    /// The rectangle moved by `by`, clamped.
    pub open spec fn spec_translate(&self, by: Point) -> Rectangle {
        Rectangle {
            top_left: Point {
                x: to_i32_clamped(self.top_left.x + by.x),
                y: to_i32_clamped(self.top_left.y + by.y),
            },
            size: self.size,
        }
    }

    pub fn translate(&self, by: Point) -> (r: Rectangle)
        ensures
            r == self.spec_translate(by),
    {
        Rectangle {
            top_left: Point {
                x: add_clamped(self.top_left.x, by.x),
                y: add_clamped(self.top_left.y, by.y),
            },
            size: self.size,
        }
    }

    /// What two rectangles that fit have in common. Two rectangles that hold pixels have the
    /// pixels of both in common, or else the empty rectangle at the origin. An empty rectangle
    /// whose corner is a pixel of the other one is itself what they have in common.
    pub open spec fn common(a: Rectangle, b: Rectangle) -> Rectangle {
        if !a.is_zero_sized() && !b.is_zero_sized() {
            let left = max_i32(a.top_left.x, b.top_left.x);
            let top = max_i32(a.top_left.y, b.top_left.y);
            let right = min_i32(
                (a.top_left.x + a.size.width) as i32,
                (b.top_left.x + b.size.width) as i32,
            );
            let bottom = min_i32(
                (a.top_left.y + a.size.height) as i32,
                (b.top_left.y + b.size.height) as i32,
            );
            if left < right && top < bottom {
                Rectangle {
                    top_left: Point { x: left, y: top },
                    size: Size { width: (right - left) as u32, height: (bottom - top) as u32 },
                }
            } else {
                Self::spec_zero()
            }
        } else if a.is_zero_sized() && !b.is_zero_sized() {
            if b.contains(a.top_left) {
                a
            } else {
                Self::spec_zero()
            }
        } else if !a.is_zero_sized() && b.is_zero_sized() {
            if a.contains(b.top_left) {
                b
            } else {
                Self::spec_zero()
            }
        } else {
            Self::spec_zero()
        }
    }

    /// What the two rectangles have in common on the grid.
    pub open spec fn spec_intersection(&self, other: &Rectangle) -> Rectangle {
        Self::common(self.spec_fitted(), other.spec_fitted())
    }

    /// What the two rectangles have in common on the grid.
    pub fn intersection(&self, other: &Rectangle) -> (r: Rectangle)
        ensures
            r == self.spec_intersection(other),
    {
        let a = self.fitted();
        let b = other.fitted();
        intersection_of(&a, &b)
    }

    /// The coordinate after the rectangle's last column, clamped.
    pub open spec fn spec_right(&self) -> i32 {
        to_i32_clamped(self.top_left.x + self.size.width)
    }

    /// The coordinate after the rectangle's last row, clamped.
    pub open spec fn spec_bottom(&self) -> i32 {
        to_i32_clamped(self.top_left.y + self.size.height)
    }

    pub fn right(&self) -> (r: i32)
        ensures
            r == self.spec_right(),
    {
        add_extent(self.top_left.x, self.size.width)
    }

    pub fn bottom(&self) -> (r: i32)
        ensures
            r == self.spec_bottom(),
    {
        add_extent(self.top_left.y, self.size.height)
    }
}

/// Calls `Rectangle::intersection` of embedded-graphics on two rectangles that fit, so that
/// its corner arithmetic stays in range: it takes each extent as an `i32` and adds it to
/// the corner. The contract restates that function: for two
/// rectangles that hold pixels, the rectangle from the larger of the two top-left corners to
/// the smaller of the two bottom-right corners if their columns and their rows overlap; for
/// an empty rectangle and one that holds pixels, the empty one if its corner lies in the
/// other; in every other case the empty rectangle at the origin.
#[verifier::external_body]
fn intersection_of(a: &Rectangle, b: &Rectangle) -> (r: Rectangle)
    requires
        a.fits(),
        b.fits(),
    ensures
        r == Rectangle::common(*a, *b),
{
    let first = embedded_graphics::primitives::Rectangle::new(
        embedded_graphics::geometry::Point::new(a.top_left.x, a.top_left.y),
        embedded_graphics::geometry::Size::new(a.size.width, a.size.height),
    );
    let second = embedded_graphics::primitives::Rectangle::new(
        embedded_graphics::geometry::Point::new(b.top_left.x, b.top_left.y),
        embedded_graphics::geometry::Size::new(b.size.width, b.size.height),
    );
    let out = first.intersection(&second);
    Rectangle {
        top_left: Point { x: out.top_left.x, y: out.top_left.y },
        size: Size { width: out.size.width, height: out.size.height },
    }
}

/// The cuts that the renderer makes to a rectangle.
pub trait RectangleExt: Sized {
    spec fn spec_left_half(&self) -> Self;

    spec fn spec_right_half(&self) -> Self;

    spec fn spec_left_of(&self, other: &Self) -> Self;

    spec fn spec_right_of(&self, other: &Self) -> Self;

    spec fn spec_above(&self, other: &Self) -> Self;

    spec fn spec_below(&self, other: &Self) -> Self;

    spec fn spec_y_extend(&self, top: i32, bottom: i32) -> Self;

    spec fn spec_y_reduce(&self, top: i32, bottom: i32) -> Self;

    spec fn spec_indent_to(&self, right: i32) -> Self;

    spec fn spec_extrude_to(&self, right: i32) -> Self;

    /// The left half of the rectangle; of an odd width, the smaller half.
    fn left_half(&self) -> (r: Self)
        ensures
            r == self.spec_left_half(),
    ;

    /// What [`left_half`](Self::left_half) leaves of the rectangle.
    fn right_half(&self) -> (r: Self)
        ensures
            r == self.spec_right_half(),
    ;

    /// The part of the rectangle to the left of `other`'s left edge.
    fn left_of(&self, other: &Self) -> (r: Self)
        ensures
            r == self.spec_left_of(other),
    ;

    /// The part of the rectangle from `other`'s right edge on.
    fn right_of(&self, other: &Self) -> (r: Self)
        ensures
            r == self.spec_right_of(other),
    ;

    /// The part of the rectangle above `other`'s top edge.
    fn above(&self, other: &Self) -> (r: Self)
        ensures
            r == self.spec_above(other),
    ;

    /// The part of the rectangle from `other`'s bottom edge on.
    fn below(&self, other: &Self) -> (r: Self)
        ensures
            r == self.spec_below(other),
    ;

    /// The rectangle, made to start at `top` if that is higher up, and to reach `bottom` if
    /// that is further down.
    fn y_extend(&self, top: i32, bottom: i32) -> (r: Self)
        ensures
            r == self.spec_y_extend(top, bottom),
    ;

    /// The rectangle, made to start at `top` if that is further down, and to end at `bottom`
    /// if that is higher up.
    fn y_reduce(&self, top: i32, bottom: i32) -> (r: Self)
        ensures
            r == self.spec_y_reduce(top, bottom),
    ;

    /// The part of the rectangle from the column `right` on.
    fn indent_to(&self, right: i32) -> (r: Self)
        ensures
            r == self.spec_indent_to(right),
    ;

    /// The rectangle, made to reach the column `right` if that is further to the right.
    fn extrude_to(&self, right: i32) -> (r: Self)
        ensures
            r == self.spec_extrude_to(right),
    ;
}

impl RectangleExt for Rectangle {
    open spec fn spec_left_half(&self) -> Rectangle {
        Rectangle {
            top_left: self.top_left,
            size: Size { width: self.size.width / 2, height: self.size.height },
        }
    }

    open spec fn spec_right_half(&self) -> Rectangle {
        Rectangle {
            top_left: Point {
                x: to_i32_clamped(self.top_left.x + self.size.width / 2),
                y: self.top_left.y,
            },
            size: Size {
                width: (self.size.width - self.size.width / 2) as u32,
                height: self.size.height,
            },
        }
    }

    open spec fn spec_left_of(&self, other: &Rectangle) -> Rectangle {
        Rectangle {
            top_left: self.top_left,
            size: Size {
                width: min_u32(
                    self.size.width,
                    extent_of(to_i32_clamped(other.top_left.x - self.top_left.x)),
                ),
                height: self.size.height,
            },
        }
    }

    open spec fn spec_right_of(&self, other: &Rectangle) -> Rectangle {
        self.spec_indent_to(other.spec_right())
    }

    open spec fn spec_above(&self, other: &Rectangle) -> Rectangle {
        Rectangle {
            top_left: self.top_left,
            size: Size {
                width: self.size.width,
                height: min_u32(
                    self.size.height,
                    extent_of(to_i32_clamped(other.top_left.y - self.top_left.y)),
                ),
            },
        }
    }

    open spec fn spec_below(&self, other: &Rectangle) -> Rectangle {
        let bottom = other.spec_bottom();
        Rectangle {
            top_left: Point { x: self.top_left.x, y: max_i32(self.top_left.y, bottom) },
            size: Size {
                width: self.size.width,
                height: to_u32_clamped(
                    self.size.height - extent_of(to_i32_clamped(bottom - self.top_left.y)),
                ),
            },
        }
    }

    open spec fn spec_y_extend(&self, top: i32, bottom: i32) -> Rectangle {
        let start = min_i32(self.top_left.y, top);
        Rectangle {
            top_left: Point { x: self.top_left.x, y: start },
            size: Size {
                width: self.size.width,
                height: max_u32(
                    to_u32_clamped(
                        self.size.height + extent_of(to_i32_clamped(self.top_left.y - top)),
                    ),
                    extent_of(to_i32_clamped(bottom - start)),
                ),
            },
        }
    }

    open spec fn spec_y_reduce(&self, top: i32, bottom: i32) -> Rectangle {
        let start = max_i32(self.top_left.y, top);
        Rectangle {
            top_left: Point { x: self.top_left.x, y: start },
            size: Size {
                width: self.size.width,
                height: min_u32(self.size.height, extent_of(to_i32_clamped(bottom - start))),
            },
        }
    }

    open spec fn spec_indent_to(&self, right: i32) -> Rectangle {
        Rectangle {
            top_left: Point { x: max_i32(self.top_left.x, right), y: self.top_left.y },
            size: Size {
                width: to_u32_clamped(
                    self.size.width - extent_of(to_i32_clamped(right - self.top_left.x)),
                ),
                height: self.size.height,
            },
        }
    }

    open spec fn spec_extrude_to(&self, right: i32) -> Rectangle {
        Rectangle {
            top_left: self.top_left,
            size: Size {
                width: max_u32(
                    self.size.width,
                    extent_of(to_i32_clamped(right - self.top_left.x)),
                ),
                height: self.size.height,
            },
        }
    }

    fn left_half(&self) -> (r: Rectangle) {
        Rectangle {
            top_left: self.top_left,
            size: Size { width: self.size.width / 2, height: self.size.height },
        }
    }

    fn right_half(&self) -> (r: Rectangle) {
        let half: u32 = self.size.width / 2;
        Rectangle {
            top_left: Point { x: add_extent(self.top_left.x, half), y: self.top_left.y },
            size: Size { width: self.size.width - half, height: self.size.height },
        }
    }

    fn left_of(&self, other: &Rectangle) -> (r: Rectangle) {
        let width = extent_between(self.top_left.x, other.top_left.x);
        Rectangle {
            top_left: self.top_left,
            size: Size { width: smaller_u32(self.size.width, width), height: self.size.height },
        }
    }

    fn right_of(&self, other: &Rectangle) -> (r: Rectangle) {
        self.indent_to(other.right())
    }

    fn above(&self, other: &Rectangle) -> (r: Rectangle) {
        let height = extent_between(self.top_left.y, other.top_left.y);
        Rectangle {
            top_left: self.top_left,
            size: Size { width: self.size.width, height: smaller_u32(self.size.height, height) },
        }
    }

    fn below(&self, other: &Rectangle) -> (r: Rectangle) {
        let bottom = other.bottom();
        let cut = extent_between(self.top_left.y, bottom);
        Rectangle {
            top_left: Point { x: self.top_left.x, y: larger_i32(self.top_left.y, bottom) },
            size: Size { width: self.size.width, height: self.size.height.saturating_sub(cut) },
        }
    }

    fn y_extend(&self, top: i32, bottom: i32) -> (r: Rectangle) {
        let extent = extent_between(top, self.top_left.y);
        let raised = self.size.height.saturating_add(extent);
        let start = smaller_i32(self.top_left.y, top);
        let height = extent_between(start, bottom);
        Rectangle {
            top_left: Point { x: self.top_left.x, y: start },
            size: Size { width: self.size.width, height: larger_u32(raised, height) },
        }
    }

    fn y_reduce(&self, top: i32, bottom: i32) -> (r: Rectangle) {
        let start = larger_i32(self.top_left.y, top);
        let height = extent_between(start, bottom);
        Rectangle {
            top_left: Point { x: self.top_left.x, y: start },
            size: Size { width: self.size.width, height: smaller_u32(self.size.height, height) },
        }
    }

    fn indent_to(&self, right: i32) -> (r: Rectangle) {
        let cut = extent_between(self.top_left.x, right);
        Rectangle {
            top_left: Point { x: larger_i32(self.top_left.x, right), y: self.top_left.y },
            size: Size { width: self.size.width.saturating_sub(cut), height: self.size.height },
        }
    }

    fn extrude_to(&self, right: i32) -> (r: Rectangle) {
        let width = extent_between(self.top_left.x, right);
        Rectangle {
            top_left: self.top_left,
            size: Size { width: larger_u32(self.size.width, width), height: self.size.height },
        }
    }
}

/// The two halves of a rectangle have its width between them, and the right half starts
/// where the left half ends, wherever that column is on the grid.
pub proof fn lemma_halves_cover(r: Rectangle)
    requires
        r.fits(),
    ensures
        r.spec_left_half().size.width + r.spec_right_half().size.width == r.size.width,
        r.spec_right_half().top_left.x == r.spec_left_half().spec_right(),
        r.spec_right_half().spec_right() == r.spec_right(),
{
}

/// What lies to the left of `other`, and what lies from `other`'s left edge on, have the
/// rectangle's width between them.
pub proof fn lemma_left_of_and_indent_cover(r: Rectangle, other: Rectangle)
    requires
        r.fits(),
    ensures
        r.spec_left_of(&other).size.width + r.spec_indent_to(other.top_left.x).size.width
            == r.size.width,
        r.spec_left_of(&other).spec_right() <= r.spec_indent_to(other.top_left.x).top_left.x,
{
}

/// What lies above `other`, and what lies from its bottom edge on, are parts of the
/// rectangle that do not meet `other`'s rows.
pub proof fn lemma_above_and_below_miss(r: Rectangle, other: Rectangle)
    requires
        r.fits(),
        other.fits(),
    ensures
        r.spec_above(&other).spec_bottom() <= max_i32(other.top_left.y, r.top_left.y),
        r.spec_below(&other).top_left.y >= other.spec_bottom(),
{
}

} // verus!
