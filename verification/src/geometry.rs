//! Integer pixel geometry: points, sizes and rectangles, together with the
//! coordinate caps that keep every pixel computation inside `i64`.

use vstd::prelude::*;

verus! {

/// Largest horizontal extent a shaped line may report.
pub const MAX_COORD: i64 = 0x4000_0000;

/// Largest pixel line height a layout may use.
pub const MAX_LINE_HEIGHT: i64 = 0x10000;

/// Largest number of visual rows a single wrapped line may span.
pub const MAX_LINE_ROWS: usize = 0x10000;

/// Largest number of wrapped lines a layout may hold.
pub const MAX_LINES: usize = 0x100000;

/// Largest magnitude of an on-screen coordinate (a bound's origin or a
/// queried position).
pub const MAX_ORIGIN: i64 = 0x1000_0000_0000_0000;

/// Largest total character count (text plus one separator per line break)
/// a layout may hold.
pub const MAX_TEXT: usize = 0x4000_0000;

/// A point in pixel space.
#[derive(Clone, Copy, PartialEq, Eq, Structural, Debug)]
pub struct Point {
    pub x: i64,
    pub y: i64,
}

/// A width and height in pixels.
#[derive(Clone, Copy, PartialEq, Eq, Structural, Debug)]
pub struct Size {
    pub width: i64,
    pub height: i64,
}

/// An on-screen rectangle: an origin and a size.
#[derive(Clone, Copy, PartialEq, Eq, Structural, Debug)]
pub struct Bounds {
    pub origin: Point,
    pub size: Size,
}

/// The product of two bounded non-negative quantities is bounded by the
/// product of the bounds.
pub proof fn lemma_mul_bounds(a: int, b: int, amax: int, bmax: int)
    by (nonlinear_arith)
    requires
        0 <= a <= amax,
        0 <= b <= bmax,
    ensures
        0 <= a * b <= amax * bmax,
{
}

/// Multiplication distributes over adding one.
pub proof fn lemma_mul_succ(a: int, b: int)
    by (nonlinear_arith)
    ensures
        (a + 1) * b == a * b + b,
{
}

impl Point {
    /// True when both coordinates are small enough that offsetting them by a
    /// layout's content extents cannot overflow.
    pub open spec fn in_range(self) -> bool {
        -MAX_ORIGIN <= self.x <= MAX_ORIGIN && -MAX_ORIGIN <= self.y <= MAX_ORIGIN
    }
}

impl Size {
    /// The zero size.
    pub fn zero() -> (r: Size)
        ensures
            r == (Size { width: 0, height: 0 }),
    {
        Size { width: 0, height: 0 }
    }
}

impl Bounds {
    /// The vertical coordinate of the rectangle's top edge.
    pub fn top(&self) -> (r: i64)
        ensures
            r == self.origin.y,
    {
        self.origin.y
    }
}

} // verus!
