//! Points, displacements and exact integer arithmetic on the annotation grid.
//!
//! Every coordinate is a whole number of grid units. What one unit stands for
//! (a pixel, or a fraction of one) is the caller's choice; the engine only
//! needs pointer positions, boxes, image extents and catch radii to share it.
//! Halving rounds towards minus infinity, so a midpoint never lies to the
//! right of the true one and never more than half a unit to its left.

use vstd::prelude::*;

verus! {

/// A position on the grid.
#[derive(Clone, Copy, Debug, PartialEq, Eq, Structural)]
pub struct Point {
    pub x: i32,
    pub y: i32,
}

/// The displacement between two positions. The difference of two grid
/// coordinates does not fit a coordinate, so the components are wider.
#[derive(Clone, Copy, Debug, PartialEq, Eq, Structural)]
pub struct Offset {
    pub x: i64,
    pub y: i64,
}

/// The smaller of two integers.
pub open spec fn min_of(a: int, b: int) -> int {
    if a <= b {
        a
    } else {
        b
    }
}

/// The larger of two integers.
pub open spec fn max_of(a: int, b: int) -> int {
    if a <= b {
        b
    } else {
        a
    }
}

/// The distance between two coordinates on one axis.
pub open spec fn span(a: int, b: int) -> int {
    max_of(a, b) - min_of(a, b)
}

/// The midpoint of two coordinates on one axis, rounded down.
pub open spec fn midpoint(a: int, b: int) -> int {
    (a + b) / 2
}

/// The squared Euclidean distance between `(ax, ay)` and `(bx, by)`.
pub open spec fn dist2(ax: int, ay: int, bx: int, by: int) -> int {
    (ax - bx) * (ax - bx) + (ay - by) * (ay - by)
}

/// Whether `v` is a grid coordinate.
pub open spec fn on_axis(v: int) -> bool {
    i32::MIN <= v <= i32::MAX
}

impl Point {
    /// The point with the coordinates `x` and `y`.
    pub fn new(x: i32, y: i32) -> (p: Point)
        ensures
            p == (Point { x, y }),
    {
        Point { x, y }
    }

    /// The displacement that leads from `origin` to `self`.
    pub fn offset_from(self, origin: Point) -> (d: Offset)
        ensures
            d.x == self.x - origin.x,
            d.y == self.y - origin.y,
    {
        Offset { x: self.x as i64 - origin.x as i64, y: self.y as i64 - origin.y as i64 }
    }
}

/// `midpoint` of two grid coordinates.
pub fn midpoint_of(a: i32, b: i32) -> (m: i32)
    ensures
        m == midpoint(a as int, b as int),
{
    let s: i64 = a as i64 + b as i64;
    if s >= 0 {
        (s / 2) as i32
    } else {
        let up: i64 = (-(s + 1)) / 2;
        (-up - 1) as i32
    }
}

/// `span` of two grid coordinates.
pub fn span_of(a: i32, b: i32) -> (d: u32)
    ensures
        d == span(a as int, b as int),
{
    if a <= b {
        (b as i64 - a as i64) as u32
    } else {
        (a as i64 - b as i64) as u32
    }
}

/// `dist2` of two grid positions.
pub fn dist2_of(ax: i32, ay: i32, bx: i32, by: i32) -> (d: u128)
    ensures
        d == dist2(ax as int, ay as int, bx as int, by as int),
{
    let dx: u64 = span_of(ax, bx) as u64;
    let dy: u64 = span_of(ay, by) as u64;
    assert(dx * dx <= 0xffff_ffff * 0xffff_ffff) by (nonlinear_arith)
        requires
            0 <= dx <= 0xffff_ffff,
    ;
    assert(dy * dy <= 0xffff_ffff * 0xffff_ffff) by (nonlinear_arith)
        requires
            0 <= dy <= 0xffff_ffff,
    ;
    assert(dx * dx == (ax - bx) * (ax - bx)) by (nonlinear_arith)
        requires
            dx == ax - bx || dx == bx - ax,
    ;
    assert(dy * dy == (ay - by) * (ay - by)) by (nonlinear_arith)
        requires
            dy == ay - by || dy == by - ay,
    ;
    (dx as u128) * (dx as u128) + (dy as u128) * (dy as u128)
}

} // verus!
