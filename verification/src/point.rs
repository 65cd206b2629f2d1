//! Geometry value types: grid points, screen points, and ray crossings.

use vstd::prelude::*;

use crate::fixed::{abs_i, is_sqrt, isqrt, sqrt_of, COORD_LIMIT};

verus! {

/// Which grid-line family produced a crossing: `XIntercept` marks a
/// crossing of a horizontal (constant-y) grid line, `YIntercept` a
/// crossing of a vertical (constant-x) grid line.
#[derive(Clone, Copy, Debug, PartialEq, Eq, Structural)]
pub enum InterceptType {
    XIntercept,
    YIntercept,
}

/// A fractional grid point; both coordinates are tile units scaled by
/// [`crate::fixed::SCALE`].
#[derive(Clone, Copy, Debug, PartialEq, Eq, Structural)]
pub struct Point {
    pub x: i64,
    pub y: i64,
}

/// A point in render space, in plain render units (pixels).
#[derive(Clone, Copy, Debug, PartialEq, Eq, Structural)]
pub struct ScreenPoint {
    pub x: i64,
    pub y: i64,
}

/// One crossing of a grid line, tagged with the family that produced it,
/// the tile it resolved to (if any), and whether that tile is a wall.
/// Coordinates are tile units scaled by [`crate::fixed::SCALE`].
#[derive(Clone, Copy, Debug, PartialEq, Eq, Structural)]
pub struct RayPoint {
    pub x: i64,
    pub y: i64,
    pub board_index: Option<usize>,
    pub has_wall_intersection: bool,
    pub intercept_type: InterceptType,
}

/// The squared distance between two fixed-point points.
pub open spec fn dist2(ax: int, ay: int, bx: int, by: int) -> int {
    (bx - ax) * (bx - ax) + (by - ay) * (by - ay)
}

/// The fixed-point distance between two points: the integer square root
/// of the squared distance, in the same scaled tile units.
pub open spec fn dist_fp(ax: int, ay: int, bx: int, by: int) -> int {
    sqrt_of(dist2(ax, ay, bx, by))
}

/// Whether a coordinate is small enough for distance arithmetic.
pub open spec fn coord_ok(c: int) -> bool {
    -COORD_LIMIT <= c <= COORD_LIMIT
}

/// The distance between points `(ax, ay)` and `(bx, by)`, in scaled
/// tile units.
pub fn distance_between(ax: i64, ay: i64, bx: i64, by: i64) -> (r: u64)
    requires
        coord_ok(ax as int),
        coord_ok(ay as int),
        coord_ok(bx as int),
        coord_ok(by as int),
    ensures
        r == dist_fp(ax as int, ay as int, bx as int, by as int),
        is_sqrt(dist2(ax as int, ay as int, bx as int, by as int), r as int),
{
    let dx: i128 = bx as i128 - ax as i128;
    let dy: i128 = by as i128 - ay as i128;
    proof {
        assert(dx * dx + dy * dy < 0x4000_0000_0000_0000_0000_0000_0000_0000int && dx * dx >= 0
            && dy * dy >= 0) by (nonlinear_arith)
            requires
                abs_i(dx as int) <= 2 * COORD_LIMIT,
                abs_i(dy as int) <= 2 * COORD_LIMIT,
        ;
    }
    let n: i128 = dx * dx + dy * dy;
    isqrt(n as u128)
}

/// The squared distance, exact in `u128`.
pub fn distance_squared(ax: i64, ay: i64, bx: i64, by: i64) -> (r: u128)
    requires
        coord_ok(ax as int),
        coord_ok(ay as int),
        coord_ok(bx as int),
        coord_ok(by as int),
    ensures
        r == dist2(ax as int, ay as int, bx as int, by as int),
{
    let dx: i128 = bx as i128 - ax as i128;
    let dy: i128 = by as i128 - ay as i128;
    proof {
        assert(dx * dx + dy * dy < 0x4000_0000_0000_0000_0000_0000_0000_0000int && dx * dx >= 0
            && dy * dy >= 0) by (nonlinear_arith)
            requires
                abs_i(dx as int) <= 2 * COORD_LIMIT,
                abs_i(dy as int) <= 2 * COORD_LIMIT,
        ;
    }
    let n: i128 = dx * dx + dy * dy;
    n as u128
}

impl Point {
    /// The origin.
    pub fn new() -> (r: Point)
        ensures
            r == (Point { x: 0i64, y: 0i64 }),
    {
        Point { x: 0, y: 0 }
    }

    /// Distance from this point to a ray crossing, in scaled tile units.
    pub fn get_distance(self, other_point: RayPoint) -> (r: u64)
        requires
            coord_ok(self.x as int),
            coord_ok(self.y as int),
            coord_ok(other_point.x as int),
            coord_ok(other_point.y as int),
        ensures
            r == dist_fp(self.x as int, self.y as int, other_point.x as int, other_point.y as int),
            is_sqrt(
                dist2(self.x as int, self.y as int, other_point.x as int, other_point.y as int),
                r as int,
            ),
    {
        distance_between(self.x, self.y, other_point.x, other_point.y)
    }
}

impl RayPoint {
    /// A fresh crossing: not yet resolved to a tile, not a wall hit.
    pub fn new(x: i64, y: i64, intercept_type: InterceptType) -> (r: RayPoint)
        ensures
            r == (RayPoint {
                x,
                y,
                board_index: None::<usize>,
                has_wall_intersection: false,
                intercept_type,
            }),
    {
        RayPoint { x, y, intercept_type, board_index: None, has_wall_intersection: false }
    }

    /// Distance from this crossing to a grid point, in scaled tile units.
    pub fn get_distance(self, other_point: Point) -> (r: u64)
        requires
            coord_ok(self.x as int),
            coord_ok(self.y as int),
            coord_ok(other_point.x as int),
            coord_ok(other_point.y as int),
        ensures
            r == dist_fp(self.x as int, self.y as int, other_point.x as int, other_point.y as int),
            is_sqrt(
                dist2(self.x as int, self.y as int, other_point.x as int, other_point.y as int),
                r as int,
            ),
    {
        distance_between(self.x, self.y, other_point.x, other_point.y)
    }
}

} // verus!
