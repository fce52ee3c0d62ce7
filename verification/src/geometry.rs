//! Integer canvas coordinates and the circular hit region of a node.

use vstd::prelude::*;

verus! {

/// Radius of a node's circular hit region, in canvas units.
pub const HIT_RADIUS: i64 = 15;

/// A position on the canvas, in whole canvas units.
#[derive(Clone, Copy, Debug, PartialEq, Eq, Structural)]
pub struct Point {
    pub x: i32,
    pub y: i32,
}

/// Squared Euclidean distance between two points.
pub open spec fn dist_sq(a: Point, b: Point) -> int {
    (a.x - b.x) * (a.x - b.x) + (a.y - b.y) * (a.y - b.y)
}

/// Whether `p` lies strictly inside the hit region centred at `center`.
pub open spec fn within_hit_region(center: Point, p: Point) -> bool {
    dist_sq(center, p) < HIT_RADIUS * HIT_RADIUS
}

/// Whether `p` lies in the box of the given size centred at `center`, its
/// border included.
pub open spec fn within_box(center: Point, width: int, height: int, p: Point) -> bool {
    &&& -width <= 2 * (p.x - center.x) <= width
    &&& -height <= 2 * (p.y - center.y) <= height
}

/// `v` brought into the range of a coordinate.
pub open spec fn clamped(v: int) -> int {
    if v < i32::MIN {
        i32::MIN as int
    } else if v > i32::MAX {
        i32::MAX as int
    } else {
        v
    }
}

/// `p` moved by `(dx, dy)`, each coordinate stopping at the edge of the
/// coordinate range.
pub open spec fn shifted(p: Point, dx: int, dy: int) -> Point {
    Point { x: clamped(p.x + dx) as i32, y: clamped(p.y + dy) as i32 }
}

/// One coordinate moved by `d`, stopping at the edge of the range.
fn shift_coordinate(v: i32, d: i32) -> (r: i32)
    ensures
        r == clamped(v + d),
{
    let sum: i64 = v as i64 + d as i64;
    if sum < i32::MIN as i64 {
        i32::MIN
    } else if sum > i32::MAX as i64 {
        i32::MAX
    } else {
        sum as i32
    }
}

impl Point {
    /// This point moved by `(dx, dy)`.
    pub fn shift(self, dx: i32, dy: i32) -> (q: Point)
        ensures
            q == shifted(self, dx as int, dy as int),
    {
        Point { x: shift_coordinate(self.x, dx), y: shift_coordinate(self.y, dy) }
    }

    /// Whether `p` lies in the box of the given size centred at this point.
    pub fn box_holds(self, width: i32, height: i32, p: Point) -> (hit: bool)
        ensures
            hit == within_box(self, width as int, height as int, p),
    {
        let dx: i64 = 2 * (p.x as i64 - self.x as i64);
        let dy: i64 = 2 * (p.y as i64 - self.y as i64);
        let w: i64 = width as i64;
        let h: i64 = height as i64;
        -w <= dx && dx <= w && -h <= dy && dy <= h
    }

    /// Whether `p` lies strictly inside the hit region centred at this
    /// point.
    pub fn hit_by(self, p: Point) -> (hit: bool)
        ensures
            hit == within_hit_region(self, p),
    {
        let dx: i64 = self.x as i64 - p.x as i64;
        let dy: i64 = self.y as i64 - p.y as i64;
        if dx <= -HIT_RADIUS || dx >= HIT_RADIUS {
            proof {
                assert(dx * dx >= 225) by (nonlinear_arith)
                    requires
                        dx <= -15 || dx >= 15,
                ;
                assert(dy * dy >= 0) by (nonlinear_arith);
            }
            return false;
        }
        if dy <= -HIT_RADIUS || dy >= HIT_RADIUS {
            proof {
                assert(dy * dy >= 225) by (nonlinear_arith)
                    requires
                        dy <= -15 || dy >= 15,
                ;
                assert(dx * dx >= 0) by (nonlinear_arith);
            }
            return false;
        }
        proof {
            assert(0 <= dx * dx <= 196) by (nonlinear_arith)
                requires
                    -15 < dx < 15,
            ;
            assert(0 <= dy * dy <= 196) by (nonlinear_arith)
                requires
                    -15 < dy < 15,
            ;
        }
        dx * dx + dy * dy < HIT_RADIUS * HIT_RADIUS
    }
}

} // verus!
