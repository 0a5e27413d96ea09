use vstd::prelude::*;

verus! {

/// Micro-units per world unit.
pub const MICROS_PER_UNIT: i64 = 1_000_000;

/// Largest magnitude of a coordinate that the distance computation accepts.
pub const POSITION_LIMIT: i64 = 8_000_000_000_000_000;

/// A point of the plane, in micro-units.
#[derive(Clone, Copy, Debug, PartialEq, Eq, Structural)]
pub struct Point {
    pub x: i64,
    pub y: i64,
}

impl Point {
    pub open spec fn within(self, limit: int) -> bool {
        -limit <= self.x <= limit && -limit <= self.y <= limit
    }

    /// A point given in whole world units.
    pub fn from_units(x: i32, y: i32) -> (r: Point)
        ensures
            r.x == x * MICROS_PER_UNIT,
            r.y == y * MICROS_PER_UNIT,
    {
        Point { x: x as i64 * MICROS_PER_UNIT, y: y as i64 * MICROS_PER_UNIT }
    }
}

/// The square of the Euclidean distance between two points.
pub open spec fn dist_sq(a: Point, b: Point) -> int {
    (a.x - b.x) * (a.x - b.x) + (a.y - b.y) * (a.y - b.y)
}

proof fn lemma_square_bound(d: int, bound: int)
    requires
        -bound <= d <= bound,
    ensures
        0 <= d * d <= bound * bound,
{
    assert(0 <= d * d <= bound * bound) by (nonlinear_arith)
        requires
            -bound <= d <= bound,
    ;
}

/// Squared Euclidean distance between `a` and `b`, exact.
pub fn distance_squared(a: Point, b: Point) -> (r: u128)
    requires
        a.within(POSITION_LIMIT as int),
        b.within(POSITION_LIMIT as int),
    ensures
        r == dist_sq(a, b),
{
    let dx: i128 = a.x as i128 - b.x as i128;
    let dy: i128 = a.y as i128 - b.y as i128;
    proof {
        lemma_square_bound(dx as int, 2 * POSITION_LIMIT);
        lemma_square_bound(dy as int, 2 * POSITION_LIMIT);
    }
    let sq: i128 = dx * dx + dy * dy;
    sq as u128
}

} // verus!
