//! Points of the arena and the distance test between them.

use vstd::prelude::*;

verus! {

/// A point of the arena, its origin at the centre, `y` pointing up.
#[derive(Clone, Copy, Debug, PartialEq, Eq, Structural)]
pub struct Position {
    pub x: i64,
    pub y: i64,
}

/// Squared Euclidean distance of two points.
pub open spec fn dist_sq(a: Position, b: Position) -> int {
    (a.x - b.x) * (a.x - b.x) + (a.y - b.y) * (a.y - b.y)
}

/// Strictly closer than `radius`.
pub open spec fn closer_than(a: Position, b: Position, radius: int) -> bool {
    dist_sq(a, b) < radius * radius
}

/// Every coordinate is within `limit` of the origin.
pub open spec fn bounded_by(p: Position, limit: int) -> bool {
    -limit <= p.x <= limit && -limit <= p.y <= limit
}

/// Coordinates of a position that any two of them can be compared without overflow.
pub open spec fn in_range(p: Position) -> bool {
    bounded_by(p, 0x2000_0000)
}

impl Position {
    pub fn new(x: i64, y: i64) -> (r: Position)
        ensures
            r.x == x,
            r.y == y,
    {
        Position { x, y }
    }

    /// Whether `self` and `other` are strictly closer than `radius`.
    pub fn is_within(&self, other: &Position, radius: i64) -> (r: bool)
        requires
            in_range(*self),
            in_range(*other),
            0 <= radius <= 0x2000_0000,
        ensures
            r == closer_than(*self, *other, radius as int),
    {
        let dx: i64 = self.x - other.x;
        let dy: i64 = self.y - other.y;
        assert(dx * dx <= 0x1000_0000_0000_0000) by (nonlinear_arith)
            requires
                -0x4000_0000 <= dx <= 0x4000_0000,
        ;
        assert(dy * dy <= 0x1000_0000_0000_0000) by (nonlinear_arith)
            requires
                -0x4000_0000 <= dy <= 0x4000_0000,
        ;
        assert(0 <= dx * dx && 0 <= dy * dy) by (nonlinear_arith);
        assert(radius * radius <= 0x0400_0000_0000_0000) by (nonlinear_arith)
            requires
                0 <= radius <= 0x2000_0000,
        ;
        dx * dx + dy * dy < radius * radius
    }
}

} // verus!
