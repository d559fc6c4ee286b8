use vstd::prelude::*;

verus! {

/// Grid steps in one world unit.
pub const UNIT: i64 = 1000000;

/// Largest magnitude of a coordinate, length or velocity component that the
/// geometry accepts (2^40 grid steps). Products of two such values, and of
/// small sums of them, fit in an `i128`.
pub const COORD_LIMIT: i64 = 1099511627776;

/// A 2D vector on the fixed-point grid.
#[derive(Clone, Copy, Debug, PartialEq, Eq, Structural)]
pub struct Vec2 {
    pub x: i64,
    pub y: i64,
}

/// The sign of `v`: -1, 0 or 1.
pub open spec fn sgn(v: int) -> int {
    if v < 0 {
        -1
    } else if v > 0 {
        1
    } else {
        0
    }
}

/// Absolute value.
pub open spec fn abs(v: int) -> int {
    if v < 0 {
        -v
    } else {
        v
    }
}

/// Whether `v` lies within the accepted coordinate range.
pub open spec fn in_limit(v: int) -> bool {
    -COORD_LIMIT <= v <= COORD_LIMIT
}

impl Vec2 {
    /// Both components lie within the accepted coordinate range.
    pub open spec fn in_range(self) -> bool {
        in_limit(self.x as int) && in_limit(self.y as int)
    }

    /// Both components lie within half the accepted range, so that doubling
    /// them, or adding two of them, stays in range.
    pub open spec fn in_half_range(self) -> bool {
        -COORD_LIMIT / 2 <= self.x <= COORD_LIMIT / 2 && -COORD_LIMIT / 2 <= self.y <= COORD_LIMIT / 2
    }

    pub fn new(x: i64, y: i64) -> (r: Vec2)
        ensures
            r.x == x,
            r.y == y,
    {
        Vec2 { x, y }
    }

    pub fn zero() -> (r: Vec2)
        ensures
            r.x == 0,
            r.y == 0,
    {
        Vec2 { x: 0, y: 0 }
    }

    /// The vector with both components negated.
    pub fn neg(self) -> (r: Vec2)
        requires
            self.in_range(),
        ensures
            r.x == -self.x,
            r.y == -self.y,
            r.in_range(),
    {
        Vec2 { x: -self.x, y: -self.y }
    }
}

} // verus!
