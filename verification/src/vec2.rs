//! Integer 2-vectors: grid cell positions and unit movement directions.

use vstd::prelude::*;

verus! {

/// An integer 2-vector on the grid: either a cell position or a direction.
#[derive(Clone, Copy, Debug, PartialEq, Eq, Structural, Hash)]
pub struct Vec2i {
    pub x: i32,
    pub y: i32,
}

/// The absolute value of a mathematical integer.
pub open spec fn abs_i(v: int) -> int {
    if v < 0 {
        -v
    } else {
        v
    }
}

/// Manhattan (L1) distance between two grid cells.
pub open spec fn spec_manhattan(a: Vec2i, b: Vec2i) -> int {
    abs_i(a.x - b.x) + abs_i(a.y - b.y)
}

/// Squared Euclidean distance between two grid cells.
pub open spec fn spec_dist_sq(a: Vec2i, b: Vec2i) -> int {
    (a.x - b.x) * (a.x - b.x) + (a.y - b.y) * (a.y - b.y)
}

/// A unit grid direction: one step right, down, left or up.
pub open spec fn is_unit_dir(d: Vec2i) -> bool {
    ||| d == (Vec2i { x: 1, y: 0 })
    ||| d == (Vec2i { x: 0, y: 1 })
    ||| d == (Vec2i { x: -1i32, y: 0 })
    ||| d == (Vec2i { x: 0, y: -1i32 })
}

/// A unit direction or the zero vector (no movement intent).
pub open spec fn is_unit_or_zero(d: Vec2i) -> bool {
    d == (Vec2i { x: 0, y: 0 }) || is_unit_dir(d)
}

/// The position one unit step from `a` in direction `d`.
pub open spec fn spec_step(a: Vec2i, d: Vec2i) -> Vec2i {
    Vec2i { x: (a.x + d.x) as i32, y: (a.y + d.y) as i32 }
}

/// The componentwise negation of `d`.
pub open spec fn spec_neg(d: Vec2i) -> Vec2i {
    Vec2i { x: -d.x as i32, y: -d.y as i32 }
}

impl Vec2i {
    pub fn new(x: i32, y: i32) -> (r: Self)
        ensures
            r == (Vec2i { x, y }),
    {
        Vec2i { x, y }
    }

    pub fn zero() -> (r: Self)
        ensures
            r == (Vec2i { x: 0, y: 0 }),
    {
        Vec2i { x: 0, y: 0 }
    }

    /// Componentwise sum.
    pub fn plus(self, other: Self) -> (r: Self)
        requires
            i32::MIN <= self.x + other.x <= i32::MAX,
            i32::MIN <= self.y + other.y <= i32::MAX,
        ensures
            r.x == self.x + other.x,
            r.y == self.y + other.y,
    {
        Vec2i { x: self.x + other.x, y: self.y + other.y }
    }

    /// Componentwise difference.
    pub fn minus(self, other: Self) -> (r: Self)
        requires
            i32::MIN <= self.x - other.x <= i32::MAX,
            i32::MIN <= self.y - other.y <= i32::MAX,
        ensures
            r.x == self.x - other.x,
            r.y == self.y - other.y,
    {
        Vec2i { x: self.x - other.x, y: self.y - other.y }
    }

    /// Componentwise negation.
    pub fn neg(self) -> (r: Self)
        requires
            self.x > i32::MIN,
            self.y > i32::MIN,
        ensures
            r == spec_neg(self),
    {
        Vec2i { x: -self.x, y: -self.y }
    }

    /// Scalar multiple.
    pub fn times(self, k: i32) -> (r: Self)
        requires
            i32::MIN <= self.x * k <= i32::MAX,
            i32::MIN <= self.y * k <= i32::MAX,
        ensures
            r.x == self.x * k,
            r.y == self.y * k,
    {
        Vec2i { x: self.x * k, y: self.y * k }
    }

    /// Manhattan distance to `other`, computed without overflow in `i64`.
    pub fn manhattan(self, other: Self) -> (r: i64)
        ensures
            r == spec_manhattan(self, other),
    {
        let dx: i64 = if self.x >= other.x {
            self.x as i64 - other.x as i64
        } else {
            other.x as i64 - self.x as i64
        };
        let dy: i64 = if self.y >= other.y {
            self.y as i64 - other.y as i64
        } else {
            other.y as i64 - self.y as i64
        };
        dx + dy
    }

    /// Squared Euclidean distance to `other`.
    ///
    /// The coordinate bound keeps the products inside `i64` range; positions
    /// on any well-formed map satisfy it comfortably.
    pub fn dist_sq(self, other: Self) -> (r: i64)
        requires
            abs_i(self.x - other.x) <= 0x4000_0000,
            abs_i(self.y - other.y) <= 0x4000_0000,
        ensures
            r == spec_dist_sq(self, other),
    {
        let dx: i64 = self.x as i64 - other.x as i64;
        let dy: i64 = self.y as i64 - other.y as i64;
        proof {
            assert(dx * dx <= 0x4000_0000int * 0x4000_0000int && dx * dx >= 0) by (nonlinear_arith)
                requires
                    -0x4000_0000 <= dx <= 0x4000_0000,
            ;
            assert(dy * dy <= 0x4000_0000int * 0x4000_0000int && dy * dy >= 0) by (nonlinear_arith)
                requires
                    -0x4000_0000 <= dy <= 0x4000_0000,
            ;
        }
        dx * dx + dy * dy
    }
}

} // verus!
