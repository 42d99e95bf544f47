//! Lattice vectors and their mathematical model.

use vstd::prelude::*;

verus! {

/// A point or displacement of the integer plane, with unbounded coordinates.
pub struct Point {
    pub x: int,
    pub y: int,
}

impl Point {
    pub open spec fn zero() -> Point {
        Point { x: 0, y: 0 }
    }

    pub open spec fn plus(self, other: Point) -> Point {
        Point { x: self.x + other.x, y: self.y + other.y }
    }

    pub open spec fn minus(self, other: Point) -> Point {
        Point { x: self.x - other.x, y: self.y - other.y }
    }

    /// The squared Euclidean length.
    pub open spec fn norm_sq(self) -> int {
        self.x * self.x + self.y * self.y
    }

    /// The squared Euclidean distance to `other`.
    pub open spec fn dist_sq(self, other: Point) -> int {
        self.minus(other).norm_sq()
    }

    /// Both coordinates are representable in a machine word.
    pub open spec fn fits(self) -> bool {
        &&& i64::MIN <= self.x <= i64::MAX
        &&& i64::MIN <= self.y <= i64::MAX
    }

    /// Both coordinates lie within `bound` of the origin.
    pub open spec fn within(self, bound: int) -> bool {
        &&& -bound <= self.x <= bound
        &&& -bound <= self.y <= bound
    }
}

/// A point or displacement with machine-word coordinates.
#[derive(Clone, Copy, Debug, PartialEq, Eq, Structural)]
pub struct Vec2 {
    pub x: i64,
    pub y: i64,
}

impl View for Vec2 {
    type V = Point;

    open spec fn view(&self) -> Point {
        Point { x: self.x as int, y: self.y as int }
    }
}

impl Vec2 {
    pub fn new(x: i64, y: i64) -> (v: Vec2)
        ensures
            v@ == (Point { x: x as int, y: y as int }),
    {
        Vec2 { x, y }
    }

    pub fn zero() -> (v: Vec2)
        ensures
            v@ == Point::zero(),
    {
        Vec2 { x: 0, y: 0 }
    }
}

} // verus!
