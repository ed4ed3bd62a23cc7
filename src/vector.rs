//! Points and directions of the two-dimensional search space.
use vstd::prelude::*;
use crate::fixed::in_range;

verus! {

/// A point or a velocity, each coordinate a fixed-point number.
#[derive(Clone, Copy, Debug, PartialEq, Eq, Structural)]
pub struct Vector {
    pub x: i64,
    pub y: i64,
}

impl Vector {
    /// Both coordinates lie in the stored range.
    pub open spec fn bounded(self) -> bool {
        in_range(self.x as int) && in_range(self.y as int)
    }

    pub fn new(x: i64, y: i64) -> (r: Vector)
        ensures
            r.x == x,
            r.y == y,
    {
        Vector { x, y }
    }
}

} // verus!
