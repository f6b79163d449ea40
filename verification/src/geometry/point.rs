//! A coordinate with the origin in the lower left.

use vstd::prelude::*;
use super::unit::Unit;

verus! {

/// A coordinate.  The positive x-axis extends right, the positive y-axis up.
#[derive(Debug, Clone, Copy, PartialEq)]
pub struct Point {
    pub x: Unit,
    pub y: Unit,
}

impl Point {
    /// Creates a new point.
    pub fn new(x: Unit, y: Unit) -> (r: Point)
        ensures
            r.x == x,
            r.y == y,
    {
        Point { x, y }
    }

    /// A point from two point-unit integers.
    pub fn from(xy: (i64, i64)) -> (r: Point)
        ensures
            r.x == Unit::Point(crate::geometry::unit::dec_of(r.x)),
            crate::geometry::unit::dec_of(r.x).model() == (xy.0 as int, 0nat),
            r.y == Unit::Point(crate::geometry::unit::dec_of(r.y)),
            crate::geometry::unit::dec_of(r.y).model() == (xy.1 as int, 0nat),
    {
        Point { x: Unit::from(xy.0), y: Unit::from(xy.1) }
    }
}

} // verus!
