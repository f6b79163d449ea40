//! A width and height.

use vstd::prelude::*;
use super::unit::Unit;

verus! {

/// A size.
#[derive(Debug, Clone, Copy, PartialEq)]
pub struct Size {
    pub width: Unit,
    pub height: Unit,
}

impl Size {
    /// Creates a new size.
    pub fn new(width: Unit, height: Unit) -> (r: Size)
        ensures
            r.width == width,
            r.height == height,
    {
        Size { width, height }
    }

    /// A size from two point-unit integers.
    pub fn from(wh: (i64, i64)) -> (r: Size)
        ensures
            r.width == Unit::Point(crate::geometry::unit::dec_of(r.width)),
            crate::geometry::unit::dec_of(r.width).model() == (wh.0 as int, 0nat),
            r.height == Unit::Point(crate::geometry::unit::dec_of(r.height)),
            crate::geometry::unit::dec_of(r.height).model() == (wh.1 as int, 0nat),
    {
        Size { width: Unit::from(wh.0), height: Unit::from(wh.1) }
    }
}

} // verus!
