//! A plain 2D vector over fixed-point coordinates.

use vstd::prelude::*;

verus! {

/// A 2D point or displacement.  Coordinates are fixed-point: one world
/// unit is `crate::game::SCALE` coordinate units.
#[derive(Clone, Copy, PartialEq, Eq, Structural, Debug)]
pub struct Vec2 {
    pub x: i64,
    pub y: i64,
}

impl Vec2 {
    /// Builds the vector `(x, y)`.
    pub fn new(x: i64, y: i64) -> (r: Vec2)
        ensures
            r.x == x,
            r.y == y,
    {
        Vec2 { x, y }
    }
}

} // verus!
