//! The 2-D point type, in encoded coordinates.

use vstd::prelude::*;

verus! {

/// A 2-D point or vector.  Both coordinates are encoded scalars, so the
/// crate can compare and rearrange them; component arithmetic belongs to
/// the scalar layer around the crate.
#[derive(Clone, Copy, PartialEq, Eq, Structural, Debug)]
pub struct Vector2 {
    pub x: i64,
    pub y: i64,
}

impl Vector2 {
    pub fn new(x: i64, y: i64) -> (r: Self)
        ensures
            r.x == x,
            r.y == y,
    {
        Self { x, y }
    }
}

} // verus!
