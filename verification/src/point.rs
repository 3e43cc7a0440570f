use vstd::prelude::*;

verus! {

/// A point on the 3-dimensional integer lattice.
///
/// Points are compared and combined componentwise; they are used both for
/// world coordinates and for chunk keys.
#[derive(Clone, Copy, PartialEq, Eq, Structural, Debug, Hash)]
pub struct Point3i {
    pub x: i32,
    pub y: i32,
    pub z: i32,
}

impl Point3i {
    pub fn new(x: i32, y: i32, z: i32) -> (r: Self)
        ensures
            r == (Point3i { x, y, z }),
    {
        Point3i { x, y, z }
    }

    /// The point with the same coordinate on every axis.
    pub fn fill(v: i32) -> (r: Self)
        ensures
            r == (Point3i { x: v, y: v, z: v }),
    {
        Point3i { x: v, y: v, z: v }
    }
}

} // verus!
