//! Plain coordinate types on the shared parameter plane.
//!
//! The third component of a [`Point3`] is the elevation of a wire node; all
//! components are fixed-point integers in `1/SCALE` world units.

use vstd::prelude::*;

verus! {

use crate::fixed::COORD_LIMIT;

/// A position on the 2D parameter plane.
#[derive(Clone, Copy, PartialEq, Eq, Structural, Debug)]
pub struct Point2 {
    pub x: i64,
    pub y: i64,
}

/// A wire-node position; `z` is the elevation over the plane.
#[derive(Clone, Copy, PartialEq, Eq, Structural, Debug)]
pub struct Point3 {
    pub x: i64,
    pub y: i64,
    pub z: i64,
}

/// A 2D extent or offset on the parameter plane.
#[derive(Clone, Copy, PartialEq, Eq, Structural, Debug)]
pub struct Vector2 {
    pub x: i64,
    pub y: i64,
}

impl Vector2 {
    /// A world extent is non-negative and inside the coordinate range.
    pub open spec fn extent_ok(self) -> bool {
        &&& 0 <= self.x <= COORD_LIMIT
        &&& 0 <= self.y <= COORD_LIMIT
    }

    pub fn new(x: i64, y: i64) -> (r: Vector2)
        ensures
            r.x == x,
            r.y == y,
    {
        Vector2 { x, y }
    }
}

/// A 3D direction or color triple.
#[derive(Clone, Copy, PartialEq, Eq, Structural, Debug)]
pub struct Vector3 {
    pub x: i64,
    pub y: i64,
    pub z: i64,
}

impl Point2 {
    /// All components inside the coordinate range the evaluators accept.
    pub open spec fn in_bounds(self) -> bool {
        &&& -COORD_LIMIT <= self.x <= COORD_LIMIT
        &&& -COORD_LIMIT <= self.y <= COORD_LIMIT
    }

    pub fn new(x: i64, y: i64) -> (r: Point2)
        ensures
            r.x == x,
            r.y == y,
    {
        Point2 { x, y }
    }
}

impl Point3 {
    /// All components inside the coordinate range the evaluators accept.
    pub open spec fn in_bounds(self) -> bool {
        &&& -COORD_LIMIT <= self.x <= COORD_LIMIT
        &&& -COORD_LIMIT <= self.y <= COORD_LIMIT
        &&& -COORD_LIMIT <= self.z <= COORD_LIMIT
    }

    /// The planar part of the position.
    pub open spec fn xy_spec(self) -> Point2 {
        Point2 { x: self.x, y: self.y }
    }

    pub fn new(x: i64, y: i64, z: i64) -> (r: Point3)
        ensures
            r.x == x,
            r.y == y,
            r.z == z,
    {
        Point3 { x, y, z }
    }

    /// Drop the elevation, keeping the planar coordinates.
    pub fn xy(&self) -> (r: Point2)
        ensures
            r == self.xy_spec(),
    {
        Point2 { x: self.x, y: self.y }
    }
}

impl Vector3 {
    pub fn new(x: i64, y: i64, z: i64) -> (r: Vector3)
        ensures
            r.x == x,
            r.y == y,
            r.z == z,
    {
        Vector3 { x, y, z }
    }

    /// The zero vector: the sentinel color for uncovered points.
    pub open spec fn zero_spec() -> Vector3 {
        Vector3 { x: 0, y: 0, z: 0 }
    }

    pub fn zero() -> (r: Vector3)
        ensures
            r == Vector3::zero_spec(),
    {
        Vector3 { x: 0, y: 0, z: 0 }
    }
}

} // verus!
