//! The queries every drawable field answers per point of the plane.

use vstd::prelude::*;

verus! {

use crate::geometry::Point2;
use crate::geometry::Vector3;
use crate::profile::Material;
use crate::profile::Profile;
use crate::wire::Wire;

/// A 2D implicit field with an elevation, an identifier, a normal and an
/// albedo per query point.
pub trait Drawable {
    /// Well-formedness the queries demand.
    spec fn wf_spec(&self) -> bool;

    /// The elevation field; `None` stands for minus infinity.
    spec fn height_field(&self, p: Point2) -> Option<int>;

    /// The identifier field.
    spec fn id_field(&self, p: Point2) -> int;

    /// The normal field.
    spec fn normal_field(&self, p: Point2) -> (int, int, int);

    /// The albedo field.
    spec fn albedo_field(&self, p: Point2) -> (int, int, int);

    /// Evaluate the elevation field.
    fn get_height(&self, point: Point2) -> (r: Option<i64>)
        requires
            self.wf_spec(),
            point.in_bounds(),
        ensures
            r == match self.height_field(point) {
                Some(z) => Some(z as i64),
                None => None::<i64>,
            },
    ;

    /// Evaluate the elevation field together with the identifier field.
    fn get_height_with_id(&self, point: Point2) -> (r: (Option<i64>, usize))
        requires
            self.wf_spec(),
            point.in_bounds(),
        ensures
            r.0 == match self.height_field(point) {
                Some(z) => Some(z as i64),
                None => None::<i64>,
            },
            r.1 as int == self.id_field(point),
    ;

    /// Evaluate the normal field.
    fn get_normal(&self, point: Point2) -> (r: Vector3)
        requires
            self.wf_spec(),
            point.in_bounds(),
        ensures
            (r.x as int, r.y as int, r.z as int) == self.normal_field(point),
    ;

    /// Evaluate the albedo field.
    fn get_albedo(&self, point: Point2) -> (r: Vector3)
        requires
            self.wf_spec(),
            point.in_bounds(),
        ensures
            (r.x as int, r.y as int, r.z as int) == self.albedo_field(point),
    ;
}

impl<M: Material, P: Profile> Drawable for Wire<M, P> {
    open spec fn wf_spec(&self) -> bool {
        self.wf()
    }

    open spec fn height_field(&self, p: Point2) -> Option<int> {
        self.height_spec(p)
    }

    open spec fn id_field(&self, p: Point2) -> int {
        self.id_spec(p)
    }

    open spec fn normal_field(&self, p: Point2) -> (int, int, int) {
        self.normal_field_spec(p)
    }

    open spec fn albedo_field(&self, p: Point2) -> (int, int, int) {
        self.albedo_spec(p)
    }

    fn get_height(&self, point: Point2) -> (r: Option<i64>) {
        self.get_height(point)
    }

    fn get_height_with_id(&self, point: Point2) -> (r: (Option<i64>, usize)) {
        self.get_height_with_id(point)
    }

    fn get_normal(&self, point: Point2) -> (r: Vector3) {
        self.get_normal(point)
    }

    fn get_albedo(&self, point: Point2) -> (r: Vector3) {
        self.get_albedo(point)
    }
}

} // verus!
