//! A path: a curve with a corridor around it.

use vstd::prelude::*;
use crate::scalar::{in_point_range, POINT_MAX};
use crate::vector::Vec3;

verus! {

pub trait PathwayBase {
    /// The point of the path nearest to `point`, and how far `point` lies
    /// outside the corridor: negative inside it.
    spec fn nearest(&self, point: Vec3) -> (Vec3, i64);

    /// The point at the given distance along the path.
    spec fn point_at(&self, distance: i64) -> Vec3;

    /// The distance along the path of the point nearest to `point`.
    spec fn distance_of(&self, point: Vec3) -> i64;

    fn map_point_to_path(&self, point: Vec3) -> (r: (Vec3, i64))
        requires
            point@.fits(POINT_MAX as int),
        ensures
            r == self.nearest(point),
            r.0@.fits(POINT_MAX as int),
    ;

    fn map_path_distance_to_point(&self, distance: i64) -> (r: Vec3)
        ensures
            r == self.point_at(distance),
            r@.fits(POINT_MAX as int),
    ;

    fn map_point_to_path_distance(&self, point: Vec3) -> (r: i64)
        requires
            point@.fits(POINT_MAX as int),
        ensures
            r == self.distance_of(point),
            in_point_range(r as int),
    ;
}

} // verus!
