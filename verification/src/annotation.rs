//! The sink for debug drawing. Nothing that a behaviour returns depends on
//! it: every call may do nothing.

use vstd::prelude::*;
use crate::vector::Vec3;
use crate::vehicle::VehicleBase;

verus! {

pub trait AnnotationBase {
    fn is_enabled(&self) -> bool;

    fn enable(&self, enabled: bool);

    fn line(&self, start: Vec3, end: Vec3, color: Vec3, opacity: i64);

    fn circle_xz(&self, radius: i64, center: Vec3, color: Vec3, opacity: i64, segments: i32);

    fn disk_xz(&self, radius: i64, center: Vec3, color: Vec3, opacity: i64, segments: i32);

    fn circle_3d(
        &self,
        radius: i64,
        center: Vec3,
        axis: Vec3,
        color: Vec3,
        opacity: i64,
        segments: i32,
    );

    fn disk_3d(
        &self,
        radius: i64,
        center: Vec3,
        axis: Vec3,
        color: Vec3,
        opacity: i64,
        segments: i32,
    );

    /// A vehicle that left its path steers back toward `target`.
    fn path_following(&self, future: Vec3, on_path: Vec3, target: Vec3, outside: i64) {
    }

    /// A vehicle steers away from a neighbour that is too close.
    fn avoid_close_neighbour<V: VehicleBase>(&self, other: &V, additional_distance: i64) {
    }

    /// A vehicle steers away from a neighbour on a collision course.
    fn avoid_neighbour<V: VehicleBase>(
        &self,
        threat: &V,
        steer: i64,
        our_future: Vec3,
        threat_future: Vec3,
    ) {
    }

    /// The velocity and acceleration of a vehicle are to be drawn.
    fn velocity_acceleration<V: VehicleBase>(
        &self,
        vehicle: &V,
        max_acceleration_length: i64,
        max_velocity_length: i64,
    ) {
    }
}

} // verus!
