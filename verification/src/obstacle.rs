//! An obstacle, which knows its own shape and how to steer around it.

use vstd::prelude::*;
use crate::vector::Vec3;
use crate::vehicle::{valid_vehicle, VehicleBase};

verus! {

pub trait ObstacleBase {
    /// The steering that takes `vehicle` around the obstacle where it would
    /// hit it within `min_collision_time`.
    spec fn avoidance<V: VehicleBase>(&self, vehicle: &V, min_collision_time: i64) -> Vec3;

    /// The time after which `vehicle` meets the obstacle on its present
    /// course, if it does.
    spec fn intersection<V: VehicleBase>(&self, vehicle: &V) -> Option<i64>;

    fn steer_to_avoid<V: VehicleBase>(&self, vehicle: &V, min_collision_time: i64) -> (r: Vec3)
        requires
            valid_vehicle(vehicle),
        ensures
            r == self.avoidance(vehicle, min_collision_time),
    ;

    fn next_intersection<V: VehicleBase>(&self, vehicle: &V) -> (r: Option<i64>)
        requires
            valid_vehicle(vehicle),
        ensures
            r == self.intersection(vehicle),
    ;
}

} // verus!
