//! The behaviours of a single vehicle: toward and away from points and
//! other vehicles, along paths and flows, around obstacles.

use vstd::prelude::*;
use crate::annotation::AnnotationBase;
use crate::flowfield::FlowfieldBase;
use crate::model::{
    arrival_steering, clipped_speed, flee_steering, flow_steering, lemma_arrival_velocity_ramp,
    path_advance, path_steering,
    prediction_time, right_way, seek_steering, target_speed_steering, wander_steering,
};
use crate::obstacle::ObstacleBase;
use crate::pathway::PathwayBase;
use crate::random::{random_walk, scalar_random_walk_from, RandomSource};
use crate::scalar::{
    clamp, div_round, in_state_range, lemma_div_toward_zero_bounds, lemma_div_toward_zero_capped,
    lemma_mul_bounded, wide_mul, ONE, POINT_MAX, STATE_MAX,
};
use crate::vector::{
    lemma_fits_from_sqnorm, lemma_norm_dominates, lemma_scaled_capped, lemma_scaled_fits, Vec3,
    Vector, VectorHelper,
};
use crate::vehicle::{valid_vehicle, VehicleBase};

verus! {

/// Steering toward `target`: the offset to it, cut to `max_speed`, less the
/// present velocity.
pub fn steer_for_seek<V: VehicleBase, A: AnnotationBase>(
    vehicle: &V,
    target: Vec3,
    max_speed: i64,
    annotations: &A,
) -> (r: Vec3)
    requires
        valid_vehicle(vehicle),
        target@.fits(POINT_MAX as int),
        0 <= max_speed <= STATE_MAX,
    ensures
        r@ == seek_steering(
            vehicle.local_space().position@,
            vehicle.kinematics().velocity@,
            target@,
            max_speed as int,
        ),
{
    let offset: Vec3 = target.minus(&vehicle.position());
    let desired_velocity: Vec3 = offset.truncate_length(max_speed);
    proof {
        lemma_fits_from_sqnorm(desired_velocity@, max_speed as int);
    }
    desired_velocity.minus(&vehicle.velocity())
}

/// Steering away from `target`: the offset from it, cut to `max_speed`, less
/// the present velocity.
pub fn steer_for_flee<V: VehicleBase, A: AnnotationBase>(
    vehicle: &V,
    target: Vec3,
    max_speed: i64,
    annotations: &A,
) -> (r: Vec3)
    requires
        valid_vehicle(vehicle),
        target@.fits(POINT_MAX as int),
        0 <= max_speed <= STATE_MAX,
    ensures
        r@ == flee_steering(
            vehicle.local_space().position@,
            vehicle.kinematics().velocity@,
            target@,
            max_speed as int,
        ),
{
    let offset: Vec3 = vehicle.position().minus(&target);
    let desired_velocity: Vec3 = offset.truncate_length(max_speed);
    proof {
        lemma_fits_from_sqnorm(desired_velocity@, max_speed as int);
    }
    desired_velocity.minus(&vehicle.velocity())
}

/// The speed wanted at `distance` from a target that is to be reached at
/// rest: see [`clipped_speed`].
pub fn arrival_speed(distance: i64, max_speed: i64, slowing_distance: i64) -> (r: i64)
    requires
        distance >= 0,
        max_speed >= 0,
    ensures
        r == clipped_speed(distance as int, max_speed as int, slowing_distance as int),
        0 <= r <= max_speed,
{
    if slowing_distance <= 0 {
        return max_speed;
    }
    proof {
        lemma_div_toward_zero_bounds(max_speed * distance, slowing_distance as int);
        assert(max_speed * distance >= 0) by (nonlinear_arith)
            requires
                max_speed >= 0,
                distance >= 0,
        ;
    }
    let ramped_speed: i128 = div_round(wide_mul(max_speed, distance), slowing_distance as i128);
    if ramped_speed < max_speed as i128 {
        ramped_speed as i64
    } else {
        max_speed
    }
}

/// Steering for arrival at `target`: toward it at `max_speed` while it is
/// at the distance `slowing_distance` or further away, at a speed that falls
/// with the distance inside, less the present velocity. At the target the
/// wanted velocity is zero. The wanted speed at each distance is the one that
/// [`arrival_speed`] gives.
pub fn steer_for_arrival<V: VehicleBase, A: AnnotationBase>(
    vehicle: &V,
    target: Vec3,
    max_speed: i64,
    slowing_distance: i64,
    annotations: &A,
) -> (r: Vec3)
    requires
        valid_vehicle(vehicle),
        target@.fits(POINT_MAX as int),
        0 <= max_speed <= STATE_MAX,
    ensures
        r@ == arrival_steering(
            vehicle.local_space().position@,
            vehicle.kinematics().velocity@,
            target@,
            max_speed as int,
            slowing_distance as int,
        ),
{
    let offset: Vec3 = target.minus(&vehicle.position());
    let distance_sq: i128 = offset.sqnorm();
    proof {
        lemma_norm_dominates(offset@);
        lemma_arrival_velocity_ramp(offset@, max_speed as int, slowing_distance as int);
    }
    let desired_velocity: Vec3 = if distance_sq == 0 {
        Vec3::zero()
    } else if slowing_distance > 0 && distance_sq < wide_mul(slowing_distance, slowing_distance) {
        proof {
            lemma_fits_from_sqnorm(offset@, slowing_distance as int);
            lemma_scaled_capped(offset@, max_speed as int, slowing_distance as int);
        }
        offset.scaled(max_speed, slowing_distance)
    } else {
        let distance: i64 = offset.norm();
        proof {
            lemma_scaled_capped(offset@, max_speed as int, distance as int);
        }
        offset.scaled(max_speed, distance)
    };
    desired_velocity.minus(&vehicle.velocity())
}

/// Steering along `flowfield`: the present velocity less the flow at the
/// position predicted after `prediction_time`, cut to `max_speed`.
pub fn steer_to_follow_flow_field<V: VehicleBase, F: FlowfieldBase, A: AnnotationBase>(
    vehicle: &V,
    flowfield: &F,
    max_speed: i64,
    prediction_time: i64,
    annotations: &A,
) -> (r: Vec3)
    requires
        valid_vehicle(vehicle),
        0 <= max_speed <= STATE_MAX,
        in_state_range(prediction_time as int),
    ensures
        r@ == flow_steering(
            vehicle.kinematics().velocity@,
            flowfield.flow(vehicle.predicted(prediction_time))@,
            max_speed as int,
        ),
{
    let future_position: Vec3 = vehicle.predict_position(prediction_time);
    let flow: Vec3 = flowfield.sample(future_position);
    let capped: Vec3 = flow.truncate_length(max_speed);
    proof {
        lemma_fits_from_sqnorm(capped@, max_speed as int);
    }
    vehicle.velocity().minus(&capped)
}

/// Steering that keeps the vehicle on `path`: none while the position
/// predicted after `prediction_time` is inside the corridor, else toward the
/// point of the path nearest to that position.
pub fn steer_to_stay_on_path<V: VehicleBase, P: PathwayBase, A: AnnotationBase>(
    vehicle: &V,
    prediction_time: i64,
    path: &P,
    max_speed: i64,
    annotations: &A,
) -> (r: Vec3)
    requires
        valid_vehicle(vehicle),
        in_state_range(prediction_time as int),
        0 <= max_speed <= STATE_MAX,
    ensures
        r@ == path_steering(
            vehicle.local_space().position@,
            vehicle.kinematics().velocity@,
            path.nearest(vehicle.predicted(prediction_time)).0@,
            path.nearest(vehicle.predicted(prediction_time)).1 as int,
            max_speed as int,
        ),
        path.nearest(vehicle.predicted(prediction_time)).1 < 0 ==> r == (Vec3 { x: 0, y: 0, z: 0 }),
{
    let future_position: Vec3 = vehicle.predict_position(prediction_time);
    let (on_path, outside) = path.map_point_to_path(future_position);
    if outside < 0 {
        return Vec3::zero();
    }
    annotations.path_following(future_position, on_path, on_path, outside);
    steer_for_seek(vehicle, on_path, max_speed, annotations)
}

/// The point of `path` that a vehicle following it steers for, or nothing
/// where it needs no steering: where the position predicted after
/// `prediction_time` is inside the corridor and further along the path, the
/// way that `direction` asks for. The point lies as far along the path
/// from the vehicle as the vehicle gets in that time.
pub open spec fn follow_path_target<V: VehicleBase, P: PathwayBase>(
    vehicle: &V,
    direction: bool,
    prediction_time: i64,
    path: &P,
) -> Option<Vec3> {
    let advance = path_advance(
        direction,
        prediction_time as int,
        vehicle.kinematics().speed as int,
    );
    let future = vehicle.predicted(prediction_time);
    let now = path.distance_of(vehicle.local_space().position);
    if path.nearest(future).1 < 0 && right_way(
        advance,
        now as int,
        path.distance_of(future) as int,
    ) {
        None
    } else {
        Some(path.point_at((now + advance) as i64))
    }
}

/// Steering that takes the vehicle along `path`, forward where `direction`
/// holds and backward where not: none while the position predicted after
/// `prediction_time` is inside the corridor and further along, else toward
/// the point of the path that lies ahead of the vehicle by what it travels
/// in that time.
pub fn steer_to_follow_path<V: VehicleBase, P: PathwayBase, A: AnnotationBase>(
    vehicle: &V,
    direction: bool,
    prediction_time: i64,
    path: &P,
    max_speed: i64,
    annotations: &A,
) -> (r: Vec3)
    requires
        valid_vehicle(vehicle),
        in_state_range(prediction_time as int),
        0 <= max_speed <= STATE_MAX,
    ensures
        r@ == match follow_path_target(vehicle, direction, prediction_time, path) {
            None => Vector::zero(),
            Some(target) => seek_steering(
                vehicle.local_space().position@,
                vehicle.kinematics().velocity@,
                target@,
                max_speed as int,
            ),
        },
{
    let speed: i64 = vehicle.speed();
    proof {
        lemma_mul_bounded(prediction_time as int, speed as int, STATE_MAX as int, STATE_MAX as int);
        lemma_div_toward_zero_capped(prediction_time * speed, ONE as int, 1_000_000_000_000_000);
    }
    let travelled: i128 = div_round(wide_mul(prediction_time, speed), ONE as i128);
    let advance: i64 = if direction {
        travelled as i64
    } else {
        -(travelled as i64)
    };
    let future_position: Vec3 = vehicle.predict_position(prediction_time);
    let now_distance: i64 = path.map_point_to_path_distance(vehicle.position());
    let future_distance: i64 = path.map_point_to_path_distance(future_position);
    let right_way: bool = if advance > 0 {
        now_distance < future_distance
    } else {
        now_distance > future_distance
    };
    let (on_path, outside) = path.map_point_to_path(future_position);
    if outside < 0 && right_way {
        return Vec3::zero();
    }
    let target: Vec3 = path.map_path_distance_to_point(now_distance + advance);
    annotations.path_following(future_position, on_path, target, outside);
    steer_for_seek(vehicle, target, max_speed, annotations)
}

/// Steering around `obstacle`, which is the obstacle's own to compute.
pub fn steer_to_avoid_obstacle<V: VehicleBase, O: ObstacleBase, A: AnnotationBase>(
    vehicle: &V,
    min_collision_time: i64,
    obstacle: &O,
    annotations: &A,
) -> (r: Vec3)
    requires
        valid_vehicle(vehicle),
    ensures
        r == obstacle.avoidance(vehicle, min_collision_time),
{
    obstacle.steer_to_avoid(vehicle, min_collision_time)
}

/// The obstacle that `vehicle` meets first on its present course: the index
/// of the one with the least time to intersection, the earliest of them
/// where several share it, or nothing where no obstacle is in the way.
pub open spec fn soonest_obstacle<V: VehicleBase, O: ObstacleBase>(
    vehicle: &V,
    obstacles: Seq<O>,
) -> Option<int>
    decreases obstacles.len(),
{
    if obstacles.len() == 0 {
        None
    } else {
        let before = soonest_obstacle(vehicle, obstacles.drop_last());
        match (obstacles.last().intersection(vehicle), before) {
            (None, _) => before,
            (Some(_), None) => Some(obstacles.len() - 1),
            (Some(time), Some(i)) => if time < obstacles[i].intersection(vehicle).unwrap() {
                Some(obstacles.len() - 1)
            } else {
                before
            },
        }
    }
}

/// The obstacle met first is in the way, none is met sooner, and none before
/// it is met as soon; and there is one as soon as any obstacle is in the way.
pub proof fn lemma_soonest_obstacle<V: VehicleBase, O: ObstacleBase>(
    vehicle: &V,
    obstacles: Seq<O>,
)
    ensures
        match soonest_obstacle(vehicle, obstacles) {
            None => forall|k: int|
                0 <= k < obstacles.len() ==> (#[trigger] obstacles[k]).intersection(vehicle)
                    is None,
            Some(i) => {
                &&& 0 <= i < obstacles.len()
                &&& obstacles[i].intersection(vehicle) is Some
                &&& forall|k: int|
                    0 <= k < obstacles.len() ==> match (#[trigger] obstacles[k]).intersection(
                        vehicle,
                    ) {
                        None => true,
                        Some(time) => {
                            &&& obstacles[i].intersection(vehicle).unwrap() <= time
                            &&& k < i ==> obstacles[i].intersection(vehicle).unwrap() < time
                        },
                    }
            },
        },
    decreases obstacles.len(),
{
    if obstacles.len() > 0 {
        let front = obstacles.drop_last();
        lemma_soonest_obstacle(vehicle, front);
        assert forall|k: int| 0 <= k < front.len() implies front[k] == obstacles[k] by {}
        match soonest_obstacle(vehicle, obstacles) {
            None => {
                assert forall|k: int| 0 <= k < obstacles.len() implies (
                #[trigger] obstacles[k]).intersection(vehicle) is None by {
                    if k < front.len() {
                        assert(front[k].intersection(vehicle) is None);
                    }
                }
            },
            Some(i) => {
                assert forall|k: int| 0 <= k < obstacles.len() implies match (
                #[trigger] obstacles[k]).intersection(vehicle) {
                    None => true,
                    Some(time) => {
                        &&& obstacles[i].intersection(vehicle).unwrap() <= time
                        &&& k < i ==> obstacles[i].intersection(vehicle).unwrap() < time
                    },
                } by {
                    if k < front.len() {
                        assert(front[k] == obstacles[k]);
                    }
                }
            },
        }
    }
}

/// Steering around the obstacle among `obstacles` that the vehicle meets
/// first, which is that obstacle's own to compute; zero where none is in the
/// way.
pub fn steer_to_avoid_obstacles<V: VehicleBase, O: ObstacleBase, A: AnnotationBase>(
    vehicle: &V,
    min_collision_time: i64,
    obstacles: &[O],
    annotations: &A,
) -> (r: Vec3)
    requires
        valid_vehicle(vehicle),
    ensures
        r == match soonest_obstacle(vehicle, obstacles@) {
            None => Vec3 { x: 0, y: 0, z: 0 },
            Some(i) => obstacles@[i].avoidance(vehicle, min_collision_time),
        },
{
    let mut soonest: Option<(usize, i64)> = None;
    let mut k: usize = 0;
    while k < obstacles.len()
        invariant
            k <= obstacles.len(),
            valid_vehicle(vehicle),
            match soonest {
                None => soonest_obstacle(vehicle, obstacles@.take(k as int)) is None,
                Some((i, time)) => {
                    &&& i < k
                    &&& soonest_obstacle(vehicle, obstacles@.take(k as int)) == Some(i as int)
                    &&& obstacles@[i as int].intersection(vehicle) == Some(time)
                },
            },
        decreases obstacles.len() - k,
    {
        proof {
            assert(obstacles@.take(k as int + 1).drop_last() =~= obstacles@.take(k as int));
            assert(obstacles@.take(k as int + 1).last() == obstacles@[k as int]);
        }
        match obstacles[k].next_intersection(vehicle) {
            None => {},
            Some(time) => {
                let sooner: bool = match soonest {
                    None => true,
                    Some((_, least)) => time < least,
                };
                if sooner {
                    soonest = Some((k, time));
                }
            },
        }
        k += 1;
    }
    proof {
        assert(obstacles@.take(obstacles@.len() as int) =~= obstacles@);
    }
    match soonest {
        None => Vec3::zero(),
        Some((i, _)) => obstacles[i].steer_to_avoid(vehicle, min_collision_time),
    }
}

/// How far ahead the position of a vehicle at `distance`, moving at `speed`,
/// is predicted: see [`prediction_time`].
pub fn prediction_horizon(distance: i64, speed: i64, max_prediction_time: i64) -> (r: i64)
    requires
        distance >= 0,
    ensures
        r == prediction_time(distance as int, speed as int, max_prediction_time as int),
        r <= max_prediction_time,
        r >= 0 || r == max_prediction_time,
{
    if speed <= 0 {
        return max_prediction_time;
    }
    proof {
        lemma_div_toward_zero_bounds(distance * ONE, speed as int);
    }
    let rough_time: i128 = div_round(wide_mul(distance, ONE), speed as i128);
    if rough_time < max_prediction_time as i128 {
        rough_time as i64
    } else {
        max_prediction_time
    }
}

/// The time for which the position of `other` is predicted by `vehicle`.
pub open spec fn horizon<V: VehicleBase, M: VehicleBase>(
    vehicle: &V,
    other: &M,
    max_prediction_time: i64,
) -> i64 {
    prediction_time(
        other.local_space().position@.minus(vehicle.local_space().position@).norm(),
        other.kinematics().speed as int,
        max_prediction_time as int,
    ) as i64
}

/// Steering away from where `menace` will be: its position is predicted
/// for the time it takes over the distance between the two, at most for
/// `max_prediction_time`, and the vehicle flees that point.
pub fn steer_for_evasion<V: VehicleBase, M: VehicleBase, A: AnnotationBase>(
    vehicle: &V,
    menace: &M,
    max_prediction_time: i64,
    max_speed: i64,
    annotations: &A,
) -> (r: Vec3)
    requires
        valid_vehicle(vehicle),
        valid_vehicle(menace),
        in_state_range(max_prediction_time as int),
        0 <= max_speed <= STATE_MAX,
    ensures
        r@ == flee_steering(
            vehicle.local_space().position@,
            vehicle.kinematics().velocity@,
            menace.predicted(horizon(vehicle, menace, max_prediction_time))@,
            max_speed as int,
        ),
        horizon(vehicle, menace, max_prediction_time) <= max_prediction_time,
{
    let offset: Vec3 = menace.position().minus(&vehicle.position());
    let distance: i64 = offset.norm();
    let prediction_time: i64 = prediction_horizon(distance, menace.speed(), max_prediction_time);
    let target: Vec3 = menace.predict_position(prediction_time);
    steer_for_flee(vehicle, target, max_speed, annotations)
}

/// Steering toward where `quarry` will be: its position is predicted for
/// the time it takes over the distance between the two, at most for
/// `max_prediction_time`, and the vehicle seeks that point.
pub fn steer_for_pursuit<V: VehicleBase, M: VehicleBase, A: AnnotationBase>(
    vehicle: &V,
    quarry: &M,
    max_prediction_time: i64,
    max_speed: i64,
    annotations: &A,
) -> (r: Vec3)
    requires
        valid_vehicle(vehicle),
        valid_vehicle(quarry),
        in_state_range(max_prediction_time as int),
        0 <= max_speed <= STATE_MAX,
    ensures
        r@ == seek_steering(
            vehicle.local_space().position@,
            vehicle.kinematics().velocity@,
            quarry.predicted(horizon(vehicle, quarry, max_prediction_time))@,
            max_speed as int,
        ),
        horizon(vehicle, quarry, max_prediction_time) <= max_prediction_time,
{
    let offset: Vec3 = quarry.position().minus(&vehicle.position());
    let distance: i64 = offset.norm();
    let prediction_time: i64 = prediction_horizon(distance, quarry.speed(), max_prediction_time);
    let target: Vec3 = quarry.predict_position(prediction_time);
    steer_for_seek(vehicle, target, max_speed, annotations)
}

/// Steering toward the speed `target_speed`: along the vehicle's forward
/// direction, by the missing speed clamped to `max_force` either way.
pub fn steer_for_target_speed<V: VehicleBase, A: AnnotationBase>(
    vehicle: &V,
    target_speed: i64,
    max_force: i64,
    annotations: &A,
) -> (r: Vec3)
    requires
        valid_vehicle(vehicle),
        in_state_range(target_speed as int),
        0 <= max_force <= STATE_MAX,
    ensures
        r@ == target_speed_steering(
            vehicle.local_space().forward@,
            vehicle.kinematics().speed as int,
            target_speed as int,
            max_force as int,
        ),
{
    let speed_error: i64 = target_speed - vehicle.speed();
    let push: i64 = clamp(speed_error, -max_force, max_force);
    let forward: Vec3 = vehicle.forward();
    proof {
        lemma_scaled_fits(forward@, push as int, ONE as int, ONE as int, STATE_MAX as int);
    }
    forward.scaled(push, ONE)
}

/// One step of wandering for two given draws: each wander scalar walks by at
/// most `6 * dt` within `[-ONE, ONE]`, and the steering is the sum of the two
/// lateral directions, each weighted by its scalar.
pub fn steer_for_wander_from<V: VehicleBase, A: AnnotationBase>(
    vehicle: &V,
    dt: i64,
    wander_side: &mut i64,
    wander_up: &mut i64,
    draw_side: i64,
    draw_up: i64,
    annotations: &A,
) -> (r: Vec3)
    requires
        valid_vehicle(vehicle),
        in_state_range(dt as int),
    ensures
        *final(wander_side) == random_walk(
            *old(wander_side) as int,
            12 * dt,
            -ONE,
            ONE as int,
            draw_side as int,
        ),
        *final(wander_up) == random_walk(
            *old(wander_up) as int,
            12 * dt,
            -ONE,
            ONE as int,
            draw_up as int,
        ),
        -ONE <= *final(wander_side) <= ONE,
        -ONE <= *final(wander_up) <= ONE,
        r@ == wander_steering(
            vehicle.local_space().side@,
            vehicle.local_space().up@,
            *final(wander_side) as int,
            *final(wander_up) as int,
        ),
{
    let speed: i64 = 12 * dt;
    *wander_side = scalar_random_walk_from(*wander_side, speed, -ONE, ONE, draw_side);
    *wander_up = scalar_random_walk_from(*wander_up, speed, -ONE, ONE, draw_up);
    let side: Vec3 = vehicle.side();
    let up: Vec3 = vehicle.up();
    proof {
        lemma_scaled_fits(side@, *wander_side as int, ONE as int, ONE as int, ONE as int);
        lemma_scaled_fits(up@, *wander_up as int, ONE as int, ONE as int, ONE as int);
    }
    let sideways: Vec3 = side.scaled(*wander_side, ONE);
    let upward: Vec3 = up.scaled(*wander_up, ONE);
    sideways.plus(&upward)
}

/// One step of wandering, with the two draws taken from `rng`: first the one
/// for the side, then the one for up.
pub fn steer_for_wander<V: VehicleBase, R: RandomSource, A: AnnotationBase>(
    vehicle: &V,
    dt: i64,
    wander_side: &mut i64,
    wander_up: &mut i64,
    rng: &mut R,
    annotations: &A,
) -> (r: Vec3)
    requires
        valid_vehicle(vehicle),
        in_state_range(dt as int),
    ensures
        exists|draw: i64|
            *final(wander_side) == #[trigger] random_walk(
                *old(wander_side) as int,
                12 * dt,
                -ONE,
                ONE as int,
                draw as int,
            ),
        exists|draw: i64|
            *final(wander_up) == #[trigger] random_walk(
                *old(wander_up) as int,
                12 * dt,
                -ONE,
                ONE as int,
                draw as int,
            ),
        -ONE <= *final(wander_side) <= ONE,
        -ONE <= *final(wander_up) <= ONE,
        r@ == wander_steering(
            vehicle.local_space().side@,
            vehicle.local_space().up@,
            *final(wander_side) as int,
            *final(wander_up) as int,
        ),
{
    let draw_side: i64 = rng.next_unit();
    let draw_up: i64 = rng.next_unit();
    steer_for_wander_from(vehicle, dt, wander_side, wander_up, draw_side, draw_up, annotations)
}

} // verus!
