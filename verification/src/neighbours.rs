//! The behaviours of a vehicle among others: which of them are its
//! neighbours, and how it steers by them.

use vstd::prelude::*;
use crate::annotation::AnnotationBase;
use crate::model::{
    advanced, alignment_steering, approach_time, cohesion_steering, collides_at, flock,
    in_neighbourhood, lemma_empty_flock_no_steering, nearer_than, perpendicular_part,
    separation_steering, total_offset, total_repulsion, total_turn, turn_away, PARALLEL_COSINE,
    REPULSION_UNIT,
};
use crate::scalar::{
    div_round, in_state_range, lemma_div_toward_zero_capped, lemma_mul_bounded,
    lemma_root_up_at_most, mul_div, wide_mul, ONE, STATE_MAX,
};
use crate::vector::{
    direction_of, lemma_dot_bounded, lemma_mul_div_capped, lemma_norm_dominates,
    lemma_scaled_fits, lemma_sqnorm_bounded, lemma_travel_fits, Vec3, Vector,
};
use crate::vehicle::{valid_vehicle, LocalSpace, VehicleBase};

verus! {

/// Whether `other` is a neighbour of `vehicle`: no nearer than
/// `min_distance`, no further than `max_distance`, and within the cone of
/// `cos_max_angle` around the heading of `vehicle`. A vehicle at exactly
/// either distance, or exactly on the cone, is a neighbour.
pub fn is_in_boid_neighbourhood<V: VehicleBase, M: VehicleBase>(
    vehicle: &V,
    other: &M,
    min_distance: i64,
    max_distance: i64,
    cos_max_angle: i64,
) -> (r: bool)
    requires
        valid_vehicle(vehicle),
        valid_vehicle(other),
        in_state_range(cos_max_angle as int),
    ensures
        r == in_neighbourhood(
            vehicle.local_space().position@,
            vehicle.local_space().forward@,
            other.local_space().position@,
            min_distance as int,
            max_distance as int,
            cos_max_angle as int,
        ),
{
    let offset: Vec3 = other.position().minus(&vehicle.position());
    let forward: Vec3 = vehicle.forward();
    proof {
        lemma_sqnorm_bounded(offset@, 2 * STATE_MAX);
        lemma_dot_bounded(forward@, offset@, ONE as int, 2 * STATE_MAX);
    }
    let distance_sq: i128 = offset.sqnorm();
    if min_distance > 0 && wide_mul(min_distance, min_distance) > distance_sq {
        return false;
    }
    if max_distance < 0 || distance_sq > wide_mul(max_distance, max_distance) {
        return false;
    }
    let forwardness: i128 = forward.dot(&offset);
    proof {
        lemma_mul_bounded(
            forwardness as int,
            forwardness as int,
            6_000_000_000_000,
            6_000_000_000_000,
        );
        lemma_mul_bounded(
            cos_max_angle as int,
            cos_max_angle as int,
            STATE_MAX as int,
            STATE_MAX as int,
        );
        lemma_mul_bounded(
            cos_max_angle * cos_max_angle,
            distance_sq as int,
            1_000_000_000_000_000_000,
            12_000_000_000_000_000_000,
        );
    }
    let lhs: i128 = forwardness * forwardness;
    let rhs: i128 = wide_mul(cos_max_angle, cos_max_angle) * distance_sq;
    if cos_max_angle >= 0 {
        forwardness >= 0 && lhs >= rhs
    } else {
        forwardness >= 0 || lhs <= rhs
    }
}

/// The frames of a sequence of vehicles.
pub open spec fn frames<M: VehicleBase>(others: Seq<M>) -> Seq<LocalSpace> {
    Seq::new(others.len(), |i: int| others[i].local_space())
}

/// Every vehicle of the sequence is valid.
pub open spec fn all_valid<M: VehicleBase>(others: Seq<M>) -> bool {
    forall|i: int| 0 <= i < others.len() ==> valid_vehicle(&#[trigger] others[i])
}

/// The flock of `vehicle` among `others`: see [`flock`].
pub open spec fn flock_of<V: VehicleBase, M: VehicleBase>(
    vehicle: &V,
    others: Seq<M>,
    max_distance: i64,
    cos_max_angle: i64,
) -> Seq<LocalSpace> {
    flock(
        vehicle.local_space(),
        vehicle.kinematics().radius as int,
        frames(others),
        max_distance as int,
        cos_max_angle as int,
    )
}

/// The frames of those of `others` that flock with `vehicle`: the neighbours
/// no nearer than three radii of `vehicle`, in their order. The three
/// flocking behaviours all steer by this selection.
pub fn boid_neighbours<V: VehicleBase, M: VehicleBase>(
    vehicle: &V,
    others: &[M],
    max_distance: i64,
    cos_max_angle: i64,
) -> (r: Vec<LocalSpace>)
    requires
        valid_vehicle(vehicle),
        all_valid(others@),
        in_state_range(cos_max_angle as int),
    ensures
        r@ == flock_of(vehicle, others@, max_distance, cos_max_angle),
        forall|j: int| 0 <= j < r@.len() ==> (#[trigger] r@[j]).valid(),
{
    let min_distance: i64 = vehicle.radius() * 3;
    let mut found: Vec<LocalSpace> = Vec::new();
    let mut i: usize = 0;
    while i < others.len()
        invariant
            i <= others.len(),
            valid_vehicle(vehicle),
            all_valid(others@),
            in_state_range(cos_max_angle as int),
            min_distance == 3 * vehicle.kinematics().radius,
            found@ == flock_of(vehicle, others@.take(i as int), max_distance, cos_max_angle),
            forall|j: int| 0 <= j < found@.len() ==> (#[trigger] found@[j]).valid(),
        decreases others.len() - i,
    {
        let other: &M = &others[i];
        assert(valid_vehicle(&others@[i as int]));
        let near: bool = is_in_boid_neighbourhood(
            vehicle,
            other,
            min_distance,
            max_distance,
            cos_max_angle,
        );
        proof {
            let longer = frames(others@.take(i as int + 1));
            assert(longer.drop_last() =~= frames(others@.take(i as int)));
            assert(longer.last() == others@[i as int].local_space());
        }
        if near {
            found.push(
                LocalSpace {
                    side: other.side(),
                    up: other.up(),
                    forward: other.forward(),
                    position: other.position(),
                },
            );
        }
        i += 1;
    }
    proof {
        assert(others@.take(others@.len() as int) =~= others@);
    }
    found
}

/// One coordinate of the push away from a neighbour at an offset of squared
/// length `distance_sq`.
fn push_away(coordinate: i64, distance_sq: i128) -> (r: i128)
    requires
        distance_sq > 0,
        coordinate > i64::MIN,
        coordinate * coordinate <= distance_sq,
    ensures
        r == mul_div(-coordinate, REPULSION_UNIT as int, distance_sq as int),
        -REPULSION_UNIT <= r <= REPULSION_UNIT,
{
    proof {
        assert(-distance_sq <= -coordinate <= distance_sq) by (nonlinear_arith)
            requires
                coordinate * coordinate <= distance_sq,
        ;
        lemma_mul_div_capped(-coordinate as int, REPULSION_UNIT as int, distance_sq as int);
    }
    div_round(wide_mul(-coordinate, REPULSION_UNIT), distance_sq)
}

/// Steering apart from the flock: the direction of the mean push away from
/// the neighbours of `vehicle` among `others`, each push falling with the
/// distance. Without neighbours the steering is zero.
pub fn steer_for_separation<V: VehicleBase, M: VehicleBase, A: AnnotationBase>(
    vehicle: &V,
    max_distance: i64,
    cos_max_angle: i64,
    others: &[M],
    annotations: &A,
) -> (r: Vec3)
    requires
        valid_vehicle(vehicle),
        all_valid(others@),
        in_state_range(cos_max_angle as int),
    ensures
        r@ == separation_steering(
            vehicle.local_space().position@,
            flock_of(vehicle, others@, max_distance, cos_max_angle),
        ),
        flock_of(vehicle, others@, max_distance, cos_max_angle).len() == 0 ==> r@
            == Vector::zero(),
        r@.fits(ONE as int),
{
    let members: Vec<LocalSpace> = boid_neighbours(vehicle, others, max_distance, cos_max_angle);
    let position: Vec3 = vehicle.position();
    let mut sum_x: i128 = 0;
    let mut sum_y: i128 = 0;
    let mut sum_z: i128 = 0;
    let mut j: usize = 0;
    while j < members.len()
        invariant
            j <= members.len(),
            position@.fits(STATE_MAX as int),
            forall|k: int| 0 <= k < members@.len() ==> (#[trigger] members@[k]).valid(),
            (Vector { x: sum_x as int, y: sum_y as int, z: sum_z as int }) == total_repulsion(
                position@,
                members@.take(j as int),
            ),
            -(REPULSION_UNIT * j) <= sum_x <= REPULSION_UNIT * j,
            -(REPULSION_UNIT * j) <= sum_y <= REPULSION_UNIT * j,
            -(REPULSION_UNIT * j) <= sum_z <= REPULSION_UNIT * j,
        decreases members.len() - j,
    {
        assert(members@[j as int].valid());
        let offset: Vec3 = members[j].position.minus(&position);
        proof {
            lemma_sqnorm_bounded(offset@, 2 * STATE_MAX);
            assert(members@.take(j as int + 1).drop_last() =~= members@.take(j as int));
            assert(members@.take(j as int + 1).last() == members@[j as int]);
        }
        let distance_sq: i128 = offset.sqnorm();
        if distance_sq > 0 {
            sum_x = sum_x + push_away(offset.x, distance_sq);
            sum_y = sum_y + push_away(offset.y, distance_sq);
            sum_z = sum_z + push_away(offset.z, distance_sq);
        }
        j += 1;
    }
    proof {
        assert(members@.take(members@.len() as int) =~= members@);
        lemma_empty_flock_no_steering(position@, position@);
        if members@.len() == 0 {
            assert(members@ =~= Seq::empty());
        }
    }
    direction_of(sum_x, sum_y, sum_z)
}

/// Steering into line with the flock: the direction from the heading of
/// `vehicle` to the mean heading of its neighbours among `others`. Without
/// neighbours the steering is zero.
pub fn steer_for_alignment<V: VehicleBase, M: VehicleBase, A: AnnotationBase>(
    vehicle: &V,
    max_distance: i64,
    cos_max_angle: i64,
    others: &[M],
    annotations: &A,
) -> (r: Vec3)
    requires
        valid_vehicle(vehicle),
        all_valid(others@),
        in_state_range(cos_max_angle as int),
    ensures
        r@ == alignment_steering(
            vehicle.local_space().forward@,
            flock_of(vehicle, others@, max_distance, cos_max_angle),
        ),
        flock_of(vehicle, others@, max_distance, cos_max_angle).len() == 0 ==> r@
            == Vector::zero(),
        r@.fits(ONE as int),
{
    let members: Vec<LocalSpace> = boid_neighbours(vehicle, others, max_distance, cos_max_angle);
    let forward: Vec3 = vehicle.forward();
    let mut sum_x: i128 = 0;
    let mut sum_y: i128 = 0;
    let mut sum_z: i128 = 0;
    let mut j: usize = 0;
    while j < members.len()
        invariant
            j <= members.len(),
            forward@.fits(ONE as int),
            forall|k: int| 0 <= k < members@.len() ==> (#[trigger] members@[k]).valid(),
            (Vector { x: sum_x as int, y: sum_y as int, z: sum_z as int }) == total_turn(
                forward@,
                members@.take(j as int),
            ),
            -(2_000 * j) <= sum_x <= 2_000 * j,
            -(2_000 * j) <= sum_y <= 2_000 * j,
            -(2_000 * j) <= sum_z <= 2_000 * j,
        decreases members.len() - j,
    {
        assert(members@[j as int].valid());
        proof {
            assert(members@.take(j as int + 1).drop_last() =~= members@.take(j as int));
            assert(members@.take(j as int + 1).last() == members@[j as int]);
        }
        let turn: Vec3 = members[j].forward.minus(&forward);
        sum_x = sum_x + turn.x as i128;
        sum_y = sum_y + turn.y as i128;
        sum_z = sum_z + turn.z as i128;
        j += 1;
    }
    proof {
        assert(members@.take(members@.len() as int) =~= members@);
        lemma_empty_flock_no_steering(forward@, forward@);
        if members@.len() == 0 {
            assert(members@ =~= Seq::empty());
        }
    }
    direction_of(sum_x, sum_y, sum_z)
}

/// Steering together with the flock: the direction from `vehicle` to the
/// mean position of its neighbours among `others`. Without neighbours the
/// steering is zero.
pub fn steer_for_cohesion<V: VehicleBase, M: VehicleBase, A: AnnotationBase>(
    vehicle: &V,
    max_distance: i64,
    cos_max_angle: i64,
    others: &[M],
    annotations: &A,
) -> (r: Vec3)
    requires
        valid_vehicle(vehicle),
        all_valid(others@),
        in_state_range(cos_max_angle as int),
    ensures
        r@ == cohesion_steering(
            vehicle.local_space().position@,
            flock_of(vehicle, others@, max_distance, cos_max_angle),
        ),
        flock_of(vehicle, others@, max_distance, cos_max_angle).len() == 0 ==> r@
            == Vector::zero(),
        r@.fits(ONE as int),
{
    let members: Vec<LocalSpace> = boid_neighbours(vehicle, others, max_distance, cos_max_angle);
    let position: Vec3 = vehicle.position();
    let mut sum_x: i128 = 0;
    let mut sum_y: i128 = 0;
    let mut sum_z: i128 = 0;
    let mut j: usize = 0;
    while j < members.len()
        invariant
            j <= members.len(),
            position@.fits(STATE_MAX as int),
            forall|k: int| 0 <= k < members@.len() ==> (#[trigger] members@[k]).valid(),
            (Vector { x: sum_x as int, y: sum_y as int, z: sum_z as int }) == total_offset(
                position@,
                members@.take(j as int),
            ),
            -(2_000_000_000 * j) <= sum_x <= 2_000_000_000 * j,
            -(2_000_000_000 * j) <= sum_y <= 2_000_000_000 * j,
            -(2_000_000_000 * j) <= sum_z <= 2_000_000_000 * j,
        decreases members.len() - j,
    {
        assert(members@[j as int].valid());
        proof {
            assert(members@.take(j as int + 1).drop_last() =~= members@.take(j as int));
            assert(members@.take(j as int + 1).last() == members@[j as int]);
        }
        let offset: Vec3 = members[j].position.minus(&position);
        sum_x = sum_x + offset.x as i128;
        sum_y = sum_y + offset.y as i128;
        sum_z = sum_z + offset.z as i128;
        j += 1;
    }
    proof {
        assert(members@.take(members@.len() as int) =~= members@);
        lemma_empty_flock_no_steering(position@, position@);
        if members@.len() == 0 {
            assert(members@ =~= Seq::empty());
        }
    }
    direction_of(sum_x, sum_y, sum_z)
}

/// Whether `other` is too close to `vehicle`: the distance between their
/// centres is less than their two radii and `min_distance` together.
pub open spec fn too_close<V: VehicleBase, M: VehicleBase>(
    vehicle: &V,
    other: &M,
    min_distance: i64,
) -> bool {
    nearer_than(
        other.local_space().position@.minus(vehicle.local_space().position@),
        min_distance + vehicle.kinematics().radius + other.kinematics().radius,
    )
}

/// The first of `others` that is too close to `vehicle`, if any is.
pub open spec fn first_too_close<V: VehicleBase, M: VehicleBase>(
    vehicle: &V,
    others: Seq<M>,
    min_distance: i64,
) -> Option<int>
    decreases others.len(),
{
    if others.len() == 0 {
        None
    } else {
        match first_too_close(vehicle, others.drop_last(), min_distance) {
            Some(i) => Some(i),
            None => if too_close(vehicle, &others.last(), min_distance) {
                Some(others.len() - 1)
            } else {
                None
            },
        }
    }
}

/// The first that is too close is one of the others and too close, and none
/// before it is; and there is one as soon as any of the others is too close.
pub proof fn lemma_first_too_close<V: VehicleBase, M: VehicleBase>(
    vehicle: &V,
    others: Seq<M>,
    min_distance: i64,
)
    ensures
        match first_too_close(vehicle, others, min_distance) {
            None => forall|k: int|
                0 <= k < others.len() ==> !too_close(vehicle, &#[trigger] others[k], min_distance),
            Some(i) => {
                &&& 0 <= i < others.len()
                &&& too_close(vehicle, &others[i], min_distance)
                &&& forall|k: int|
                    0 <= k < i ==> !too_close(vehicle, &#[trigger] others[k], min_distance)
            },
        },
    decreases others.len(),
{
    if others.len() > 0 {
        let front = others.drop_last();
        lemma_first_too_close(vehicle, front, min_distance);
        assert forall|k: int| 0 <= k < front.len() implies front[k] == others[k] by {}
        match first_too_close(vehicle, others, min_distance) {
            None => {
                assert forall|k: int| 0 <= k < others.len() implies !too_close(
                    vehicle,
                    &#[trigger] others[k],
                    min_distance,
                ) by {
                    if k < front.len() {
                        assert(!too_close(vehicle, &front[k], min_distance));
                    }
                }
            },
            Some(i) => {
                assert forall|k: int| 0 <= k < i implies !too_close(
                    vehicle,
                    &#[trigger] others[k],
                    min_distance,
                ) by {
                    if k < front.len() {
                        assert(!too_close(vehicle, &front[k], min_distance));
                    }
                }
            },
        }
    }
}

/// The first that is too close among the first `n` of the others is the
/// first that is too close among them all.
proof fn lemma_first_too_close_stable<V: VehicleBase, M: VehicleBase>(
    vehicle: &V,
    others: Seq<M>,
    min_distance: i64,
    n: int,
    i: int,
)
    requires
        0 <= n <= others.len(),
        first_too_close(vehicle, others.take(n), min_distance) == Some(i),
    ensures
        first_too_close(vehicle, others, min_distance) == Some(i),
    decreases others.len(),
{
    if n == others.len() {
        assert(others.take(n) =~= others);
    } else {
        let front = others.drop_last();
        assert(front.take(n) =~= others.take(n));
        lemma_first_too_close_stable(vehicle, front, min_distance, n, i);
    }
}

/// The steering of `vehicle` away from `other`: the direction from the other
/// to the vehicle, less what of it lies along the vehicle's heading.
pub open spec fn sidestep<V: VehicleBase, M: VehicleBase>(vehicle: &V, other: &M) -> Vector {
    perpendicular_part(
        vehicle.local_space().position@.minus(other.local_space().position@),
        vehicle.local_space().forward@,
    )
}

/// Steering away from the first of `others` that is too close, or none.
pub open spec fn close_neighbour_steering<V: VehicleBase, M: VehicleBase>(
    vehicle: &V,
    others: Seq<M>,
    min_distance: i64,
) -> Vector {
    match first_too_close(vehicle, others, min_distance) {
        None => Vector::zero(),
        Some(i) => sidestep(vehicle, &others[i]),
    }
}

/// Steering away from the first of `others` that is too close: sideways,
/// at right angles to the heading. Zero where none is too close.
pub fn steer_to_avoid_close_neighbours<V: VehicleBase, M: VehicleBase, A: AnnotationBase>(
    vehicle: &V,
    min_distance: i64,
    others: &[M],
    annotations: &A,
) -> (r: Vec3)
    requires
        valid_vehicle(vehicle),
        all_valid(others@),
        in_state_range(min_distance as int),
    ensures
        r@ == close_neighbour_steering(vehicle, others@, min_distance),
{
    let position: Vec3 = vehicle.position();
    let forward: Vec3 = vehicle.forward();
    let radius: i64 = vehicle.radius();
    let mut i: usize = 0;
    while i < others.len()
        invariant
            i <= others.len(),
            valid_vehicle(vehicle),
            all_valid(others@),
            in_state_range(min_distance as int),
            position == vehicle.local_space().position,
            forward == vehicle.local_space().forward,
            radius == vehicle.kinematics().radius,
            first_too_close(vehicle, others@.take(i as int), min_distance) is None,
        decreases others.len() - i,
    {
        let other: &M = &others[i];
        assert(valid_vehicle(&others@[i as int]));
        let reach: i64 = min_distance + radius + other.radius();
        let offset: Vec3 = other.position().minus(&position);
        proof {
            lemma_sqnorm_bounded(offset@, 2 * STATE_MAX);
            lemma_mul_bounded(reach as int, reach as int, 3 * STATE_MAX, 3 * STATE_MAX);
            assert(others@.take(i as int + 1).drop_last() =~= others@.take(i as int));
            assert(others@.take(i as int + 1).last() == others@[i as int]);
        }
        let distance_sq: i128 = offset.sqnorm();
        proof {
            lemma_norm_dominates(offset@);
            if distance_sq == 0 {
                lemma_root_up_at_most(0, 0);
            } else {
                assert(offset@ != Vector::zero());
            }
        }
        if distance_sq > 0 && reach > 0 && distance_sq < wide_mul(reach, reach) {
            annotations.avoid_close_neighbour(other, min_distance);
            let away: Vec3 = offset.negated();
            proof {
                lemma_first_too_close_stable(
                    vehicle,
                    others@,
                    min_distance,
                    i as int + 1,
                    i as int,
                );
                assert(away@ == vehicle.local_space().position@.minus(
                    other.local_space().position@,
                ));
                lemma_dot_bounded(away@, forward@, 2 * STATE_MAX, ONE as int);
                let along = away@.dot(forward@);
                lemma_mul_bounded(forward@.x, along, ONE as int, 6_000_000_000_000);
                lemma_mul_bounded(forward@.y, along, ONE as int, 6_000_000_000_000);
                lemma_mul_bounded(forward@.z, along, ONE as int, 6_000_000_000_000);
                lemma_div_toward_zero_capped(forward@.x * along, ONE * ONE, 6_000_000_000);
                lemma_div_toward_zero_capped(forward@.y * along, ONE * ONE, 6_000_000_000);
                lemma_div_toward_zero_capped(forward@.z * along, ONE * ONE, 6_000_000_000);
            }
            let along: i128 = away.dot(&forward);
            let whole: i128 = (ONE as i128) * (ONE as i128);
            let parallel: Vec3 = Vec3 {
                x: div_round((forward.x as i128) * along, whole) as i64,
                y: div_round((forward.y as i128) * along, whole) as i64,
                z: div_round((forward.z as i128) * along, whole) as i64,
            };
            return away.minus(&parallel);
        }
        i += 1;
    }
    proof {
        assert(others@.take(others@.len() as int) =~= others@);
    }
    Vec3::zero()
}

/// The time at which `vehicle` and `other` are nearest to each other on
/// their present courses: see [`approach_time`].
pub open spec fn meeting_time<V: VehicleBase, M: VehicleBase>(vehicle: &V, other: &M) -> int {
    approach_time(
        vehicle.local_space().position@,
        vehicle.kinematics().velocity@,
        other.local_space().position@,
        other.kinematics().velocity@,
    )
}

/// Whether `other` threatens `vehicle` with a collision before the time
/// `before`: the two are nearest to each other at a time that is not past
/// and earlier than `before`, and are then nearer than twice the radius of
/// `vehicle`.
pub open spec fn threatens<V: VehicleBase, M: VehicleBase>(
    vehicle: &V,
    other: &M,
    before: int,
) -> bool {
    let time = meeting_time(vehicle, other);
    &&& 0 <= time < before
    &&& collides_at(
        vehicle.local_space().position@,
        vehicle.kinematics().velocity@,
        other.local_space().position@,
        other.kinematics().velocity@,
        time,
        2 * vehicle.kinematics().radius,
    )
}

/// The one of `others` that threatens `vehicle` soonest with a collision
/// before `min_time_to_collision`, the earliest of them where several
/// threaten at the same time, or nothing where none threatens.
pub open spec fn nearest_threat<V: VehicleBase, M: VehicleBase>(
    vehicle: &V,
    others: Seq<M>,
    min_time_to_collision: i64,
) -> Option<int>
    decreases others.len(),
{
    if others.len() == 0 {
        None
    } else {
        let before = nearest_threat(vehicle, others.drop_last(), min_time_to_collision);
        let limit = match before {
            None => min_time_to_collision as int,
            Some(i) => meeting_time(vehicle, &others[i]),
        };
        if threatens(vehicle, &others.last(), limit) {
            Some(others.len() - 1)
        } else {
            before
        }
    }
}

/// The nearest threat threatens before `min_time_to_collision`, none of the
/// others that do so is met sooner, and none before it is met as soon; and
/// there is one as soon as any of the others threatens before that time.
pub proof fn lemma_nearest_threat<V: VehicleBase, M: VehicleBase>(
    vehicle: &V,
    others: Seq<M>,
    min_time_to_collision: i64,
)
    ensures
        match nearest_threat(vehicle, others, min_time_to_collision) {
            None => forall|k: int|
                0 <= k < others.len() ==> !threatens(
                    vehicle,
                    &#[trigger] others[k],
                    min_time_to_collision as int,
                ),
            Some(i) => {
                &&& 0 <= i < others.len()
                &&& threatens(vehicle, &others[i], min_time_to_collision as int)
                &&& forall|k: int|
                    0 <= k < others.len() && threatens(
                        vehicle,
                        &#[trigger] others[k],
                        min_time_to_collision as int,
                    ) ==> {
                        &&& meeting_time(vehicle, &others[i]) <= meeting_time(vehicle, &others[k])
                        &&& k < i ==> meeting_time(vehicle, &others[i]) < meeting_time(
                            vehicle,
                            &others[k],
                        )
                    }
            },
        },
    decreases others.len(),
{
    if others.len() > 0 {
        let front = others.drop_last();
        lemma_nearest_threat(vehicle, front, min_time_to_collision);
        assert forall|k: int| 0 <= k < front.len() implies front[k] == others[k] by {}
        match nearest_threat(vehicle, others, min_time_to_collision) {
            None => {
                assert forall|k: int| 0 <= k < others.len() implies !threatens(
                    vehicle,
                    &#[trigger] others[k],
                    min_time_to_collision as int,
                ) by {
                    if k < front.len() {
                        assert(!threatens(vehicle, &front[k], min_time_to_collision as int));
                    }
                }
            },
            Some(i) => {
                assert forall|k: int|
                    0 <= k < others.len() && threatens(
                        vehicle,
                        &#[trigger] others[k],
                        min_time_to_collision as int,
                    ) implies {
                    &&& meeting_time(vehicle, &others[i]) <= meeting_time(vehicle, &others[k])
                    &&& k < i ==> meeting_time(vehicle, &others[i]) < meeting_time(
                        vehicle,
                        &others[k],
                    )
                } by {
                    if k < front.len() {
                        assert(threatens(vehicle, &front[k], min_time_to_collision as int));
                    }
                }
            },
        }
    }
}

/// The side to which `vehicle` turns from `threat`, which it meets at
/// `time`: `ONE` for its side, `-ONE` for the opposite one, 0 for neither.
/// Where the two head against each other, it turns away from where the
/// threat will be; where they head the same way, away from where the threat
/// is; where their courses cross, the slower of the two turns behind the
/// other, and the faster does not turn.
pub open spec fn dodge<V: VehicleBase, M: VehicleBase>(vehicle: &V, threat: &M, time: int) -> int {
    let side = vehicle.local_space().side@;
    let position = vehicle.local_space().position@;
    let parallelness = vehicle.local_space().forward@.dot(threat.local_space().forward@);
    if parallelness < -(PARALLEL_COSINE * ONE) {
        turn_away(
            side,
            advanced(threat.local_space().position@, threat.kinematics().velocity@, time).minus(
                position,
            ),
        )
    } else if parallelness > PARALLEL_COSINE * ONE {
        turn_away(side, threat.local_space().position@.minus(position))
    } else if threat.kinematics().speed <= vehicle.kinematics().speed {
        turn_away(side, threat.kinematics().velocity@)
    } else {
        0
    }
}

/// Steering of `vehicle` clear of `others`: away from the first that is
/// already touching it, where that gives a direction; else to the side,
/// away from the one that threatens it soonest with a collision; else none.
pub open spec fn avoid_neighbours_steering<V: VehicleBase, M: VehicleBase>(
    vehicle: &V,
    others: Seq<M>,
    min_time_to_collision: i64,
) -> Vector {
    let separation = close_neighbour_steering(vehicle, others, 0);
    if separation != Vector::zero() {
        separation
    } else {
        match nearest_threat(vehicle, others, min_time_to_collision) {
            None => Vector::zero(),
            Some(i) => vehicle.local_space().side@.scaled(
                dodge(vehicle, &others[i], meeting_time(vehicle, &others[i])),
                ONE as int,
            ),
        }
    }
}

/// The time at which `vehicle` and `other` are nearest to each other on
/// their present courses, negative where that time is past.
pub fn nearest_approach_time<V: VehicleBase, M: VehicleBase>(vehicle: &V, other: &M) -> (r: i128)
    requires
        valid_vehicle(vehicle),
        valid_vehicle(other),
    ensures
        r == meeting_time(vehicle, other),
{
    let relative_velocity: Vec3 = other.velocity().minus(&vehicle.velocity());
    let relative_position: Vec3 = vehicle.position().minus(&other.position());
    proof {
        lemma_sqnorm_bounded(relative_velocity@, 2 * STATE_MAX);
        lemma_dot_bounded(relative_velocity@, relative_position@, 2 * STATE_MAX, 2 * STATE_MAX);
    }
    let relative_speed_sq: i128 = relative_velocity.sqnorm();
    if relative_speed_sq == 0 {
        return 0;
    }
    let projection: i128 = relative_velocity.dot(&relative_position);
    proof {
        lemma_mul_bounded(projection as int, ONE as int, 12_000_000_000_000_000_000, ONE as int);
    }
    div_round(projection * (ONE as i128), relative_speed_sq)
}

/// Where a vehicle is after `time` on its present course.
fn position_after<M: VehicleBase>(vehicle: &M, time: i64) -> (r: Vec3)
    requires
        valid_vehicle(vehicle),
        0 <= time <= STATE_MAX,
    ensures
        r@ == advanced(
            vehicle.local_space().position@,
            vehicle.kinematics().velocity@,
            time as int,
        ),
        r@.fits(1_000_001_000_000_000),
{
    let velocity: Vec3 = vehicle.velocity();
    proof {
        lemma_travel_fits(velocity@, time as int);
    }
    vehicle.position().plus(&velocity.scaled(time, ONE))
}

/// Whether `other` threatens `vehicle` with a collision before `before`.
fn is_threat<V: VehicleBase, M: VehicleBase>(vehicle: &V, other: &M, before: i64) -> (r: Option<
    i64,
>)
    requires
        valid_vehicle(vehicle),
        valid_vehicle(other),
        in_state_range(before as int),
    ensures
        r is Some <==> threatens(vehicle, other, before as int),
        r matches Some(time) ==> time == meeting_time(vehicle, other) && 0 <= time < before,
{
    let time: i128 = nearest_approach_time(vehicle, other);
    if time < 0 || time >= before as i128 {
        return None;
    }
    let time: i64 = time as i64;
    let mine: Vec3 = position_after(vehicle, time);
    let theirs: Vec3 = position_after(other, time);
    let gap: Vec3 = theirs.minus(&mine);
    let threshold: i64 = 2 * vehicle.radius();
    proof {
        lemma_sqnorm_bounded(gap@, 2_000_002_000_000_000);
    }
    if threshold > 0 && gap.sqnorm() < wide_mul(threshold, threshold) {
        Some(time)
    } else {
        None
    }
}

/// Whether the danger in the direction `danger` asks for a turn to the
/// vehicle's side or to the opposite one.
fn turn_from(side: &Vec3, danger: &Vec3) -> (r: i64)
    requires
        side@.fits(ONE as int),
        danger@.fits(2_000_000_000_000_000),
    ensures
        r == turn_away(side@, danger@),
{
    if danger.dot(side) > 0 {
        -ONE
    } else {
        ONE
    }
}

/// The side to which `vehicle` turns from `threat`, which it meets at
/// `time`: see [`dodge`].
fn dodge_of<V: VehicleBase, M: VehicleBase>(vehicle: &V, threat: &M, time: i64) -> (r: i64)
    requires
        valid_vehicle(vehicle),
        valid_vehicle(threat),
        0 <= time <= STATE_MAX,
    ensures
        r == dodge(vehicle, threat, time as int),
        -ONE <= r <= ONE,
{
    let side: Vec3 = vehicle.side();
    let forward: Vec3 = vehicle.forward();
    let heading: Vec3 = threat.forward();
    proof {
        lemma_dot_bounded(forward@, heading@, ONE as int, ONE as int);
        lemma_mul_bounded(PARALLEL_COSINE as int, ONE as int, PARALLEL_COSINE as int, ONE as int);
    }
    let parallelness: i128 = forward.dot(&heading);
    let edge: i128 = (PARALLEL_COSINE as i128) * (ONE as i128);
    if parallelness < -edge {
        let danger: Vec3 = position_after(threat, time).minus(&vehicle.position());
        turn_from(&side, &danger)
    } else if parallelness > edge {
        let danger: Vec3 = threat.position().minus(&vehicle.position());
        turn_from(&side, &danger)
    } else if threat.speed() <= vehicle.speed() {
        let danger: Vec3 = threat.velocity();
        turn_from(&side, &danger)
    } else {
        0
    }
}

/// Steering of `vehicle` clear of `others`. One that is already touching
/// it comes first: the vehicle sidesteps it as
/// [`steer_to_avoid_close_neighbours`] does. Else the vehicle looks for the
/// one that it would collide with soonest, before `min_time_to_collision`,
/// and turns to the side, away from it. Else it does not steer.
pub fn steer_to_avoid_neighbours<V: VehicleBase, M: VehicleBase, A: AnnotationBase>(
    vehicle: &V,
    min_time_to_collision: i64,
    others: &[M],
    annotations: &A,
) -> (r: Vec3)
    requires
        valid_vehicle(vehicle),
        all_valid(others@),
        in_state_range(min_time_to_collision as int),
    ensures
        r@ == avoid_neighbours_steering(vehicle, others@, min_time_to_collision),
{
    let separation: Vec3 = steer_to_avoid_close_neighbours(vehicle, 0, others, annotations);
    if separation.x != 0 || separation.y != 0 || separation.z != 0 {
        return separation;
    }
    let mut threat: Option<(usize, i64)> = None;
    let mut limit: i64 = min_time_to_collision;
    let mut k: usize = 0;
    while k < others.len()
        invariant
            k <= others.len(),
            valid_vehicle(vehicle),
            all_valid(others@),
            in_state_range(min_time_to_collision as int),
            in_state_range(limit as int),
            match threat {
                None => {
                    &&& nearest_threat(vehicle, others@.take(k as int), min_time_to_collision)
                        is None
                    &&& limit == min_time_to_collision
                },
                Some((i, time)) => {
                    &&& i < k
                    &&& nearest_threat(vehicle, others@.take(k as int), min_time_to_collision)
                        == Some(i as int)
                    &&& time == meeting_time(vehicle, &others@[i as int])
                    &&& limit == time
                    &&& 0 <= time
                },
            },
        decreases others.len() - k,
    {
        assert(valid_vehicle(&others@[k as int]));
        proof {
            assert(others@.take(k as int + 1).drop_last() =~= others@.take(k as int));
            assert(others@.take(k as int + 1).last() == others@[k as int]);
            if threat is Some {
                assert(others@.take(k as int + 1)[threat.unwrap().0 as int]
                    == others@[threat.unwrap().0 as int]);
            }
        }
        match is_threat(vehicle, &others[k], limit) {
            None => {},
            Some(time) => {
                threat = Some((k, time));
                limit = time;
            },
        }
        k += 1;
    }
    proof {
        assert(others@.take(others@.len() as int) =~= others@);
    }
    match threat {
        None => Vec3::zero(),
        Some((i, time)) => {
            assert(valid_vehicle(&others@[i as int]));
            let steer: i64 = dodge_of(vehicle, &others[i], time);
            let side: Vec3 = vehicle.side();
            proof {
                lemma_scaled_fits(side@, steer as int, ONE as int, ONE as int, ONE as int);
            }
            annotations.avoid_neighbour(
                &others[i],
                steer,
                position_after(vehicle, time),
                position_after(&others[i], time),
            );
            side.scaled(steer, ONE)
        },
    }
}

} // verus!
