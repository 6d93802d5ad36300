//! What each behaviour computes, stated over unbounded vectors and integers,
//! and the laws that hold of it.

use vstd::prelude::*;
use crate::scalar::{abs_of, clamped, lemma_div_toward_zero_bounds, min_of, mul_div, ONE};
use crate::vector::{
    lemma_norm_dominates, lemma_scaled_sqnorm, lemma_sqnorm_bounded, lemma_truncated_odd,
    truncated, Vector,
};
use crate::vehicle::LocalSpace;

verus! {

/// The velocity wanted by a vehicle at `position` that seeks `target`: the
/// offset to the target, cut to `max_speed`.
pub open spec fn seek_velocity(position: Vector, target: Vector, max_speed: int) -> Vector {
    truncated(target.minus(position), max_speed)
}

/// The velocity wanted by a vehicle at `position` that flees `target`: the
/// offset from the target, cut to `max_speed`.
pub open spec fn flee_velocity(position: Vector, target: Vector, max_speed: int) -> Vector {
    truncated(position.minus(target), max_speed)
}

/// Steering toward `target`: the wanted velocity less the present one.
pub open spec fn seek_steering(
    position: Vector,
    velocity: Vector,
    target: Vector,
    max_speed: int,
) -> Vector {
    seek_velocity(position, target, max_speed).minus(velocity)
}

/// Steering away from `target`: the wanted velocity less the present one.
pub open spec fn flee_steering(
    position: Vector,
    velocity: Vector,
    target: Vector,
    max_speed: int,
) -> Vector {
    flee_velocity(position, target, max_speed).minus(velocity)
}

/// The speed wanted at `distance` from a target: `max_speed` scaled by the
/// share of `slowing_distance` that is left, and never more than `max_speed`.
/// A slowing distance that is not positive leaves no zone to slow down in,
/// and the speed is `max_speed` everywhere.
pub open spec fn clipped_speed(distance: int, max_speed: int, slowing_distance: int) -> int {
    if slowing_distance <= 0 {
        max_speed
    } else {
        min_of(mul_div(max_speed, distance, slowing_distance), max_speed)
    }
}

/// The velocity wanted by a vehicle that is to arrive at a target `offset`
/// away: along the offset, at the clipped speed. The offset is multiplied by
/// the ratio of that speed to the distance, and the ratio is taken exactly:
/// inside the slowing distance, where the speed is the distance times
/// `max_speed / slowing_distance`, it is `max_speed / slowing_distance`
/// whatever the distance; at the slowing distance and beyond it is
/// `max_speed` over the distance. At the target itself the offset has no
/// direction, and the wanted velocity is zero.
pub open spec fn arrival_velocity(offset: Vector, max_speed: int, slowing_distance: int) -> Vector {
    if offset.sqnorm() == 0 {
        Vector::zero()
    } else if slowing_distance > 0 && offset.sqnorm() < slowing_distance * slowing_distance {
        offset.scaled(max_speed, slowing_distance)
    } else {
        offset.scaled(max_speed, offset.norm())
    }
}

/// Steering for arrival at `target`: the wanted velocity less the present one.
pub open spec fn arrival_steering(
    position: Vector,
    velocity: Vector,
    target: Vector,
    max_speed: int,
    slowing_distance: int,
) -> Vector {
    arrival_velocity(target.minus(position), max_speed, slowing_distance).minus(velocity)
}

/// How far ahead the position of another vehicle is predicted: the time that
/// its own speed takes over the distance to it, and never more than
/// `max_prediction_time`. A vehicle that stands still never covers the
/// distance, and the time is `max_prediction_time`.
pub open spec fn prediction_time(distance: int, speed: int, max_prediction_time: int) -> int {
    if speed <= 0 {
        max_prediction_time
    } else {
        min_of(mul_div(distance, ONE as int, speed), max_prediction_time)
    }
}

/// Steering toward a wanted speed: along `forward`, by the missing speed
/// clamped to `max_force` either way.
pub open spec fn target_speed_steering(
    forward: Vector,
    speed: int,
    target_speed: int,
    max_force: int,
) -> Vector {
    forward.scaled(clamped(target_speed - speed, -max_force, max_force), ONE as int)
}

/// The wobble of a wandering vehicle: its two lateral directions, each
/// weighted by its wander scalar.
pub open spec fn wander_steering(side: Vector, up: Vector, wander_side: int, wander_up: int) -> Vector {
    side.scaled(wander_side, ONE as int).plus(up.scaled(wander_up, ONE as int))
}

/// Steering along a flow: the present velocity less the flow cut to
/// `max_speed`.
pub open spec fn flow_steering(velocity: Vector, flow: Vector, max_speed: int) -> Vector {
    velocity.minus(truncated(flow, max_speed))
}

/// Steering that keeps a vehicle on a path, given the point of the path
/// nearest to where the vehicle will be and how far outside the corridor
/// that is: none while it is inside, else toward the point on the path.
pub open spec fn path_steering(
    position: Vector,
    velocity: Vector,
    on_path: Vector,
    outside: int,
    max_speed: int,
) -> Vector {
    if outside < 0 {
        Vector::zero()
    } else {
        seek_steering(position, velocity, on_path, max_speed)
    }
}

/// How far along a path a vehicle is to get within `prediction_time` at
/// `speed`: forward along the path where `direction` holds, else backward.
pub open spec fn path_advance(direction: bool, prediction_time: int, speed: int) -> int {
    if direction {
        mul_div(prediction_time, speed, ONE as int)
    } else {
        -mul_div(prediction_time, speed, ONE as int)
    }
}

/// Whether a vehicle that is at `now` along a path and will be at `future`
/// moves the way that `advance` asks for.
pub open spec fn right_way(advance: int, now: int, future: int) -> bool {
    if advance > 0 {
        now < future
    } else {
        now > future
    }
}

/// The part of `v` at right angles to the direction `unit`, a vector about
/// one long: `v` less its projection on `unit`.
pub open spec fn perpendicular_part(v: Vector, unit: Vector) -> Vector {
    v.minus(unit.scaled(v.dot(unit), ONE * ONE))
}

/// Whether a neighbour at `offset` is nearer than `reach`. One at the very
/// same place gives no direction to steer away in, and does not count.
pub open spec fn nearer_than(offset: Vector, reach: int) -> bool {
    &&& offset != Vector::zero()
    &&& reach > 0
    &&& offset.sqnorm() < reach * reach
}

/// The cosine beyond which two headings count as parallel, and below whose
/// negative they count as opposed: that of 45 degrees.
pub const PARALLEL_COSINE: i64 = 707;

/// Where a vehicle in uniform motion is after `time`.
pub open spec fn advanced(position: Vector, velocity: Vector, time: int) -> Vector {
    position.plus(velocity.scaled(time, ONE as int))
}

/// The time at which two vehicles in uniform motion are nearest to each
/// other: now where they move alike, else the time at which the other,
/// seen from the vehicle, passes it. A time in the past is negative.
pub open spec fn approach_time(
    position: Vector,
    velocity: Vector,
    other_position: Vector,
    other_velocity: Vector,
) -> int {
    let relative_velocity = other_velocity.minus(velocity);
    if relative_velocity.sqnorm() == 0 {
        0
    } else {
        mul_div(
            relative_velocity.dot(position.minus(other_position)),
            ONE as int,
            relative_velocity.sqnorm(),
        )
    }
}

/// Whether two vehicles in uniform motion are nearer to each other than
/// `threshold` at `time`.
pub open spec fn collides_at(
    position: Vector,
    velocity: Vector,
    other_position: Vector,
    other_velocity: Vector,
    time: int,
    threshold: int,
) -> bool {
    let gap = advanced(other_position, other_velocity, time).minus(
        advanced(position, velocity, time),
    );
    threshold > 0 && gap.sqnorm() < threshold * threshold
}

/// The side to turn to, given the direction in which the danger lies: `ONE`
/// for the vehicle's side, `-ONE` for the opposite one, which is taken where
/// the danger lies on the vehicle's side.
pub open spec fn turn_away(side: Vector, danger: Vector) -> int {
    if danger.dot(side) > 0 {
        -ONE
    } else {
        ONE as int
    }
}

/// The velocity wanted in flight is the negated velocity wanted in pursuit of
/// the same target from the same position.
pub proof fn lemma_flee_mirrors_seek(position: Vector, target: Vector, max_speed: int)
    requires
        max_speed >= 0,
    ensures
        flee_velocity(position, target, max_speed) == seek_velocity(
            position,
            target,
            max_speed,
        ).negated(),
        flee_steering(position, Vector::zero(), target, max_speed) == seek_steering(
            position,
            Vector::zero(),
            target,
            max_speed,
        ).negated(),
{
    let offset = target.minus(position);
    assert(position.minus(target) == offset.negated());
    lemma_truncated_odd(offset, max_speed);
}

/// The wanted speed ramps with the distance inside the slowing distance and
/// is capped outside: it is `max_speed` at the slowing distance and beyond,
/// half of it at half the slowing distance, and nowhere more.
pub proof fn lemma_clipped_speed_ramp(distance: int, max_speed: int, slowing_distance: int)
    requires
        distance >= 0,
        max_speed >= 0,
        slowing_distance > 0,
    ensures
        0 <= clipped_speed(distance, max_speed, slowing_distance) <= max_speed,
        distance >= slowing_distance ==> clipped_speed(distance, max_speed, slowing_distance)
            == max_speed,
        2 * distance == slowing_distance ==> clipped_speed(distance, max_speed, slowing_distance)
            == max_speed / 2,
        distance < slowing_distance ==> clipped_speed(distance, max_speed, slowing_distance)
            == mul_div(max_speed, distance, slowing_distance),
{
    let ramped = mul_div(max_speed, distance, slowing_distance);
    lemma_div_toward_zero_bounds(max_speed * distance, slowing_distance);
    assert(max_speed * distance >= 0) by (nonlinear_arith)
        requires
            max_speed >= 0,
            distance >= 0,
    ;
    if distance >= slowing_distance {
        assert(ramped >= max_speed) by (nonlinear_arith)
            requires
                distance >= slowing_distance,
                slowing_distance > 0,
                max_speed >= 0,
                max_speed * distance < ramped * slowing_distance + slowing_distance,
        ;
    } else {
        assert(ramped <= max_speed) by (nonlinear_arith)
            requires
                0 <= distance < slowing_distance,
                max_speed >= 0,
                0 <= ramped * slowing_distance <= max_speed * distance,
        ;
    }
    if 2 * distance == slowing_distance {
        let half = max_speed / 2;
        assert(ramped == half) by (nonlinear_arith)
            requires
                distance > 0,
                slowing_distance == 2 * distance,
                max_speed >= 0,
                0 <= ramped * slowing_distance <= max_speed * distance,
                max_speed * distance < ramped * slowing_distance + slowing_distance,
                half == max_speed / 2,
        {
            assert(2 * half <= max_speed < 2 * half + 2);
            assert(ramped * 2 * distance <= max_speed * distance);
            assert(max_speed * distance < (ramped * 2 + 2) * distance);
            assert(ramped * 2 <= max_speed);
            assert(max_speed < ramped * 2 + 2);
        }
    }
}

/// The velocity wanted for arrival is no faster than the clipped speed:
/// than `max_speed` times the share of the slowing distance that is left,
/// inside it, and than `max_speed`, at the slowing distance and beyond. At
/// half the slowing distance it is no faster than half of `max_speed`.
pub proof fn lemma_arrival_velocity_ramp(offset: Vector, max_speed: int, slowing_distance: int)
    requires
        max_speed >= 0,
    ensures
        slowing_distance > 0 && offset.sqnorm() < slowing_distance * slowing_distance
            ==> arrival_velocity(offset, max_speed, slowing_distance).sqnorm() * (slowing_distance
            * slowing_distance) <= offset.sqnorm() * (max_speed * max_speed),
        slowing_distance > 0 && 4 * offset.sqnorm() == slowing_distance * slowing_distance ==> 4
            * arrival_velocity(offset, max_speed, slowing_distance).sqnorm() <= max_speed
            * max_speed,
        arrival_velocity(offset, max_speed, slowing_distance).sqnorm() <= max_speed * max_speed,
{
    let s = offset.sqnorm();
    let v = arrival_velocity(offset, max_speed, slowing_distance);
    let mm = max_speed * max_speed;
    lemma_sqnorm_bounded(offset, abs_of(offset.x) + abs_of(offset.y) + abs_of(offset.z));
    lemma_sqnorm_bounded(v, abs_of(v.x) + abs_of(v.y) + abs_of(v.z));
    assert(mm >= 0) by (nonlinear_arith)
        requires
            mm == max_speed * max_speed,
    ;
    if s == 0 {
    } else if slowing_distance > 0 && s < slowing_distance * slowing_distance {
        lemma_scaled_sqnorm(offset, max_speed, slowing_distance);
        let dd = slowing_distance * slowing_distance;
        let q = v.sqnorm();
        assert(q <= mm) by (nonlinear_arith)
            requires
                q * dd <= s * mm,
                0 < s < dd,
                mm >= 0,
                q >= 0,
        {
            assert(s * mm <= dd * mm);
            assert(q * dd <= mm * dd);
        }
        if 4 * s == dd {
            assert(4 * q <= mm) by (nonlinear_arith)
                requires
                    q * dd <= s * mm,
                    4 * s == dd,
                    s > 0,
            {
                assert(q * (4 * s) <= s * mm);
                assert((4 * q) * s <= mm * s);
            }
        }
    } else {
        lemma_norm_dominates(offset);
        let len = offset.norm();
        lemma_scaled_sqnorm(offset, max_speed, len);
        let ll = len * len;
        let q = v.sqnorm();
        assert(q <= mm) by (nonlinear_arith)
            requires
                q * ll <= s * mm,
                0 < s <= ll,
                mm >= 0,
                q >= 0,
        {
            assert(s * mm <= ll * mm);
            assert(q * ll <= mm * ll);
        }
    }
}

/// The position of another vehicle is never predicted further ahead than
/// `max_prediction_time`, and exactly that far ahead where the vehicle would
/// take longer over the distance.
pub proof fn lemma_prediction_time_capped(distance: int, speed: int, max_prediction_time: int)
    ensures
        prediction_time(distance, speed, max_prediction_time) <= max_prediction_time,
        speed > 0 && mul_div(distance, ONE as int, speed) >= max_prediction_time
            ==> prediction_time(distance, speed, max_prediction_time) == max_prediction_time,
        speed > 0 && mul_div(distance, ONE as int, speed) <= max_prediction_time
            ==> prediction_time(distance, speed, max_prediction_time) == mul_div(
            distance,
            ONE as int,
            speed,
        ),
{
}

/// A vehicle whose predicted position is inside the corridor is not steered.
pub proof fn lemma_inside_path_no_steering(
    position: Vector,
    velocity: Vector,
    on_path: Vector,
    outside: int,
    max_speed: int,
)
    requires
        outside < 0,
    ensures
        path_steering(position, velocity, on_path, outside, max_speed) == Vector::zero(),
{
}

/// The scale at which repulsions are summed: an offset over its squared
/// length is kept in units of a million-millionth, since only the direction
/// of the sum is used.
pub const REPULSION_UNIT: i64 = 1_000_000_000_000_000;

/// Whether a direction lies within a cone around `forward`, given the dot
/// product of `forward` with the offset in that direction, the squared length
/// of the offset and the cosine of the cone's half angle: the dot product is
/// at least the cosine times the length. The two sides are compared by their
/// signs and squares, which is exact, and the boundary of the cone belongs
/// to it.
pub open spec fn within_cone(dot: int, distance_sq: int, cos_max_angle: int) -> bool {
    if cos_max_angle >= 0 {
        dot >= 0 && dot * dot >= (cos_max_angle * cos_max_angle) * distance_sq
    } else {
        dot >= 0 || dot * dot <= (cos_max_angle * cos_max_angle) * distance_sq
    }
}

/// Whether `other` is a neighbour of a vehicle at `position` that heads
/// `forward`: its distance is at least `min_distance` and at most
/// `max_distance`, and its direction is within the cone of `cos_max_angle`
/// around `forward`. Both distances belong to the band.
pub open spec fn in_neighbourhood(
    position: Vector,
    forward: Vector,
    other: Vector,
    min_distance: int,
    max_distance: int,
    cos_max_angle: int,
) -> bool {
    let offset = other.minus(position);
    let distance_sq = offset.sqnorm();
    &&& min_distance <= 0 || min_distance * min_distance <= distance_sq
    &&& max_distance >= 0 && distance_sq <= max_distance * max_distance
    &&& within_cone(forward.dot(offset), distance_sq, cos_max_angle)
}

/// Whether `other` flocks with the vehicle of frame `me` and the given
/// radius: it is a neighbour no nearer than three radii.
pub open spec fn flocks_with(
    me: LocalSpace,
    radius: int,
    other: LocalSpace,
    max_distance: int,
    cos_max_angle: int,
) -> bool {
    in_neighbourhood(
        me.position@,
        me.forward@,
        other.position@,
        3 * radius,
        max_distance,
        cos_max_angle,
    )
}

/// Those of `others` that flock with the vehicle, in their order.
pub open spec fn flock(
    me: LocalSpace,
    radius: int,
    others: Seq<LocalSpace>,
    max_distance: int,
    cos_max_angle: int,
) -> Seq<LocalSpace>
    decreases others.len(),
{
    if others.len() == 0 {
        Seq::empty()
    } else {
        let before = flock(me, radius, others.drop_last(), max_distance, cos_max_angle);
        if flocks_with(me, radius, others.last(), max_distance, cos_max_angle) {
            before.push(others.last())
        } else {
            before
        }
    }
}

/// The push away from a neighbour at `offset`: against the offset, and
/// inversely proportional to the distance. A neighbour at the same place
/// gives no direction and does not push.
pub open spec fn repulsion(offset: Vector) -> Vector {
    if offset.sqnorm() == 0 {
        Vector::zero()
    } else {
        offset.negated().scaled(REPULSION_UNIT as int, offset.sqnorm())
    }
}

/// The sum of the pushes away from the members of a flock.
pub open spec fn total_repulsion(position: Vector, members: Seq<LocalSpace>) -> Vector
    decreases members.len(),
{
    if members.len() == 0 {
        Vector::zero()
    } else {
        total_repulsion(position, members.drop_last()).plus(
            repulsion(members.last().position@.minus(position)),
        )
    }
}

/// The sum of the headings of the members of a flock.
pub open spec fn total_heading(members: Seq<LocalSpace>) -> Vector
    decreases members.len(),
{
    if members.len() == 0 {
        Vector::zero()
    } else {
        total_heading(members.drop_last()).plus(members.last().forward@)
    }
}

/// The sum of the positions of the members of a flock.
pub open spec fn total_position(members: Seq<LocalSpace>) -> Vector
    decreases members.len(),
{
    if members.len() == 0 {
        Vector::zero()
    } else {
        total_position(members.drop_last()).plus(members.last().position@)
    }
}

/// The sum of what the headings of the members of a flock differ by from
/// the heading `forward`.
pub open spec fn total_turn(forward: Vector, members: Seq<LocalSpace>) -> Vector
    decreases members.len(),
{
    if members.len() == 0 {
        Vector::zero()
    } else {
        total_turn(forward, members.drop_last()).plus(members.last().forward@.minus(forward))
    }
}

/// The sum of the offsets from `position` to the members of a flock.
pub open spec fn total_offset(position: Vector, members: Seq<LocalSpace>) -> Vector
    decreases members.len(),
{
    if members.len() == 0 {
        Vector::zero()
    } else {
        total_offset(position, members.drop_last()).plus(
            members.last().position@.minus(position),
        )
    }
}

/// Steering apart: the direction of the mean push away from the members of
/// the flock, which is that of their sum. An empty flock, or one whose
/// pushes cancel, gives none.
pub open spec fn separation_steering(position: Vector, members: Seq<LocalSpace>) -> Vector {
    total_repulsion(position, members).direction()
}

/// Steering into line: the direction from the vehicle's heading to the mean
/// heading of the flock, which is that of the sum of the differences. An
/// empty flock, or one that heads as the vehicle does, gives none.
pub open spec fn alignment_steering(forward: Vector, members: Seq<LocalSpace>) -> Vector {
    total_turn(forward, members).direction()
}

/// Steering together: the direction from the vehicle to the mean position of
/// the flock, which is that of the sum of the offsets. An empty flock, or
/// one centred on the vehicle, gives none.
pub open spec fn cohesion_steering(position: Vector, members: Seq<LocalSpace>) -> Vector {
    total_offset(position, members).direction()
}

/// A vehicle without neighbours is not steered by its flock.
pub proof fn lemma_empty_flock_no_steering(position: Vector, forward: Vector)
    ensures
        separation_steering(position, Seq::empty()) == Vector::zero(),
        alignment_steering(forward, Seq::empty()) == Vector::zero(),
        cohesion_steering(position, Seq::empty()) == Vector::zero(),
{
    let nobody = Seq::<LocalSpace>::empty();
    assert(total_repulsion(position, nobody) == Vector::zero());
    assert(total_turn(forward, nobody) == Vector::zero());
    assert(total_offset(position, nobody) == Vector::zero());
    assert(Vector::zero().reduced() == Vector::zero());
}

/// The sum of the offsets to the members of a flock is the sum of their
/// positions less the vehicle's position once for each: it points from the
/// vehicle to their mean position.
pub proof fn lemma_total_offset_from_centre(position: Vector, members: Seq<LocalSpace>)
    ensures
        total_offset(position, members).x == total_position(members).x - members.len()
            * position.x,
        total_offset(position, members).y == total_position(members).y - members.len()
            * position.y,
        total_offset(position, members).z == total_position(members).z - members.len()
            * position.z,
    decreases members.len(),
{
    if members.len() > 0 {
        lemma_total_offset_from_centre(position, members.drop_last());
        let n = members.len() as int;
        assert((n - 1) * position.x + position.x == n * position.x) by (nonlinear_arith);
        assert((n - 1) * position.y + position.y == n * position.y) by (nonlinear_arith);
        assert((n - 1) * position.z + position.z == n * position.z) by (nonlinear_arith);
    }
}

/// The sum of what the headings of a flock differ by from the vehicle's is
/// the sum of the headings less the vehicle's heading once for each: it
/// points from the vehicle's heading to their mean heading.
pub proof fn lemma_total_turn_from_heading(forward: Vector, members: Seq<LocalSpace>)
    ensures
        total_turn(forward, members).x == total_heading(members).x - members.len() * forward.x,
        total_turn(forward, members).y == total_heading(members).y - members.len() * forward.y,
        total_turn(forward, members).z == total_heading(members).z - members.len() * forward.z,
    decreases members.len(),
{
    if members.len() > 0 {
        lemma_total_turn_from_heading(forward, members.drop_last());
        let n = members.len() as int;
        assert((n - 1) * forward.x + forward.x == n * forward.x) by (nonlinear_arith);
        assert((n - 1) * forward.y + forward.y == n * forward.y) by (nonlinear_arith);
        assert((n - 1) * forward.z + forward.z == n * forward.z) by (nonlinear_arith);
    }
}

/// Every member of a flock is one of the others and flocks with the vehicle,
/// and no other that flocks with it is left out: the flock holds as many
/// members as there are such others.
pub proof fn lemma_flock_members(
    me: LocalSpace,
    radius: int,
    others: Seq<LocalSpace>,
    max_distance: int,
    cos_max_angle: int,
)
    ensures
        flock(me, radius, others, max_distance, cos_max_angle).len() <= others.len(),
        forall|j: int|
            0 <= j < flock(me, radius, others, max_distance, cos_max_angle).len() ==> {
                &&& others.contains(
                    #[trigger] flock(me, radius, others, max_distance, cos_max_angle)[j],
                )
                &&& flocks_with(
                    me,
                    radius,
                    flock(me, radius, others, max_distance, cos_max_angle)[j],
                    max_distance,
                    cos_max_angle,
                )
            },
        forall|i: int|
            0 <= i < others.len() && flocks_with(
                me,
                radius,
                #[trigger] others[i],
                max_distance,
                cos_max_angle,
            ) ==> flock(me, radius, others, max_distance, cos_max_angle).contains(others[i]),
    decreases others.len(),
{
    let all = flock(me, radius, others, max_distance, cos_max_angle);
    if others.len() > 0 {
        let front = others.drop_last();
        let before = flock(me, radius, front, max_distance, cos_max_angle);
        lemma_flock_members(me, radius, front, max_distance, cos_max_angle);
        assert forall|j: int| 0 <= j < all.len() implies others.contains(#[trigger] all[j])
            && flocks_with(me, radius, all[j], max_distance, cos_max_angle) by {
            if j < before.len() {
                assert(all[j] == before[j]);
                assert(front.contains(before[j]));
                let k = choose|k: int| 0 <= k < front.len() && front[k] == before[j];
                assert(others[k] == before[j]);
            } else {
                assert(all[j] == others.last());
                assert(others[others.len() - 1] == all[j]);
            }
        }
        assert forall|i: int|
            0 <= i < others.len() && flocks_with(
                me,
                radius,
                #[trigger] others[i],
                max_distance,
                cos_max_angle,
            ) implies all.contains(others[i]) by {
            if i < front.len() {
                assert(front[i] == others[i]);
                assert(before.contains(front[i]));
                let k = choose|k: int| 0 <= k < before.len() && before[k] == front[i];
                assert(all[k] == others[i]);
            } else {
                assert(all[all.len() - 1] == others[i]);
            }
        }
    }
}

} // verus!
