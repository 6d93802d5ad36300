//! Vehicles: what a behaviour reads of an agent, and a simple vehicle.

use vstd::prelude::*;
use crate::model::advanced;
use crate::scalar::{in_state_range, mul_div, ONE, POINT_MAX, STATE_MAX};
use crate::vector::{lemma_scaled_capped, lemma_travel_fits, Vec3};

verus! {

/// The frame of a vehicle: where it is and how it is turned.
#[derive(Clone, Copy, Debug, PartialEq, Eq, Structural)]
pub struct LocalSpace {
    pub side: Vec3,
    pub up: Vec3,
    pub forward: Vec3,
    pub position: Vec3,
}

impl LocalSpace {
    /// The three directions are about one long, so none of their coordinates
    /// exceeds `ONE`, and the position is within `STATE_MAX`.
    pub open spec fn valid(self) -> bool {
        &&& self.side@.fits(ONE as int)
        &&& self.up@.fits(ONE as int)
        &&& self.forward@.fits(ONE as int)
        &&& self.position@.fits(STATE_MAX as int)
    }
}

/// What a vehicle is and how it moves.
#[derive(Clone, Copy, Debug, PartialEq, Eq, Structural)]
pub struct Kinematics {
    pub mass: i64,
    pub radius: i64,
    pub velocity: Vec3,
    pub acceleration: Vec3,
    pub speed: i64,
    pub max_force: i64,
    pub max_speed: i64,
}

impl Kinematics {
    /// The mass is positive; the radius, the speed and the two limits are not
    /// negative; everything is within `STATE_MAX`.
    pub open spec fn valid(self) -> bool {
        &&& 0 < self.mass <= STATE_MAX
        &&& 0 <= self.radius <= STATE_MAX
        &&& self.velocity@.fits(STATE_MAX as int)
        &&& self.acceleration@.fits(STATE_MAX as int)
        &&& 0 <= self.speed <= STATE_MAX
        &&& 0 <= self.max_force <= STATE_MAX
        &&& 0 <= self.max_speed <= STATE_MAX
    }
}

/// The frame of an agent, read by the behaviours and never changed by them.
pub trait LocalSpaceBasis {
    /// The frame that the four accessors report.
    spec fn local_space(&self) -> LocalSpace;

    fn side(&self) -> (r: Vec3)
        ensures
            r == self.local_space().side,
    ;

    fn up(&self) -> (r: Vec3)
        ensures
            r == self.local_space().up,
    ;

    fn forward(&self) -> (r: Vec3)
        ensures
            r == self.local_space().forward,
    ;

    fn position(&self) -> (r: Vec3)
        ensures
            r == self.local_space().position,
    ;
}

/// The motion of an agent, read by the behaviours and never changed by them.
pub trait VehicleBase: LocalSpaceBasis {
    /// The state that the accessors report.
    spec fn kinematics(&self) -> Kinematics;

    /// Where the vehicle expects to be after `prediction_time`.
    spec fn predicted(&self, prediction_time: i64) -> Vec3;

    fn mass(&self) -> (r: i64)
        ensures
            r == self.kinematics().mass,
    ;

    fn radius(&self) -> (r: i64)
        ensures
            r == self.kinematics().radius,
    ;

    fn velocity(&self) -> (r: Vec3)
        ensures
            r == self.kinematics().velocity,
    ;

    fn acceleration(&self) -> (r: Vec3)
        ensures
            r == self.kinematics().acceleration,
    ;

    fn speed(&self) -> (r: i64)
        ensures
            r == self.kinematics().speed,
    ;

    fn predict_position(&self, prediction_time: i64) -> (r: Vec3)
        requires
            self.local_space().valid(),
            self.kinematics().valid(),
            in_state_range(prediction_time as int),
        ensures
            r == self.predicted(prediction_time),
            r@.fits(POINT_MAX as int),
    ;

    fn max_force(&self) -> (r: i64)
        ensures
            r == self.kinematics().max_force,
    ;

    fn max_speed(&self) -> (r: i64)
        ensures
            r == self.kinematics().max_speed,
    ;
}

/// The frame and the state of `vehicle` are both valid.
pub open spec fn valid_vehicle<V: VehicleBase>(vehicle: &V) -> bool {
    vehicle.local_space().valid() && vehicle.kinematics().valid()
}

/// Whether the frame and the state that `vehicle` reports are valid: what
/// every behaviour asks of the vehicles handed to it.
pub fn is_valid_vehicle<V: VehicleBase>(vehicle: &V) -> (r: bool)
    ensures
        r == valid_vehicle(vehicle),
{
    let mass: i64 = vehicle.mass();
    let radius: i64 = vehicle.radius();
    let speed: i64 = vehicle.speed();
    let max_force: i64 = vehicle.max_force();
    let max_speed: i64 = vehicle.max_speed();
    vehicle.side().fits(ONE) && vehicle.up().fits(ONE) && vehicle.forward().fits(ONE)
        && vehicle.position().fits(STATE_MAX) && 0 < mass && mass <= STATE_MAX && 0 <= radius
        && radius <= STATE_MAX && vehicle.velocity().fits(STATE_MAX)
        && vehicle.acceleration().fits(STATE_MAX) && 0 <= speed && speed <= STATE_MAX && 0
        <= max_force && max_force <= STATE_MAX && 0 <= max_speed && max_speed <= STATE_MAX
}

/// A vehicle that moves straight ahead at a constant speed.
pub struct SimpleVehicle {
    space: LocalSpace,
    mass: i64,
    radius: i64,
    speed: i64,
    max_force: i64,
    max_speed: i64,
}

impl SimpleVehicle {
    #[verifier::type_invariant]
    spec fn well_formed(self) -> bool {
        &&& self.space.valid()
        &&& 0 < self.mass <= STATE_MAX
        &&& 0 <= self.radius <= STATE_MAX
        &&& 0 <= self.speed <= STATE_MAX
        &&& 0 <= self.max_force <= STATE_MAX
        &&& 0 <= self.max_speed <= STATE_MAX
    }

    /// The velocity of a vehicle that heads `forward` at `speed`.
    pub open spec fn velocity_of(forward: Vec3, speed: i64) -> Vec3 {
        Vec3 {
            x: mul_div(forward.x as int, speed as int, ONE as int) as i64,
            y: mul_div(forward.y as int, speed as int, ONE as int) as i64,
            z: mul_div(forward.z as int, speed as int, ONE as int) as i64,
        }
    }

    /// Where a vehicle at `position` is after `time` at `velocity`.
    pub open spec fn extrapolated(position: Vec3, velocity: Vec3, time: i64) -> Vec3 {
        Vec3 {
            x: (position.x + mul_div(velocity.x as int, time as int, ONE as int)) as i64,
            y: (position.y + mul_div(velocity.y as int, time as int, ONE as int)) as i64,
            z: (position.z + mul_div(velocity.z as int, time as int, ONE as int)) as i64,
        }
    }

    /// A vehicle with the given frame and limits, where they are valid: the
    /// frame as [`LocalSpace::valid`] says, the mass positive, the other
    /// scalars not negative, and all of them within `STATE_MAX`.
    pub fn new(
        space: LocalSpace,
        mass: i64,
        radius: i64,
        speed: i64,
        max_force: i64,
        max_speed: i64,
    ) -> (r: Option<SimpleVehicle>)
        ensures
            r.is_some() <==> {
                &&& space.valid()
                &&& 0 < mass <= STATE_MAX
                &&& 0 <= radius <= STATE_MAX
                &&& 0 <= speed <= STATE_MAX
                &&& 0 <= max_force <= STATE_MAX
                &&& 0 <= max_speed <= STATE_MAX
            },
            r matches Some(v) ==> {
                &&& valid_vehicle(&v)
                &&& v.local_space() == space
                &&& v.kinematics() == (Kinematics {
                    mass,
                    radius,
                    velocity: Self::velocity_of(space.forward, speed),
                    acceleration: Vec3 { x: 0, y: 0, z: 0 },
                    speed,
                    max_force,
                    max_speed,
                })
                &&& forall|t: i64| #[trigger]
                    v.predicted(t) == Self::extrapolated(
                        space.position,
                        Self::velocity_of(space.forward, speed),
                        t,
                    )
            },
    {
        if space.side.fits(ONE) && space.up.fits(ONE) && space.forward.fits(ONE)
            && space.position.fits(STATE_MAX) && 0 < mass && mass <= STATE_MAX && 0 <= radius
            && radius <= STATE_MAX && 0 <= speed && speed <= STATE_MAX && 0 <= max_force
            && max_force <= STATE_MAX && 0 <= max_speed && max_speed <= STATE_MAX {
            proof {
                lemma_scaled_capped(space.forward@, speed as int, ONE as int);
            }
            Some(SimpleVehicle { space, mass, radius, speed, max_force, max_speed })
        } else {
            None
        }
    }
}

impl LocalSpaceBasis for SimpleVehicle {
    closed spec fn local_space(&self) -> LocalSpace {
        self.space
    }

    fn side(&self) -> (r: Vec3) {
        self.space.side
    }

    fn up(&self) -> (r: Vec3) {
        self.space.up
    }

    fn forward(&self) -> (r: Vec3) {
        self.space.forward
    }

    fn position(&self) -> (r: Vec3) {
        self.space.position
    }
}

impl VehicleBase for SimpleVehicle {
    closed spec fn kinematics(&self) -> Kinematics {
        Kinematics {
            mass: self.mass,
            radius: self.radius,
            velocity: Self::velocity_of(self.space.forward, self.speed),
            acceleration: Vec3 { x: 0, y: 0, z: 0 },
            speed: self.speed,
            max_force: self.max_force,
            max_speed: self.max_speed,
        }
    }

    closed spec fn predicted(&self, prediction_time: i64) -> Vec3 {
        Self::extrapolated(
            self.space.position,
            Self::velocity_of(self.space.forward, self.speed),
            prediction_time,
        )
    }

    fn mass(&self) -> (r: i64) {
        self.mass
    }

    fn radius(&self) -> (r: i64) {
        self.radius
    }

    /// The heading times the speed.
    fn velocity(&self) -> (r: Vec3)
        ensures
            r@ == self.local_space().forward@.scaled(
                self.kinematics().speed as int,
                ONE as int,
            ),
    {
        proof {
            use_type_invariant(self);
            lemma_scaled_capped(self.space.forward@, self.speed as int, ONE as int);
        }
        self.space.forward.scaled(self.speed, ONE)
    }

    /// Zero: the vehicle moves uniformly.
    fn acceleration(&self) -> (r: Vec3) {
        Vec3::zero()
    }

    fn speed(&self) -> (r: i64) {
        self.speed
    }

    /// The position after `prediction_time` at the present velocity.
    fn predict_position(&self, prediction_time: i64) -> (r: Vec3)
        ensures
            r@ == advanced(
                self.local_space().position@,
                self.kinematics().velocity@,
                prediction_time as int,
            ),
    {
        let velocity: Vec3 = self.velocity();
        proof {
            use_type_invariant(self);
            lemma_travel_fits(velocity@, prediction_time as int);
        }
        let travelled: Vec3 = velocity.scaled(prediction_time, ONE);
        self.space.position.plus(&travelled)
    }

    fn max_force(&self) -> (r: i64) {
        self.max_force
    }

    fn max_speed(&self) -> (r: i64) {
        self.max_speed
    }
}

} // verus!
