//! Steering behaviours for autonomous vehicles in three dimensions, computed
//! in fixed-point arithmetic and verified.

pub mod scalar;
pub mod vector;
pub mod random;
pub mod model;
pub mod vehicle;
pub mod behaviour;
pub mod neighbours;
pub mod annotation;
pub mod pathway;
pub mod obstacle;
pub mod flowfield;

pub use annotation::AnnotationBase;
pub use flowfield::FlowfieldBase;
pub use obstacle::ObstacleBase;
pub use pathway::PathwayBase;
pub use random::{scalar_random_walk, RandomSource};
pub use vector::{Vec3, VectorHelper};
pub use vehicle::{Kinematics, LocalSpace, LocalSpaceBasis, SimpleVehicle, VehicleBase};
