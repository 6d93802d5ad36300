//! A field of flow vectors, sampled at points.

use vstd::prelude::*;
use crate::scalar::POINT_MAX;
use crate::vector::Vec3;

verus! {

pub trait FlowfieldBase {
    /// The flow at `location`.
    spec fn flow(&self, location: Vec3) -> Vec3;

    fn sample(&self, location: Vec3) -> (r: Vec3)
        requires
            location@.fits(POINT_MAX as int),
        ensures
            r == self.flow(location),
            r@.fits(POINT_MAX as int),
    ;
}

} // verus!
