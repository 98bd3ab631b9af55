//! Rays: an origin and a direction, the direction of any length.

use vstd::prelude::*;
use crate::scalar::Scalar;
use crate::vector::Vec3;

verus! {

/// A half-line `origin + t * direction`. The direction need not be a unit
/// vector, and may be zero.
#[derive(Clone, Copy, Debug, PartialEq, Eq, Structural)]
pub struct Ray {
    pub origin: Vec3,
    pub direction: Vec3,
}

impl Ray {
    pub fn new(o: Vec3, d: Vec3) -> (r: Ray)
        ensures
            r.origin == o,
            r.direction == d,
    {
        Ray { origin: o, direction: d }
    }
}

impl Default for Ray {
    /// The ray that starts at the origin and points nowhere.
    fn default() -> (r: Ray)
        ensures
            r.origin == (Vec3 { x: Scalar { bits: 0 }, y: Scalar { bits: 0 }, z: Scalar { bits: 0 } }),
            r.direction == r.origin,
    {
        Ray::new(Vec3::zero(), Vec3::zero())
    }
}

} // verus!
