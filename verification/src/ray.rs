//! Rays: a half line through the scene, stamped with the moment it was cast.
use vstd::prelude::*;
use std::time::Instant;
use crate::vector::{Point3, Vector3};

verus! {

/// A moment of the machine's monotonic clock. Nothing is known of it here; it
/// is carried with a ray to whoever can read it.
#[verifier::external_type_specification]
#[verifier::external_body]
pub struct ExInstant(Instant);

/// A ray: the points `origin + t * direction`, at one moment in time. The
/// direction need not have unit length.
#[derive(Clone, Copy, Debug)]
pub struct Ray3 {
    pub origin: Point3,
    pub direction: Vector3,
    pub time: Instant,
}

impl Ray3 {
    pub fn new(origin: Point3, direction: Vector3, time: Instant) -> (r: Ray3)
        ensures
            r.origin == origin,
            r.direction == direction,
            r.time == time,
    {
        Ray3 { origin, direction, time }
    }
}

} // verus!
