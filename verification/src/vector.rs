//! Points and directions in space, as triples of scalars.
use vstd::prelude::*;
use crate::scalar::Scalar;

verus! {

/// A position.
#[derive(Clone, Copy, Debug, PartialEq, Eq, Structural)]
pub struct Point3 {
    pub x: Scalar,
    pub y: Scalar,
    pub z: Scalar,
}

/// A direction, or any other triple (a colour).
#[derive(Clone, Copy, Debug, PartialEq, Eq, Structural)]
pub struct Vector3 {
    pub x: Scalar,
    pub y: Scalar,
    pub z: Scalar,
}

impl Point3 {
    pub fn new(x: Scalar, y: Scalar, z: Scalar) -> (p: Point3)
        ensures
            p == (Point3 { x, y, z }),
    {
        Point3 { x, y, z }
    }

    /// The coordinate on an axis: 0 is x, 1 is y, anything else is z.
    pub open spec fn spec_axis(self, axis: int) -> Scalar {
        if axis == 0 {
            self.x
        } else if axis == 1 {
            self.y
        } else {
            self.z
        }
    }

    /// The coordinate on one of the three axes.
    pub fn axis(&self, axis: usize) -> (c: Scalar)
        requires
            axis < 3,
        ensures
            c == self.spec_axis(axis as int),
    {
        if axis == 0 {
            self.x
        } else if axis == 1 {
            self.y
        } else {
            self.z
        }
    }
}

impl Vector3 {
    pub fn new(x: Scalar, y: Scalar, z: Scalar) -> (v: Vector3)
        ensures
            v == (Vector3 { x, y, z }),
    {
        Vector3 { x, y, z }
    }

    /// The vector of three zeros: black, as a colour.
    pub open spec fn spec_zero() -> Vector3 {
        Vector3 { x: Scalar::with_key(0), y: Scalar::with_key(0), z: Scalar::with_key(0) }
    }

    /// The vector of three zeros: black, as a colour.
    pub fn zero() -> (v: Vector3)
        ensures
            v == Vector3::spec_zero(),
    {
        Vector3 { x: Scalar::zero(), y: Scalar::zero(), z: Scalar::zero() }
    }

    /// The component on an axis: 0 is x, 1 is y, anything else is z.
    pub open spec fn spec_axis(self, axis: int) -> Scalar {
        if axis == 0 {
            self.x
        } else if axis == 1 {
            self.y
        } else {
            self.z
        }
    }

    /// The component on one of the three axes.
    pub fn axis(&self, axis: usize) -> (c: Scalar)
        requires
            axis < 3,
        ensures
            c == self.spec_axis(axis as int),
    {
        if axis == 0 {
            self.x
        } else if axis == 1 {
            self.y
        } else {
            self.z
        }
    }
}

} // verus!
