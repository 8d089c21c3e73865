//! The plane without end.
use vstd::prelude::*;
use crate::aabb::AABB;
use crate::hitable::{accept_beyond, epsilon, within, within_beyond, HitRecord, EPSILON_BITS};
use crate::ray::Ray3;
use crate::nearest::below;
use crate::scalar::{is_below, Scalar, INFINITY_MAGNITUDE};
use crate::vector::{Point3, Vector3};

verus! {

/// What the arithmetic finds for a ray and a plane: the product of the
/// plane's normal and the ray's direction, and the ray parameter at which the
/// ray meets the plane. Each is `None` where the arithmetic gave no number.
#[derive(Clone, Copy, Debug, PartialEq, Eq, Structural)]
pub struct Meeting {
    pub dot: Option<Scalar>,
    pub t: Option<Scalar>,
}

impl Meeting {
    /// The parameter at which the ray hits the plane: the parameter of the
    /// meeting, if the ray does not run along the normal by epsilon or more,
    /// and the parameter is a number beyond epsilon and strictly inside the
    /// interval. A plane is hit from the side that its normal points to.
    pub open spec fn spec_hit(self, t_min: Scalar, t_max: Scalar) -> Option<Scalar> {
        if is_below(self.dot, EPSILON_BITS as int) {
            match self.t {
                Some(t) => if within_beyond(
                    t,
                    Scalar::with_key(EPSILON_BITS as int),
                    t_min,
                    t_max,
                ) {
                    Some(t)
                } else {
                    None
                },
                None => None,
            }
        } else {
            None
        }
    }

    /// The parameter at which the ray hits the plane.
    pub fn hit(&self, t_min: Scalar, t_max: Scalar) -> (t: Option<Scalar>)
        ensures
            t == self.spec_hit(t_min, t_max),
            t matches Some(at) ==> within(at, t_min, t_max),
    {
        let epsilon = epsilon();
        let facing = match self.dot {
            Some(dot) => dot.lt(&epsilon),
            None => false,
        };
        if !facing {
            return None;
        }
        match self.t {
            Some(t) => if accept_beyond(t, epsilon, t_min, t_max) {
                Some(t)
            } else {
                None
            },
            None => None,
        }
    }
}

/// A plane has one meeting with a ray: what counts below an upper bound is
/// what counts at all, where it lies below the bound.
pub proof fn lemma_one_meeting(found: Meeting, t_min: Scalar, t_max: Scalar)
    requires
        t_max.wf(),
    ensures
        found.spec_hit(t_min, t_max) == below(
            found.spec_hit(t_min, Scalar::with_key(INFINITY_MAGNITUDE as int)),
            t_max,
        ),
{
    Scalar::lemma_key_of_with_key(INFINITY_MAGNITUDE as int);
}

/// The plane through `center` at right angles to `surface_normal`.
pub struct Plane<M> {
    pub center: Point3,
    pub surface_normal: Vector3,
    pub material: M,
}

impl<M: Clone> Plane<M> {
    pub fn new(center: Point3, surface_normal: Vector3, material: M) -> (plane: Self)
        ensures
            plane.center == center,
            plane.surface_normal == surface_normal,
            plane.material == material,
    {
        Plane { center, surface_normal, material }
    }

    /// Whether `rec` is something that a ray may find at this plane: nothing
    /// where what `meet` finds gives no hit in the interval, else a hit at
    /// the parameter of the meeting, at the point that `point_at` gives for
    /// it, with the plane's own normal and a copy of its material.
    pub open spec fn finds<Q, P>(
        self,
        r: Ray3,
        t_min: Scalar,
        t_max: Scalar,
        meet: Q,
        point_at: P,
        rec: Option<HitRecord<M>>,
    ) -> bool where Q: Fn(Point3, Vector3, &Ray3) -> Meeting, P: Fn(&Ray3, Scalar) -> Point3 {
        exists|found: Meeting| #[trigger]
            call_ensures(meet, (self.center, self.surface_normal, &r), found) && match found.spec_hit(
                t_min,
                t_max,
            ) {
                Some(t) => {
                    &&& rec matches Some(h)
                    &&& h.t == t
                    &&& call_ensures(point_at, (&r, t), h.p)
                    &&& h.normal == self.surface_normal
                    &&& h.material matches Some(m)
                    &&& cloned(self.material, m)
                },
                None => rec is None,
            }
    }

    /// The nearest hit of a ray at a parameter strictly between `t_min` and
    /// `t_max`.
    pub fn hit<Q, P>(&self, r: &Ray3, t_min: Scalar, t_max: Scalar, meet: &Q, point_at: &P) -> (rec:
        Option<HitRecord<M>>) where
        Q: Fn(Point3, Vector3, &Ray3) -> Meeting,
        P: Fn(&Ray3, Scalar) -> Point3,

        requires
            forall|c: Point3, n: Vector3, ray: &Ray3| call_requires(*meet, (c, n, ray)),
            forall|ray: &Ray3, t: Scalar| call_requires(*point_at, (ray, t)),
        ensures
            self.finds(*r, t_min, t_max, *meet, *point_at, rec),
            rec matches Some(h) ==> within(h.t, t_min, t_max),
    {
        let found = meet(self.center, self.surface_normal, r);
        match found.hit(t_min, t_max) {
            Some(t) => {
                let p = point_at(r, t);
                Some(HitRecord::new(t, p, self.surface_normal, Some(self.material.clone())))
            },
            None => None,
        }
    }

    /// A plane has no box around it.
    pub fn bounding_box(&self) -> (b: Option<AABB>)
        ensures
            b is None,
    {
        None
    }
}

} // verus!
