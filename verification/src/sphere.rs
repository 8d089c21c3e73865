//! Spheres, at rest and in motion.
use vstd::prelude::*;
use std::time::{Duration, Instant};
use crate::aabb::AABB;
use crate::hitable::{accept, within, HitRecord};
use crate::nearest::below;
use crate::ray::Ray3;
use crate::scalar::{Scalar, INFINITY_MAGNITUDE};
use crate::vector::{Point3, Vector3};

verus! {

/// What the arithmetic finds for a ray and a sphere: the discriminant of the
/// quadratic in the ray parameter and its two roots, the smaller first. Each
/// is `None` where the arithmetic gave no number.
#[derive(Clone, Copy, Debug, PartialEq, Eq, Structural)]
pub struct Roots {
    pub discriminant: Option<Scalar>,
    pub near: Option<Scalar>,
    pub far: Option<Scalar>,
}

/// Whether a root is a number strictly inside an interval.
pub open spec fn root_within(root: Option<Scalar>, t_min: Scalar, t_max: Scalar) -> bool {
    root matches Some(t) && within(t, t_min, t_max)
}

impl Roots {
    /// The parameter at which the ray hits the sphere: none unless the
    /// discriminant is above zero, else the smaller root if it lies strictly
    /// inside the interval, else the larger if that does.
    pub open spec fn spec_crossing(self, t_min: Scalar, t_max: Scalar) -> Option<Scalar> {
        if self.discriminant matches Some(d) && d@ > 0 {
            if root_within(self.near, t_min, t_max) {
                self.near
            } else if root_within(self.far, t_min, t_max) {
                self.far
            } else {
                None
            }
        } else {
            None
        }
    }

    /// The parameter at which the ray hits the sphere.
    pub fn crossing(&self, t_min: Scalar, t_max: Scalar) -> (t: Option<Scalar>)
        ensures
            t == self.spec_crossing(t_min, t_max),
            t matches Some(at) ==> within(at, t_min, t_max),
    {
        let positive = match self.discriminant {
            Some(d) => Scalar::zero().lt(&d),
            None => false,
        };
        if !positive {
            return None;
        }
        if let Some(t) = self.near {
            if accept(t, t_min, t_max) {
                return Some(t);
            }
        }
        if let Some(t) = self.far {
            if accept(t, t_min, t_max) {
                return Some(t);
            }
        }
        None
    }
}

/// A sphere has one nearest crossing with a ray: where the roots are in
/// ascending order, the crossing that counts below an upper bound is the
/// crossing that counts at all, where it lies below the bound.
pub proof fn lemma_nearest_root(found: Roots, t_min: Scalar, t_max: Scalar)
    requires
        t_max.wf(),
        found.near matches Some(near) && found.far matches Some(far) && near@ <= far@,
    ensures
        found.spec_crossing(t_min, t_max) == below(
            found.spec_crossing(t_min, Scalar::with_key(INFINITY_MAGNITUDE as int)),
            t_max,
        ),
{
    Scalar::lemma_key_of_with_key(INFINITY_MAGNITUDE as int);
}

/// Whether `rec` is something that a ray may find at a sphere around
/// `center`: nothing where the roots that `roots` finds give no crossing in
/// the interval, else a hit at the crossing, at the point and with the normal
/// that `surface` finds there, and with a copy of the material.
pub open spec fn sphere_finds<M: Clone, Q, S>(
    center: Point3,
    radius: Scalar,
    material: M,
    r: Ray3,
    t_min: Scalar,
    t_max: Scalar,
    roots: Q,
    surface: S,
    rec: Option<HitRecord<M>>,
) -> bool where
    Q: Fn(Point3, Scalar, &Ray3) -> Roots,
    S: Fn(Point3, Scalar, &Ray3, Scalar) -> (Point3, Vector3),
 {
    exists|found: Roots| #[trigger]
        call_ensures(roots, (center, radius, &r), found) && match found.spec_crossing(t_min, t_max) {
            Some(t) => {
                &&& rec matches Some(h)
                &&& h.t == t
                &&& call_ensures(surface, (center, radius, &r, t), (h.p, h.normal))
                &&& h.material matches Some(m)
                &&& cloned(material, m)
            },
            None => rec is None,
        }
}

/// The hit of a ray at a sphere around `center`.
fn hit_sphere<M: Clone, Q, S>(
    center: Point3,
    radius: Scalar,
    material: &M,
    r: &Ray3,
    t_min: Scalar,
    t_max: Scalar,
    roots: &Q,
    surface: &S,
) -> (rec: Option<HitRecord<M>>) where
    Q: Fn(Point3, Scalar, &Ray3) -> Roots,
    S: Fn(Point3, Scalar, &Ray3, Scalar) -> (Point3, Vector3),

    requires
        forall|c: Point3, s: Scalar, ray: &Ray3| call_requires(*roots, (c, s, ray)),
        forall|c: Point3, s: Scalar, ray: &Ray3, t: Scalar| call_requires(*surface, (c, s, ray, t)),
    ensures
        sphere_finds(center, radius, *material, *r, t_min, t_max, *roots, *surface, rec),
        rec matches Some(h) ==> within(h.t, t_min, t_max),
{
    let found = roots(center, radius, r);
    match found.crossing(t_min, t_max) {
        Some(t) => {
            let (p, normal) = surface(center, radius, r, t);
            let rec = HitRecord::new(t, p, normal, Some(material.clone()));
            assert(call_ensures(*surface, (center, radius, r, t), (rec.p, rec.normal)));
            Some(rec)
        },
        None => None,
    }
}

/// A sphere at rest.
pub struct Sphere<M> {
    pub center: Point3,
    pub radius: Scalar,
    pub material: M,
}

impl<M: Clone> Sphere<M> {
    pub fn new(center: Point3, radius: Scalar, material: M) -> (s: Self)
        ensures
            s.center == center,
            s.radius == radius,
            s.material == material,
    {
        Sphere { center, radius, material }
    }

    /// The nearest hit of a ray at a parameter strictly between `t_min` and
    /// `t_max`.
    ///
    /// `roots` solves the quadratic for the ray and the sphere; `surface`
    /// gives the point of the ray at a parameter and the normal of the sphere
    /// there.
    pub fn hit<Q, S>(&self, r: &Ray3, t_min: Scalar, t_max: Scalar, roots: &Q, surface: &S) -> (rec:
        Option<HitRecord<M>>) where
        Q: Fn(Point3, Scalar, &Ray3) -> Roots,
        S: Fn(Point3, Scalar, &Ray3, Scalar) -> (Point3, Vector3),

        requires
            forall|c: Point3, s: Scalar, ray: &Ray3| call_requires(*roots, (c, s, ray)),
            forall|c: Point3, s: Scalar, ray: &Ray3, t: Scalar|
                call_requires(*surface, (c, s, ray, t)),
        ensures
            sphere_finds(
                self.center,
                self.radius,
                self.material,
                *r,
                t_min,
                t_max,
                *roots,
                *surface,
                rec,
            ),
            rec matches Some(h) ==> within(h.t, t_min, t_max),
    {
        hit_sphere(self.center, self.radius, &self.material, r, t_min, t_max, roots, surface)
    }

    /// The box around the sphere: what `extent` gives for its centre and
    /// radius.
    pub fn bounding_box<E>(&self, extent: &E) -> (b: Option<AABB>) where
        E: Fn(Point3, Scalar) -> Option<AABB>,

        requires
            forall|c: Point3, s: Scalar| call_requires(*extent, (c, s)),
        ensures
            call_ensures(*extent, (self.center, self.radius), b),
    {
        extent(self.center, self.radius)
    }
}

/// A sphere that moves in a straight line from `center0`, where it is at the
/// moment `movement_start`, to `center1`, where it is `movement_duration`
/// later.
pub struct MovingSphere<M> {
    pub center0: Point3,
    pub center1: Point3,
    pub movement_start: Instant,
    pub movement_duration: Duration,
    pub radius: Scalar,
    pub material: M,
}

impl<M: Clone> MovingSphere<M> {
    pub fn new(
        center0: Point3,
        center1: Point3,
        movement_start: Instant,
        movement_duration: Duration,
        radius: Scalar,
        material: M,
    ) -> (s: Self)
        ensures
            s.center0 == center0,
            s.center1 == center1,
            s.movement_start == movement_start,
            s.movement_duration == movement_duration,
            s.radius == radius,
            s.material == material,
    {
        MovingSphere { center0, center1, movement_start, movement_duration, radius, material }
    }

    /// Where the centre is at a moment: what `between` finds on the line
    /// through the two centres for that moment. Moments before the start or
    /// after the end of the movement are not held back to the two centres.
    pub fn center_at<B>(&self, time: Instant, between: &B) -> (c: Point3) where
        B: Fn(Point3, Point3, Instant, Duration, Instant) -> Point3,

        requires
            forall|a: Point3, b: Point3, start: Instant, span: Duration, at: Instant|
                call_requires(*between, (a, b, start, span, at)),
        ensures
            call_ensures(
                *between,
                (self.center0, self.center1, self.movement_start, self.movement_duration, time),
                c,
            ),
    {
        between(self.center0, self.center1, self.movement_start, self.movement_duration, time)
    }

    /// The nearest hit of a ray at a parameter strictly between `t_min` and
    /// `t_max`: the hit at a sphere around the centre at the ray's moment.
    pub fn hit<B, Q, S>(
        &self,
        r: &Ray3,
        t_min: Scalar,
        t_max: Scalar,
        between: &B,
        roots: &Q,
        surface: &S,
    ) -> (rec: Option<HitRecord<M>>) where
        B: Fn(Point3, Point3, Instant, Duration, Instant) -> Point3,
        Q: Fn(Point3, Scalar, &Ray3) -> Roots,
        S: Fn(Point3, Scalar, &Ray3, Scalar) -> (Point3, Vector3),

        requires
            forall|a: Point3, b: Point3, start: Instant, span: Duration, at: Instant|
                call_requires(*between, (a, b, start, span, at)),
            forall|c: Point3, s: Scalar, ray: &Ray3| call_requires(*roots, (c, s, ray)),
            forall|c: Point3, s: Scalar, ray: &Ray3, t: Scalar|
                call_requires(*surface, (c, s, ray, t)),
        ensures
            exists|center: Point3| #[trigger]
                call_ensures(
                    *between,
                    (
                        self.center0,
                        self.center1,
                        self.movement_start,
                        self.movement_duration,
                        r.time,
                    ),
                    center,
                ) && sphere_finds(
                    center,
                    self.radius,
                    self.material,
                    *r,
                    t_min,
                    t_max,
                    *roots,
                    *surface,
                    rec,
                ),
            rec matches Some(h) ==> within(h.t, t_min, t_max),
    {
        let center = self.center_at(r.time, between);
        hit_sphere(center, self.radius, &self.material, r, t_min, t_max, roots, surface)
    }

    /// The box around the sphere throughout its movement: the union of the
    /// boxes that `extent` gives for a sphere around each of its two centres.
    pub fn bounding_box<E>(&self, extent: &E) -> (b: Option<AABB>) where
        E: Fn(Point3, Scalar) -> Option<AABB>,

        requires
            forall|c: Point3, s: Scalar| call_requires(*extent, (c, s)),
        ensures
            exists|box0: Option<AABB>, box1: Option<AABB>|
                {
                    &&& #[trigger] call_ensures(*extent, (self.center0, self.radius), box0)
                    &&& #[trigger] call_ensures(*extent, (self.center1, self.radius), box1)
                    &&& b == match (box0, box1) {
                        (Some(a), Some(c)) => Some(a.spec_surrounding_box(c)),
                        _ => None,
                    }
                },
    {
        let box0 = extent(self.center0, self.radius);
        let box1 = extent(self.center1, self.radius);
        match (box0, box1) {
            (Some(a), Some(c)) => Some(a.surrounding_box(&c)),
            _ => None,
        }
    }
}

} // verus!
