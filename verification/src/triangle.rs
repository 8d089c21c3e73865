//! Triangles, flat and with a normal at each corner.
use vstd::prelude::*;
use crate::aabb::AABB;
use crate::hitable::{accept_beyond, epsilon, within, within_beyond, HitRecord, EPSILON_BITS};
use crate::ray::Ray3;
use crate::nearest::below;
use crate::scalar::{is_above, is_below, Scalar, INFINITY_MAGNITUDE, ONE_BITS, SIGN_BIT};
use crate::vector::{Point3, Vector3};

verus! {

/// What the arithmetic of the Möller–Trumbore method finds for a ray and a
/// triangle: the determinant, the two barycentric coordinates of the point
/// where the ray crosses the triangle's plane, their sum, and the ray
/// parameter of that point. Each is `None` where the arithmetic gave no
/// number.
#[derive(Clone, Copy, Debug, PartialEq, Eq, Structural)]
pub struct Crossing {
    pub det: Option<Scalar>,
    pub u: Option<Scalar>,
    pub v: Option<Scalar>,
    pub u_plus_v: Option<Scalar>,
    pub t: Option<Scalar>,
}

impl Crossing {
    /// Whether the ray runs so nearly along the triangle's plane that the
    /// determinant lies strictly between -0.00001 and 0.00001.
    pub open spec fn degenerate(self) -> bool {
        is_above(self.det, -(EPSILON_BITS as int)) && is_below(self.det, EPSILON_BITS as int)
    }

    /// Whether the crossing lies outside the triangle: whether a barycentric
    /// coordinate is below 0, the first is above 1, or their sum is above 1.
    pub open spec fn outside(self) -> bool {
        ||| is_below(self.u, 0)
        ||| is_above(self.u, ONE_BITS as int)
        ||| is_below(self.v, 0)
        ||| is_above(self.u_plus_v, ONE_BITS as int)
    }

    /// The parameter at which the ray hits the triangle: the parameter of the
    /// crossing, if the ray is not degenerate, the crossing not outside, and
    /// the parameter a number beyond epsilon and strictly inside the
    /// interval.
    pub open spec fn spec_hit(self, t_min: Scalar, t_max: Scalar) -> Option<Scalar> {
        if self.degenerate() || self.outside() {
            None
        } else {
            match self.t {
                Some(t) => if within_beyond(
                    t,
                    Scalar::with_key(EPSILON_BITS as int),
                    t_min,
                    t_max,
                ) {
                    Some(t)
                } else {
                    None
                },
                None => None,
            }
        }
    }

    /// The parameter at which the ray hits the triangle.
    pub fn hit(&self, t_min: Scalar, t_max: Scalar) -> (t: Option<Scalar>)
        ensures
            t == self.spec_hit(t_min, t_max),
            t matches Some(at) ==> within(at, t_min, t_max),
    {
        let epsilon = epsilon();
        let minus_epsilon = Scalar::from_bits(SIGN_BIT + EPSILON_BITS).unwrap();
        let zero = Scalar::zero();
        let one = Scalar::one();
        if let Some(det) = self.det {
            if minus_epsilon.lt(&det) && det.lt(&epsilon) {
                return None;
            }
        }
        if let Some(u) = self.u {
            if u.lt(&zero) || one.lt(&u) {
                return None;
            }
        }
        if let Some(v) = self.v {
            if v.lt(&zero) {
                return None;
            }
        }
        if let Some(sum) = self.u_plus_v {
            if one.lt(&sum) {
                return None;
            }
        }
        match self.t {
            Some(t) => if accept_beyond(t, epsilon, t_min, t_max) {
                Some(t)
            } else {
                None
            },
            None => None,
        }
    }
}

/// A triangle has one crossing with a ray: what counts below an upper bound
/// is what counts at all, where it lies below the bound.
pub proof fn lemma_one_crossing(found: Crossing, t_min: Scalar, t_max: Scalar)
    requires
        t_max.wf(),
    ensures
        found.spec_hit(t_min, t_max) == below(
            found.spec_hit(t_min, Scalar::with_key(INFINITY_MAGNITUDE as int)),
            t_max,
        ),
{
    Scalar::lemma_key_of_with_key(INFINITY_MAGNITUDE as int);
}

/// A flat triangle.
pub struct Triangle<M> {
    pub vertices: [Point3; 3],
    pub surface_normal: Vector3,
    pub material: M,
}

impl<M: Clone> Triangle<M> {
    /// A triangle with the normal that `normal_of` finds for its corners.
    pub fn new<N>(vertices: [Point3; 3], material: M, normal_of: &N) -> (tri: Self) where
        N: Fn(&[Point3; 3]) -> Vector3,

        requires
            forall|v: &[Point3; 3]| call_requires(*normal_of, (v,)),
        ensures
            tri.vertices == vertices,
            tri.material == material,
            call_ensures(*normal_of, (&vertices,), tri.surface_normal),
    {
        let surface_normal = normal_of(&vertices);
        Triangle { vertices, surface_normal, material }
    }

    /// Whether `rec` is something that a ray may find at this triangle:
    /// nothing where what `cross` finds gives no hit in the interval, else a
    /// hit at the parameter of the crossing, at the point that `point_at`
    /// gives for it, with the triangle's own normal and a copy of its
    /// material.
    pub open spec fn finds<C, P>(
        self,
        r: Ray3,
        t_min: Scalar,
        t_max: Scalar,
        cross: C,
        point_at: P,
        rec: Option<HitRecord<M>>,
    ) -> bool where C: Fn(&[Point3; 3], &Ray3) -> Crossing, P: Fn(&Ray3, Scalar) -> Point3 {
        exists|found: Crossing| #[trigger]
            call_ensures(cross, (&self.vertices, &r), found) && match found.spec_hit(t_min, t_max) {
                Some(t) => {
                    &&& rec matches Some(h)
                    &&& h.t == t
                    &&& call_ensures(point_at, (&r, t), h.p)
                    &&& h.normal == self.surface_normal
                    &&& h.material matches Some(m)
                    &&& cloned(self.material, m)
                },
                None => rec is None,
            }
    }

    /// The nearest hit of a ray at a parameter strictly between `t_min` and
    /// `t_max`.
    pub fn hit<C, P>(&self, r: &Ray3, t_min: Scalar, t_max: Scalar, cross: &C, point_at: &P) -> (rec:
        Option<HitRecord<M>>) where
        C: Fn(&[Point3; 3], &Ray3) -> Crossing,
        P: Fn(&Ray3, Scalar) -> Point3,

        requires
            forall|v: &[Point3; 3], ray: &Ray3| call_requires(*cross, (v, ray)),
            forall|ray: &Ray3, t: Scalar| call_requires(*point_at, (ray, t)),
        ensures
            self.finds(*r, t_min, t_max, *cross, *point_at, rec),
            rec matches Some(h) ==> within(h.t, t_min, t_max),
    {
        let found = cross(&self.vertices, r);
        match found.hit(t_min, t_max) {
            Some(t) => {
                let p = point_at(r, t);
                Some(HitRecord::new(t, p, self.surface_normal, Some(self.material.clone())))
            },
            None => None,
        }
    }

    /// A flat triangle reports no box.
    pub fn bounding_box(&self) -> (b: Option<AABB>)
        ensures
            b is None,
    {
        None
    }
}

/// A triangle with a normal at each corner, between which the normal of a
/// hit is interpolated.
pub struct NormalTriangle<M> {
    pub vertices: [Point3; 3],
    pub normals: [Vector3; 3],
    pub material: M,
}

impl<M: Clone> NormalTriangle<M> {
    pub fn new(vertices: [Point3; 3], normals: [Vector3; 3], material: M) -> (tri: Self)
        ensures
            tri.vertices == vertices,
            tri.normals == normals,
            tri.material == material,
    {
        NormalTriangle { vertices, normals, material }
    }

    /// Whether `rec` is something that a ray may find at this triangle:
    /// nothing where what `cross` finds gives no hit in the interval, else a
    /// hit at the parameter of the crossing, at the point that `point_at`
    /// gives for it, with the normal that `blend` makes of the corners'
    /// normals at the crossing's barycentric coordinates, and with a copy of
    /// the material.
    pub open spec fn finds<C, P, B>(
        self,
        r: Ray3,
        t_min: Scalar,
        t_max: Scalar,
        cross: C,
        point_at: P,
        blend: B,
        rec: Option<HitRecord<M>>,
    ) -> bool where
        C: Fn(&[Point3; 3], &Ray3) -> Crossing,
        P: Fn(&Ray3, Scalar) -> Point3,
        B: Fn(&[Vector3; 3], Option<Scalar>, Option<Scalar>) -> Vector3,
     {
        exists|found: Crossing| #[trigger]
            call_ensures(cross, (&self.vertices, &r), found) && match found.spec_hit(t_min, t_max) {
                Some(t) => {
                    &&& rec matches Some(h)
                    &&& h.t == t
                    &&& call_ensures(point_at, (&r, t), h.p)
                    &&& call_ensures(blend, (&self.normals, found.u, found.v), h.normal)
                    &&& h.material matches Some(m)
                    &&& cloned(self.material, m)
                },
                None => rec is None,
            }
    }

    /// The nearest hit of a ray at a parameter strictly between `t_min` and
    /// `t_max`.
    pub fn hit<C, P, B>(
        &self,
        r: &Ray3,
        t_min: Scalar,
        t_max: Scalar,
        cross: &C,
        point_at: &P,
        blend: &B,
    ) -> (rec: Option<HitRecord<M>>) where
        C: Fn(&[Point3; 3], &Ray3) -> Crossing,
        P: Fn(&Ray3, Scalar) -> Point3,
        B: Fn(&[Vector3; 3], Option<Scalar>, Option<Scalar>) -> Vector3,

        requires
            forall|v: &[Point3; 3], ray: &Ray3| call_requires(*cross, (v, ray)),
            forall|ray: &Ray3, t: Scalar| call_requires(*point_at, (ray, t)),
            forall|n: &[Vector3; 3], u: Option<Scalar>, v: Option<Scalar>|
                call_requires(*blend, (n, u, v)),
        ensures
            self.finds(*r, t_min, t_max, *cross, *point_at, *blend, rec),
            rec matches Some(h) ==> within(h.t, t_min, t_max),
    {
        let found = cross(&self.vertices, r);
        match found.hit(t_min, t_max) {
            Some(t) => {
                let p = point_at(r, t);
                let normal = blend(&self.normals, found.u, found.v);
                Some(HitRecord::new(t, p, normal, Some(self.material.clone())))
            },
            None => None,
        }
    }

    /// The smallest box around the three corners.
    pub fn bounding_box(&self) -> (b: Option<AABB>)
        ensures
            b == Some(AABB::spec_around(self.vertices[0], self.vertices[1], self.vertices[2])),
    {
        Some(AABB::around(&self.vertices[0], &self.vertices[1], &self.vertices[2]))
    }
}

} // verus!
