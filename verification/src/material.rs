//! Materials: what becomes of a ray at a surface.
//!
//! The rules of scattering are here: which colour a material gives to the
//! light, when a ray is absorbed, how glass chooses between mirror and lens.
//! The directions are the caller's to compute.
use vstd::prelude::*;
use crate::hitable::HitRecord;
use crate::ray::Ray3;
use crate::scalar::{Scalar, ONE_BITS};
use crate::vector::{Point3, Vector3};

verus! {

/// What a surface is made of. `T` is the kind of texture that a textured
/// surface carries.
#[derive(Clone, Debug)]
pub enum Material<T> {
    /// A mirror of colour `albedo`, blurred the more the larger `fuzz` is.
    Metal { albedo: Vector3, fuzz: Scalar },
    /// A matt surface of colour `albedo`.
    Lambertian { albedo: Vector3 },
    /// A matt surface whose colour varies from point to point.
    TexturedLambertian { texture: T },
    /// Clear glass with refractive index `ref_idx`.
    Dielectric { ref_idx: Scalar },
}

/// What the arithmetic finds for a ray that meets glass.
#[derive(Clone, Copy, Debug, PartialEq, Eq, Structural)]
pub struct Glass {
    /// The direction of the ray mirrored at the surface.
    pub reflected: Vector3,
    /// The direction of the ray bent into the surface, or nothing where the
    /// ray cannot get through (total internal reflection).
    pub refracted: Option<Vector3>,
    /// The share of the light that is mirrored at this angle (Schlick's
    /// approximation).
    pub reflectance: Scalar,
    /// A number drawn at random from `[0, 1)`.
    pub draw: Scalar,
}

/// The colour that takes nothing from the light: 1 in every channel.
pub open spec fn spec_white() -> Vector3 {
    Vector3 {
        x: Scalar::with_key(ONE_BITS as int),
        y: Scalar::with_key(ONE_BITS as int),
        z: Scalar::with_key(ONE_BITS as int),
    }
}

/// The colour that takes nothing from the light: 1 in every channel.
pub fn white() -> (c: Vector3)
    ensures
        c == spec_white(),
{
    Vector3::new(Scalar::one(), Scalar::one(), Scalar::one())
}

impl Glass {
    /// The chance that the ray is mirrored: the reflectance where the ray can
    /// get through, 1 where it cannot.
    pub open spec fn reflect_prob(self) -> Scalar {
        if self.refracted is Some {
            self.reflectance
        } else {
            Scalar::with_key(ONE_BITS as int)
        }
    }

    /// Whether the ray is mirrored: whether the draw falls below the chance
    /// of that.
    pub open spec fn mirrors(self) -> bool {
        self.draw@ < self.reflect_prob()@
    }

    /// The direction in which the ray goes on: mirrored, or bent (a ray that
    /// cannot get through and is not mirrored stops dead).
    pub open spec fn spec_direction(self) -> Vector3 {
        if self.mirrors() {
            self.reflected
        } else {
            match self.refracted {
                Some(d) => d,
                None => Vector3::spec_zero(),
            }
        }
    }

    /// The direction in which the ray goes on.
    pub fn direction(&self) -> (d: Vector3)
        ensures
            d == self.spec_direction(),
    {
        let reflect_prob = if self.refracted.is_some() {
            self.reflectance
        } else {
            Scalar::one()
        };
        if self.draw.lt(&reflect_prob) {
            self.reflected
        } else {
            match self.refracted {
                Some(d) => d,
                None => Vector3::zero(),
            }
        }
    }
}

/// A draw from `[0, 1)` is below 1: a ray that cannot get through glass is
/// always mirrored.
pub proof fn lemma_total_reflection_mirrors(glass: Glass)
    requires
        glass.refracted is None,
        glass.draw@ < ONE_BITS,
    ensures
        glass.mirrors(),
        glass.spec_direction() == glass.reflected,
{
    Scalar::lemma_key_of_with_key(ONE_BITS as int);
}

/// Whether a mirrored ray leaves the surface: whether its direction and the
/// normal make a number above zero.
pub open spec fn leaves_surface(along: Option<Scalar>) -> bool {
    along matches Some(a) && a@ > 0
}

/// Whether `out` is something that scattering may return: an attenuation, a
/// scattered ray and whether the ray is scattered at all.
///
/// The scattered ray starts at the point of the hit, at the moment of the
/// incoming ray. A matt surface always scatters, in the direction that
/// `diffuse` gives for the hit, and attenuates by its colour: its albedo, or
/// what `colour_at` gives for its texture at the point. Metal attenuates by
/// its albedo and scatters in the direction that `mirror` gives, if that
/// leaves the surface. Glass takes nothing from the light and always
/// scatters, in the direction that [`Glass::spec_direction`] picks from what
/// `glass` finds.
pub open spec fn scatters<T, M, D, X, R, G>(
    material: Material<T>,
    r_in: Ray3,
    hit_rec: HitRecord<M>,
    diffuse: D,
    colour_at: X,
    mirror: R,
    glass: G,
    out: (Vector3, Ray3, bool),
) -> bool where
    D: Fn(&HitRecord<M>) -> Vector3,
    X: Fn(&T, Point3) -> Vector3,
    R: Fn(&Ray3, &HitRecord<M>, Scalar) -> (Vector3, Option<Scalar>),
    G: Fn(&Ray3, &HitRecord<M>, Scalar) -> Glass,
 {
    &&& out.1.origin == hit_rec.p
    &&& out.1.time == r_in.time
    &&& match material {
        Material::Metal { albedo, fuzz } => {
            &&& out.0 == albedo
            &&& exists|along: Option<Scalar>| #[trigger]
                call_ensures(mirror, (&r_in, &hit_rec, fuzz), (out.1.direction, along)) && out.2
                    == leaves_surface(along)
        },
        Material::Lambertian { albedo } => {
            &&& out.0 == albedo
            &&& call_ensures(diffuse, (&hit_rec,), out.1.direction)
            &&& out.2
        },
        Material::TexturedLambertian { texture } => {
            &&& call_ensures(colour_at, (&texture, hit_rec.p), out.0)
            &&& call_ensures(diffuse, (&hit_rec,), out.1.direction)
            &&& out.2
        },
        Material::Dielectric { ref_idx } => {
            &&& out.0 == spec_white()
            &&& exists|found: Glass| #[trigger]
                call_ensures(glass, (&r_in, &hit_rec, ref_idx), found) && out.1.direction
                    == found.spec_direction()
            &&& out.2
        },
    }
}

/// Scatters a ray at a surface: see [`scatters`].
///
/// `diffuse` gives the direction in which a matt surface sends the light on,
/// `colour_at` the colour of a texture at a point, `mirror` the direction in
/// which metal of a given fuzz sends the ray on together with the product of
/// that direction and the normal, and `glass` what the ray can do at glass of
/// a given refractive index.
pub fn scatter<T, M, D, X, R, G>(
    material: &Material<T>,
    r_in: &Ray3,
    hit_rec: &HitRecord<M>,
    diffuse: &D,
    colour_at: &X,
    mirror: &R,
    glass: &G,
) -> (out: (Vector3, Ray3, bool)) where
    D: Fn(&HitRecord<M>) -> Vector3,
    X: Fn(&T, Point3) -> Vector3,
    R: Fn(&Ray3, &HitRecord<M>, Scalar) -> (Vector3, Option<Scalar>),
    G: Fn(&Ray3, &HitRecord<M>, Scalar) -> Glass,

    requires
        forall|h: &HitRecord<M>| call_requires(*diffuse, (h,)),
        forall|t: &T, p: Point3| call_requires(*colour_at, (t, p)),
        forall|r: &Ray3, h: &HitRecord<M>, fuzz: Scalar| call_requires(*mirror, (r, h, fuzz)),
        forall|r: &Ray3, h: &HitRecord<M>, ref_idx: Scalar| call_requires(*glass, (r, h, ref_idx)),
    ensures
        scatters(*material, *r_in, *hit_rec, *diffuse, *colour_at, *mirror, *glass, out),
{
    match material {
        Material::Metal { albedo, fuzz } => {
            let (direction, along) = mirror(r_in, hit_rec, *fuzz);
            let should_scatter = match along {
                Some(a) => Scalar::zero().lt(&a),
                None => false,
            };
            assert(call_ensures(*mirror, (r_in, hit_rec, *fuzz), (direction, along)));
            (*albedo, Ray3::new(hit_rec.p, direction, r_in.time), should_scatter)
        },
        Material::Lambertian { albedo } => {
            let direction = diffuse(hit_rec);
            (*albedo, Ray3::new(hit_rec.p, direction, r_in.time), true)
        },
        Material::TexturedLambertian { texture } => {
            let direction = diffuse(hit_rec);
            let attenuation = colour_at(texture, hit_rec.p);
            (attenuation, Ray3::new(hit_rec.p, direction, r_in.time), true)
        },
        Material::Dielectric { ref_idx } => {
            let found = glass(r_in, hit_rec, *ref_idx);
            (white(), Ray3::new(hit_rec.p, found.direction(), r_in.time), true)
        },
    }
}

} // verus!
