//! Textures: a colour for every point of a surface.
use vstd::prelude::*;
use crate::scalar::Scalar;
use crate::vector::{Point3, Vector3};

verus! {

/// One colour everywhere.
#[derive(Clone, Copy, Debug, PartialEq, Eq, Structural)]
pub struct ConstantTexture {
    pub colour: Vector3,
}

impl ConstantTexture {
    pub fn new(colour: Vector3) -> (texture: Self)
        ensures
            texture.colour == colour,
    {
        ConstantTexture { colour }
    }

    /// The colour at a point: the one colour.
    pub fn value(&self, u: Scalar, v: Scalar, p: Point3) -> (c: Vector3)
        ensures
            c == self.colour,
    {
        self.colour
    }
}

/// Two textures in turn, like the squares of a chessboard.
#[derive(Clone, Debug)]
pub struct ChequeredTexture<T> {
    pub odd: T,
    pub even: T,
}

/// Whether a point lies on an odd square: whether the wave there is a number
/// below zero.
pub open spec fn on_odd_square(wave: Option<Scalar>) -> bool {
    wave matches Some(w) && w@ < 0
}

impl<T> ChequeredTexture<T> {
    pub fn new(odd: T, even: T) -> (texture: Self)
        ensures
            texture.odd == odd,
            texture.even == even,
    {
        ChequeredTexture { odd, even }
    }

    /// The one of the two textures that colours a point: the odd one where
    /// the wave that `wave_at` gives for the point is below zero, the even
    /// one elsewhere.
    pub fn at<W>(&self, p: Point3, wave_at: &W) -> (texture: &T) where W: Fn(Point3) -> Option<Scalar>
        requires
            forall|q: Point3| call_requires(*wave_at, (q,)),
        ensures
            exists|wave: Option<Scalar>| #[trigger]
                call_ensures(*wave_at, (p,), wave) && *texture == (if on_odd_square(wave) {
                    self.odd
                } else {
                    self.even
                }),
    {
        let wave = wave_at(p);
        let odd = match wave {
            Some(w) => w.lt(&Scalar::zero()),
            None => false,
        };
        if odd {
            &self.odd
        } else {
            &self.even
        }
    }
}

} // verus!
