//! A pyramid on a four-cornered base: four triangles and a quadrilateral.
use vstd::prelude::*;
use crate::vector::Point3;

verus! {

/// The faces of a pyramid: four sides that meet in the zenith, and the base.
#[derive(Clone, Copy, Debug)]
pub struct Faces {
    pub sides: [[Point3; 3]; 4],
    pub base: [Point3; 4],
}

/// The faces of the pyramid over the given corners of the base, in order
/// round its edge: a side over each edge of the base, taken backwards round
/// the base from the edge between its first and its last corner, and the
/// base itself with its corners backwards.
pub open spec fn spec_faces(base: [Point3; 4], zenith: Point3) -> Faces {
    Faces {
        sides: [
            [base[0], zenith, base[3]],
            [base[3], zenith, base[2]],
            [base[2], zenith, base[1]],
            [base[1], zenith, base[0]],
        ],
        base: [base[0], base[3], base[2], base[1]],
    }
}

/// The faces of a pyramid.
pub fn faces(base: &[Point3; 4], zenith: Point3) -> (f: Faces)
    ensures
        f == spec_faces(*base, zenith),
{
    Faces {
        sides: [
            [base[0], zenith, base[3]],
            [base[3], zenith, base[2]],
            [base[2], zenith, base[1]],
            [base[1], zenith, base[0]],
        ],
        base: [base[0], base[3], base[2], base[1]],
    }
}

} // verus!
