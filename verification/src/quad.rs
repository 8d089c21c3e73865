//! A quadrilateral: two triangles.
use vstd::prelude::*;
use crate::vector::Point3;

verus! {

/// The two triangles that make up a quadrilateral with the given corners, in
/// order round its edge: the first three corners, and the first with the last
/// two.
pub open spec fn spec_triangles(vertices: [Point3; 4]) -> [[Point3; 3]; 2] {
    [[vertices[0], vertices[1], vertices[2]], [vertices[0], vertices[2], vertices[3]]]
}

/// The two triangles that make up a quadrilateral.
pub fn triangles(vertices: &[Point3; 4]) -> (halves: [[Point3; 3]; 2])
    ensures
        halves == spec_triangles(*vertices),
{
    [[vertices[0], vertices[1], vertices[2]], [vertices[0], vertices[2], vertices[3]]]
}

} // verus!
