//! Axis-aligned bounding boxes: the union of two boxes, and the slab test of a
//! box against a ray.
use vstd::prelude::*;
use crate::ray::Ray3;
use crate::scalar::Scalar;
use crate::vector::Point3;

verus! {

/// An axis-aligned box, given by its two extreme corners.
#[derive(Clone, Copy, Debug, PartialEq, Eq, Structural)]
pub struct AABB {
    pub min: Point3,
    pub max: Point3,
}

/// Where a ray crosses the two planes that bound a box on one axis.
///
/// `inv_d` is the reciprocal of the ray's direction on that axis, `t0` the ray
/// parameter at which it meets the plane through the box's minimum and `t1`
/// the one for the maximum. Each is `None` where the arithmetic gave no number
/// (zero times infinity, for a ray that runs inside one of the planes).
#[derive(Clone, Copy, Debug, PartialEq, Eq, Structural)]
pub struct Slab {
    pub inv_d: Option<Scalar>,
    pub t0: Option<Scalar>,
    pub t1: Option<Scalar>,
}

impl Slab {
    /// Whether the ray runs against the axis, so that it meets the maximum
    /// plane first.
    pub open spec fn reversed(self) -> bool {
        self.inv_d matches Some(i) && i@ < 0
    }

    /// The parameter at which the ray enters the slab.
    pub open spec fn entry(self) -> Option<Scalar> {
        if self.reversed() {
            self.t1
        } else {
            self.t0
        }
    }

    /// The parameter at which the ray leaves the slab.
    pub open spec fn exit(self) -> Option<Scalar> {
        if self.reversed() {
            self.t0
        } else {
            self.t1
        }
    }
}

impl Slab {
    /// Whether the ray is between the two planes at parameter `t`, as far as
    /// the crossings are numbers.
    pub open spec fn holds(self, t: Scalar) -> bool {
        &&& self.entry() matches Some(e) ==> e@ <= t@
        &&& self.exit() matches Some(e) ==> t@ <= e@
    }
}

/// A lower bound raised to a slab's entry, where that is a number above it.
pub open spec fn raised(lo: Scalar, entry: Option<Scalar>) -> Scalar {
    match entry {
        Some(e) => if e@ > lo@ {
            e
        } else {
            lo
        },
        None => lo,
    }
}

/// An upper bound lowered to a slab's exit, where that is a number below it.
pub open spec fn lowered(hi: Scalar, exit: Option<Scalar>) -> Scalar {
    match exit {
        Some(e) => if e@ < hi@ {
            e
        } else {
            hi
        },
        None => hi,
    }
}

/// The latest entry into the three slabs, no earlier than `t_min`.
pub open spec fn latest_entry(x: Slab, y: Slab, z: Slab, t_min: Scalar) -> Scalar {
    raised(raised(raised(t_min, x.entry()), y.entry()), z.entry())
}

/// The earliest exit from the three slabs, no later than `t_max`.
pub open spec fn earliest_exit(x: Slab, y: Slab, z: Slab, t_max: Scalar) -> Scalar {
    lowered(lowered(lowered(t_max, x.exit()), y.exit()), z.exit())
}

/// The part of `[t_min, t_max]` in which the ray is inside all three slabs,
/// if that part has any length.
pub open spec fn clipped(x: Slab, y: Slab, z: Slab, t_min: Scalar, t_max: Scalar) -> Option<
    (Scalar, Scalar),
> {
    let lo = latest_entry(x, y, z, t_min);
    let hi = earliest_exit(x, y, z, t_max);
    if lo@ < hi@ {
        Some((lo, hi))
    } else {
        None
    }
}

/// One slab's cut of a running interval: the bounds after it.
fn tighten(slab: &Slab, lo: Scalar, hi: Scalar) -> (r: (Scalar, Scalar))
    ensures
        r.0 == raised(lo, slab.entry()),
        r.1 == lowered(hi, slab.exit()),
{
    let reversed = match slab.inv_d {
        Some(i) => i.lt(&Scalar::zero()),
        None => false,
    };
    let (entry, exit) = if reversed {
        (slab.t1, slab.t0)
    } else {
        (slab.t0, slab.t1)
    };
    let lo2 = match entry {
        Some(e) => if lo.lt(&e) {
            e
        } else {
            lo
        },
        None => lo,
    };
    let hi2 = match exit {
        Some(e) => if e.lt(&hi) {
            e
        } else {
            hi
        },
        None => hi,
    };
    (lo2, hi2)
}

impl AABB {
    pub fn new(min: Point3, max: Point3) -> (b: AABB)
        ensures
            b == (AABB { min, max }),
    {
        AABB { min, max }
    }

    /// Whether the minimum corner is nowhere above the maximum corner.
    pub open spec fn wf(self) -> bool {
        &&& self.min.x@ <= self.max.x@
        &&& self.min.y@ <= self.max.y@
        &&& self.min.z@ <= self.max.z@
    }

    /// Whether `inner` lies within this box, on every axis.
    pub open spec fn encloses(self, inner: AABB) -> bool {
        &&& self.min.x@ <= inner.min.x@ && inner.max.x@ <= self.max.x@
        &&& self.min.y@ <= inner.min.y@ && inner.max.y@ <= self.max.y@
        &&& self.min.z@ <= inner.min.z@ && inner.max.z@ <= self.max.z@
    }

    /// The smallest box around two boxes: the least of the minima and the
    /// greatest of the maxima, axis by axis.
    pub open spec fn spec_surrounding_box(self, other: AABB) -> AABB {
        AABB {
            min: Point3 {
                x: self.min.x.spec_min(other.min.x),
                y: self.min.y.spec_min(other.min.y),
                z: self.min.z.spec_min(other.min.z),
            },
            max: Point3 {
                x: self.max.x.spec_max(other.max.x),
                y: self.max.y.spec_max(other.max.y),
                z: self.max.z.spec_max(other.max.z),
            },
        }
    }

    /// The smallest box around this box and another.
    pub fn surrounding_box(&self, other: &AABB) -> (b: AABB)
        ensures
            b == self.spec_surrounding_box(*other),
    {
        AABB::new(
            Point3::new(
                self.min.x.min(other.min.x),
                self.min.y.min(other.min.y),
                self.min.z.min(other.min.z),
            ),
            Point3::new(
                self.max.x.max(other.max.x),
                self.max.y.max(other.max.y),
                self.max.z.max(other.max.z),
            ),
        )
    }

    /// The smallest box around three points.
    pub open spec fn spec_around(a: Point3, b: Point3, c: Point3) -> AABB {
        AABB {
            min: Point3 {
                x: a.x.spec_min(b.x).spec_min(c.x),
                y: a.y.spec_min(b.y).spec_min(c.y),
                z: a.z.spec_min(b.z).spec_min(c.z),
            },
            max: Point3 {
                x: a.x.spec_max(b.x).spec_max(c.x),
                y: a.y.spec_max(b.y).spec_max(c.y),
                z: a.z.spec_max(b.z).spec_max(c.z),
            },
        }
    }

    /// The smallest box around three points: the corners of a triangle.
    pub fn around(a: &Point3, b: &Point3, c: &Point3) -> (r: AABB)
        ensures
            r == AABB::spec_around(*a, *b, *c),
    {
        AABB::new(
            Point3::new(a.x.min(b.x).min(c.x), a.y.min(b.y).min(c.y), a.z.min(b.z).min(c.z)),
            Point3::new(a.x.max(b.x).max(c.x), a.y.max(b.y).max(c.y), a.z.max(b.z).max(c.z)),
        )
    }

    /// Whether a point lies in this box, its faces included.
    pub open spec fn holds(self, p: Point3) -> bool {
        &&& self.min.x@ <= p.x@ <= self.max.x@
        &&& self.min.y@ <= p.y@ <= self.max.y@
        &&& self.min.z@ <= p.z@ <= self.max.z@
    }

    /// Cuts `[t_min, t_max]` down to the part in which a ray is inside three
    /// slabs, taking the slabs in turn and giving up at the first that leaves
    /// nothing. Returns the part that is left, if it has any length.
    pub fn clip(x: &Slab, y: &Slab, z: &Slab, t_min: Scalar, t_max: Scalar) -> (r: Option<
        (Scalar, Scalar),
    >)
        ensures
            r == clipped(*x, *y, *z, t_min, t_max),
    {
        let (lo, hi) = tighten(x, t_min, t_max);
        if hi.le(&lo) {
            return None;
        }
        let (lo, hi) = tighten(y, lo, hi);
        if hi.le(&lo) {
            return None;
        }
        let (lo, hi) = tighten(z, lo, hi);
        if hi.le(&lo) {
            return None;
        }
        Some((lo, hi))
    }

    /// Whether a ray passes through this box at a parameter within
    /// `[t_min, t_max]`.
    ///
    /// `slab` does the arithmetic of one axis: handed the box's minimum and
    /// maximum and the ray's origin and direction on that axis, it returns the
    /// crossing parameters. It is asked once for each axis; the answer is what
    /// [`AABB::clip`] makes of the three slabs.
    pub fn hit<F>(&self, r: &Ray3, t_min: Scalar, t_max: Scalar, slab: &F) -> (hit: bool) where
        F: Fn(Scalar, Scalar, Scalar, Scalar) -> Slab,
        requires
            forall|lo: Scalar, hi: Scalar, o: Scalar, d: Scalar| call_requires(*slab, (lo, hi, o, d)),
        ensures
            self.slab_test(*r, t_min, t_max, *slab, hit),
    {
        let x = slab(self.min.x, self.max.x, r.origin.x, r.direction.x);
        let y = slab(self.min.y, self.max.y, r.origin.y, r.direction.y);
        let z = slab(self.min.z, self.max.z, r.origin.z, r.direction.z);
        AABB::clip(&x, &y, &z, t_min, t_max).is_some()
    }

    /// `hit` is a possible answer of the slab test: there are slabs that the
    /// arithmetic can return for the three axes, and `hit` says whether they
    /// leave a part of `[t_min, t_max]`.
    pub open spec fn slab_test<F>(self, r: Ray3, t_min: Scalar, t_max: Scalar, slab: F, hit: bool) -> bool where
        F: Fn(Scalar, Scalar, Scalar, Scalar) -> Slab,
     {
        exists|x: Slab, y: Slab, z: Slab|
            {
                &&& call_ensures(slab, (self.min.x, self.max.x, r.origin.x, r.direction.x), x)
                &&& call_ensures(slab, (self.min.y, self.max.y, r.origin.y, r.direction.y), y)
                &&& call_ensures(slab, (self.min.z, self.max.z, r.origin.z, r.direction.z), z)
                &&& hit == (#[trigger] clipped(x, y, z, t_min, t_max) is Some)
            }
    }
}

/// Around a box and the union of that box with another is the union itself.
pub proof fn lemma_surrounding_box_absorbs(a: AABB, b: AABB)
    ensures
        a.spec_surrounding_box(a.spec_surrounding_box(b)) == a.spec_surrounding_box(b),
{
}

/// The union of a box with itself is the box.
pub proof fn lemma_surrounding_box_idempotent(a: AABB)
    ensures
        a.spec_surrounding_box(a) == a,
{
}

/// The union does not depend on the order of the two boxes.
pub proof fn lemma_surrounding_box_commutative(a: AABB, b: AABB)
    ensures
        a.spec_surrounding_box(b) == b.spec_surrounding_box(a),
{
    broadcast use Scalar::lemma_view_injective;

}

/// The union of three boxes does not depend on how they are grouped.
pub proof fn lemma_surrounding_box_associative(a: AABB, b: AABB, c: AABB)
    ensures
        a.spec_surrounding_box(b).spec_surrounding_box(c) == a.spec_surrounding_box(
            b.spec_surrounding_box(c),
        ),
{
}

/// The union encloses both boxes, and is well formed as soon as one of them is.
pub proof fn lemma_surrounding_box_encloses(a: AABB, b: AABB)
    ensures
        a.spec_surrounding_box(b).encloses(a),
        a.spec_surrounding_box(b).encloses(b),
        a.wf() || b.wf() ==> a.spec_surrounding_box(b).wf(),
{
}

/// The union is the least box around the two: every box that encloses both
/// encloses their union.
pub proof fn lemma_surrounding_box_least(a: AABB, b: AABB, outer: AABB)
    requires
        outer.encloses(a),
        outer.encloses(b),
    ensures
        outer.encloses(a.spec_surrounding_box(b)),
{
}

/// The box around three points is well formed, holds the three, and lies
/// within every box that holds them.
pub proof fn lemma_around_is_least(a: Point3, b: Point3, c: Point3, outer: AABB)
    ensures
        AABB::spec_around(a, b, c).wf(),
        AABB::spec_around(a, b, c).holds(a),
        AABB::spec_around(a, b, c).holds(b),
        AABB::spec_around(a, b, c).holds(c),
        outer.holds(a) && outer.holds(b) && outer.holds(c) ==> outer.encloses(
            AABB::spec_around(a, b, c),
        ),
{
}

/// What the slabs leave of an interval lies within it and has length; of an
/// interval without length they leave nothing.
pub proof fn lemma_clipped_within(x: Slab, y: Slab, z: Slab, t_min: Scalar, t_max: Scalar)
    ensures
        clipped(x, y, z, t_min, t_max) matches Some((lo, hi)) ==> t_min@ <= lo@ < hi@ <= t_max@,
        t_max@ <= t_min@ ==> clipped(x, y, z, t_min, t_max) is None,
{
}

/// What the slabs leave is the part of `[t_min, t_max]` in which the ray is
/// inside all three: a parameter lies between the latest entry and the
/// earliest exit exactly if it lies in the interval and in every slab.
pub proof fn lemma_clipped_is_the_common_part(
    x: Slab,
    y: Slab,
    z: Slab,
    t_min: Scalar,
    t_max: Scalar,
    t: Scalar,
)
    ensures
        latest_entry(x, y, z, t_min)@ <= t@ <= earliest_exit(x, y, z, t_max)@ <==> t_min@ <= t@
            <= t_max@ && x.holds(t) && y.holds(t) && z.holds(t),
{
}

} // verus!
