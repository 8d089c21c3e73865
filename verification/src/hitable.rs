//! What a ray can hit: the record of a hit, the capability of being hit, and
//! the flat aggregate that asks its members in turn.
use vstd::prelude::*;
use std::time::Instant;
use crate::aabb::AABB;
use crate::ray::Ray3;
use crate::scalar::Scalar;
use crate::vector::{Point3, Vector3};

verus! {

/// One intersection of a ray with a surface: the ray parameter, the point, the
/// surface normal there, and the material of the surface if it has one.
#[derive(Clone, Debug)]
pub struct HitRecord<M> {
    pub t: Scalar,
    pub p: Point3,
    pub normal: Vector3,
    pub material: Option<M>,
}

/// Whether a ray parameter lies strictly inside an interval.
pub open spec fn within(t: Scalar, t_min: Scalar, t_max: Scalar) -> bool {
    t_min@ < t@ < t_max@
}

/// Whether a ray parameter lies strictly inside an interval: whether a hit
/// there counts.
pub fn accept(t: Scalar, t_min: Scalar, t_max: Scalar) -> (yes: bool)
    ensures
        yes == within(t, t_min, t_max),
{
    t.lt(&t_max) && t_min.lt(&t)
}

/// The bit pattern of 0.00001: a hit no farther along the ray than this is
/// taken for the surface that the ray has just left.
pub const EPSILON_BITS: u32 = 0x3727_c5ac;

/// The number 0.00001.
pub fn epsilon() -> (e: Scalar)
    ensures
        e@ == EPSILON_BITS,
        e == Scalar::with_key(EPSILON_BITS as int),
{
    let e = Scalar::from_bits(EPSILON_BITS).unwrap();
    proof {
        Scalar::lemma_with_key(e);
    }
    e
}

/// What [`accept_beyond`] accepts: a parameter inside the interval and above
/// `epsilon` as well.
pub open spec fn within_beyond(t: Scalar, epsilon: Scalar, t_min: Scalar, t_max: Scalar) -> bool {
    epsilon@ < t@ && within(t, t_min, t_max)
}

/// Whether a hit at `t` counts for a surface that takes no hit at or below
/// `epsilon`, so that a ray does not hit the surface it has just left.
pub fn accept_beyond(t: Scalar, epsilon: Scalar, t_min: Scalar, t_max: Scalar) -> (yes: bool)
    ensures
        yes == within_beyond(t, epsilon, t_min, t_max),
{
    epsilon.lt(&t) && t.lt(&t_max) && t_min.lt(&t)
}

impl<M> HitRecord<M> {
    pub fn new(t: Scalar, p: Point3, normal: Vector3, material: Option<M>) -> (rec: Self)
        ensures
            rec.t == t,
            rec.p == p,
            rec.normal == normal,
            rec.material == material,
    {
        HitRecord { t, p, normal, material }
    }

    /// Of two answers the hit with the smaller parameter, the second where
    /// they are equal; the one hit where only one is; nothing where none is.
    pub open spec fn spec_nearer(left: Option<Self>, right: Option<Self>) -> Option<Self> {
        match (left, right) {
            (Some(l), Some(r)) => if l.t@ < r.t@ {
                left
            } else {
                right
            },
            (Some(_), None) => left,
            _ => right,
        }
    }

    /// The nearer of two answers.
    pub fn nearer(left: Option<Self>, right: Option<Self>) -> (rec: Option<Self>)
        ensures
            rec == Self::spec_nearer(left, right),
    {
        match (left, right) {
            (Some(l), Some(r)) => if l.t.lt(&r.t) {
                Some(l)
            } else {
                Some(r)
            },
            (Some(l), None) => Some(l),
            (None, right) => right,
        }
    }
}

/// Anything that a ray can hit.
pub trait Hitable {
    /// What its surface is made of.
    type Material;

    /// The nearest intersection with `r` at a parameter strictly between
    /// `t_min` and `t_max`, if there is one.
    fn hit(&self, r: &Ray3, t_min: Scalar, t_max: Scalar) -> (rec: Option<
        HitRecord<Self::Material>,
    >)
        ensures
            rec matches Some(h) ==> within(h.t, t_min, t_max),
    ;

    /// A box around everything it covers between the moments `t0` and `t1`,
    /// or nothing where it has no such box.
    fn bounding_box(&self, t0: Instant, t1: Instant) -> (b: Option<AABB>);
}

/// Whether `out` is something that `h` may answer when asked for a hit of `r`
/// between `t_min` and `t_max`.
pub open spec fn answers<H: Hitable>(
    h: H,
    r: Ray3,
    t_min: Scalar,
    t_max: Scalar,
    out: Option<HitRecord<H::Material>>,
) -> bool {
    call_ensures(H::hit, (&h, &r, t_min, t_max), out)
}

/// Whether `b` is something that `h` may report as its bounding box.
pub open spec fn reports<H: Hitable>(h: H, t0: Instant, t1: Instant, b: Option<AABB>) -> bool {
    call_ensures(H::bounding_box, (&h, t0, t1), b)
}

/// The last hit among a run of answers.
pub open spec fn last_hit<M>(outcomes: Seq<Option<HitRecord<M>>>) -> Option<HitRecord<M>>
    decreases outcomes.len(),
{
    if outcomes.len() == 0 {
        None
    } else if outcomes.last() is Some {
        outcomes.last()
    } else {
        last_hit(outcomes.drop_last())
    }
}

/// The parameter of the last hit among a run of answers, `t_max` where there
/// is none: the upper bound handed to the member that is asked next.
pub open spec fn closest_so_far<M>(outcomes: Seq<Option<HitRecord<M>>>, t_max: Scalar) -> Scalar {
    match last_hit(outcomes) {
        Some(h) => h.t,
        None => t_max,
    }
}

/// Whether answer `i` of a run is something that member `i` may answer when
/// asked for a hit nearer than the last hit before it.
pub open spec fn is_sweep_step<H: Hitable>(
    members: Seq<H>,
    r: Ray3,
    t_min: Scalar,
    t_max: Scalar,
    outcomes: Seq<Option<HitRecord<H::Material>>>,
    i: int,
) -> bool {
    answers(members[i], r, t_min, closest_so_far(outcomes.take(i), t_max), outcomes[i])
}

/// Whether `outcomes` is a run of the closest-hit sweep over `members`: one
/// answer from each member in turn, each asked for a hit nearer than the last
/// hit before it.
pub open spec fn is_sweep<H: Hitable>(
    members: Seq<H>,
    r: Ray3,
    t_min: Scalar,
    t_max: Scalar,
    outcomes: Seq<Option<HitRecord<H::Material>>>,
) -> bool {
    &&& outcomes.len() == members.len()
    &&& forall|i: int|
        0 <= i < members.len() ==> #[trigger] is_sweep_step(members, r, t_min, t_max, outcomes, i)
}

/// The box around a run of reported boxes: nothing for an empty run or where
/// one report is missing, else the union of them all.
pub open spec fn union_of(boxes: Seq<Option<AABB>>) -> Option<AABB>
    decreases boxes.len(),
{
    if boxes.len() == 0 {
        None
    } else if boxes.len() == 1 {
        boxes[0]
    } else {
        match (union_of(boxes.drop_last()), boxes.last()) {
            (Some(a), Some(b)) => Some(a.spec_surrounding_box(b)),
            _ => None,
        }
    }
}

/// Whether `boxes` holds one report from each member, in order.
pub open spec fn is_survey<H: Hitable>(
    members: Seq<H>,
    t0: Instant,
    t1: Instant,
    boxes: Seq<Option<AABB>>,
) -> bool {
    &&& boxes.len() == members.len()
    &&& forall|i: int| 0 <= i < members.len() ==> reports(members[i], t0, t1, #[trigger] boxes[i])
}

/// A flat collection of things to hit.
pub struct HitableList<H> {
    list: Vec<H>,
}

impl<H> View for HitableList<H> {
    type V = Seq<H>;

    closed spec fn view(&self) -> Seq<H> {
        self.list@
    }
}

impl<H: Hitable> HitableList<H> {
    /// The empty collection.
    pub fn new() -> (l: Self)
        ensures
            l@ == Seq::<H>::empty(),
    {
        HitableList { list: Vec::new() }
    }

    /// This collection with one more member at its end.
    pub fn with_hitable(self, hitable: H) -> (l: Self)
        ensures
            l@ == self@.push(hitable),
    {
        let mut l = self;
        l.list.push(hitable);
        l
    }

    /// Appends one member.
    pub fn add_hitable(&mut self, hitable: H)
        ensures
            final(self)@ == old(self)@.push(hitable),
    {
        self.list.push(hitable)
    }

    /// How many members there are.
    pub fn len(&self) -> (n: usize)
        ensures
            n == self@.len(),
    {
        self.list.len()
    }

    /// The member at a position.
    pub fn get(&self, i: usize) -> (h: &H)
        requires
            i < self@.len(),
        ensures
            *h == self@[i as int],
    {
        &self.list[i]
    }
}

impl<H: Hitable> Hitable for HitableList<H> {
    type Material = H::Material;

    /// The closest-hit sweep: every member is asked in turn for a hit nearer
    /// than the nearest found so far, and the last hit found is returned.
    fn hit(&self, r: &Ray3, t_min: Scalar, t_max: Scalar) -> (rec: Option<HitRecord<H::Material>>)
        ensures
            exists|outcomes: Seq<Option<HitRecord<H::Material>>>|
                #[trigger] is_sweep(self@, *r, t_min, t_max, outcomes) && rec == last_hit(outcomes),
    {
        let mut closest = t_max;
        let mut rec: Option<HitRecord<H::Material>> = None;
        let ghost mut outcomes: Seq<Option<HitRecord<H::Material>>> = Seq::empty();
        let mut i: usize = 0;
        while i < self.list.len()
            invariant
                i <= self.list.len(),
                outcomes.len() == i,
                rec == last_hit(outcomes),
                closest == closest_so_far(outcomes, t_max),
                rec matches Some(h) ==> within(h.t, t_min, t_max),
                forall|j: int|
                    0 <= j < i ==> #[trigger] is_sweep_step(self.list@, *r, t_min, t_max, outcomes, j),
            decreases self.list.len() - i,
        {
            let temp = self.list[i].hit(r, t_min, closest);
            proof {
                let next = outcomes.push(temp);
                assert(next.drop_last() == outcomes);
                assert(next.take(i as int) == outcomes);
                assert forall|j: int| 0 <= j < i + 1 implies #[trigger] is_sweep_step(
                    self.list@,
                    *r,
                    t_min,
                    t_max,
                    next,
                    j,
                ) by {
                    if j < i {
                        assert(is_sweep_step(self.list@, *r, t_min, t_max, outcomes, j));
                        assert(next.take(j) == outcomes.take(j));
                    }
                }
                outcomes = next;
            }
            if let Some(h) = temp {
                closest = h.t;
                rec = Some(h);
            }
            i += 1;
        }
        proof {
            assert(is_sweep(self@, *r, t_min, t_max, outcomes));
        }
        rec
    }

    /// The union of the members' boxes. Every member is asked; the answer is
    /// nothing where there is no member or where one of them has no box.
    fn bounding_box(&self, t0: Instant, t1: Instant) -> (b: Option<AABB>)
        ensures
            exists|boxes: Seq<Option<AABB>>|
                #[trigger] is_survey(self@, t0, t1, boxes) && b == union_of(boxes),
    {
        let mut acc: Option<AABB> = None;
        let ghost mut boxes: Seq<Option<AABB>> = Seq::empty();
        let mut i: usize = 0;
        while i < self.list.len()
            invariant
                i <= self.list.len(),
                boxes.len() == i,
                acc == union_of(boxes),
                forall|j: int|
                    0 <= j < i ==> reports(self.list@[j], t0, t1, #[trigger] boxes[j]),
            decreases self.list.len() - i,
        {
            let next = self.list[i].bounding_box(t0, t1);
            proof {
                let grown = boxes.push(next);
                assert(grown.drop_last() == boxes);
                boxes = grown;
            }
            acc = if i == 0 {
                next
            } else {
                match (acc, next) {
                    (Some(a), Some(n)) => Some(a.surrounding_box(&n)),
                    _ => None,
                }
            };
            i += 1;
        }
        proof {
            assert(is_survey(self@, t0, t1, boxes));
        }
        acc
    }
}

/// Every hit in a sweep lies within the interval that was asked for and is
/// no farther than any hit before it.
pub proof fn lemma_sweep_descends<H: Hitable>(
    members: Seq<H>,
    r: Ray3,
    t_min: Scalar,
    t_max: Scalar,
    outcomes: Seq<Option<HitRecord<H::Material>>>,
    n: int,
)
    requires
        is_sweep(members, r, t_min, t_max, outcomes),
        0 <= n <= outcomes.len(),
    ensures
        closest_so_far(outcomes.take(n), t_max)@ <= t_max@,
        last_hit(outcomes.take(n)) matches Some(h) ==> within(h.t, t_min, t_max),
        forall|i: int|
            0 <= i < n ==> (#[trigger] outcomes[i] matches Some(g) ==> closest_so_far(
                outcomes.take(n),
                t_max,
            )@ <= g.t@),
    decreases n,
{
    if n > 0 {
        lemma_sweep_descends(members, r, t_min, t_max, outcomes, n - 1);
        let before = outcomes.take(n - 1);
        let now = outcomes.take(n);
        assert(now.drop_last() == before);
        assert(now.last() == outcomes[n - 1]);
        assert(is_sweep_step(members, r, t_min, t_max, outcomes, n - 1));
    }
}

/// A sweep that found nothing among its first `n` answers got nothing from
/// each of them.
pub proof fn lemma_sweep_empty<M>(outcomes: Seq<Option<HitRecord<M>>>, n: int, i: int)
    requires
        0 <= i < n <= outcomes.len(),
        last_hit(outcomes.take(n)) is None,
    ensures
        outcomes[i] is None,
        last_hit(outcomes.take(i)) is None,
    decreases n,
{
    let now = outcomes.take(n);
    assert(now.drop_last() == outcomes.take(n - 1));
    assert(now.last() == outcomes[n - 1]);
    if i < n - 1 {
        lemma_sweep_empty(outcomes, n - 1, i);
    }
}

/// What the closest-hit sweep returns: a hit within the interval asked for
/// and no farther than any hit that a member answered; or nothing, and then
/// every member, asked about the whole interval, answered nothing.
pub proof fn lemma_sweep_nearest<H: Hitable>(
    members: Seq<H>,
    r: Ray3,
    t_min: Scalar,
    t_max: Scalar,
    outcomes: Seq<Option<HitRecord<H::Material>>>,
)
    requires
        is_sweep(members, r, t_min, t_max, outcomes),
    ensures
        last_hit(outcomes) matches Some(h) ==> within(h.t, t_min, t_max) && forall|i: int|
            0 <= i < outcomes.len() ==> (#[trigger] outcomes[i] matches Some(g) ==> h.t@ <= g.t@),
        last_hit(outcomes) is None ==> forall|i: int|
            0 <= i < members.len() ==> #[trigger] answers(members[i], r, t_min, t_max, None),
{
    let n = outcomes.len() as int;
    assert(outcomes.take(n) == outcomes);
    lemma_sweep_descends(members, r, t_min, t_max, outcomes, n);
    if last_hit(outcomes) is None {
        assert forall|i: int| 0 <= i < members.len() implies #[trigger] answers(
            members[i],
            r,
            t_min,
            t_max,
            None,
        ) by {
            lemma_sweep_empty(outcomes, n, i);
            assert(is_sweep_step(members, r, t_min, t_max, outcomes, i));
        }
    }
}

/// The union of the members' boxes, where there is one, encloses the box of
/// every member.
pub proof fn lemma_union_encloses(boxes: Seq<Option<AABB>>, i: int)
    requires
        0 <= i < boxes.len(),
        union_of(boxes) is Some,
    ensures
        boxes[i] matches Some(b) && union_of(boxes)->0.encloses(b),
    decreases boxes.len(),
{
    if boxes.len() > 1 {
        let rest = boxes.drop_last();
        if i < boxes.len() - 1 {
            lemma_union_encloses(rest, i);
        }
    }
}

/// The union of the members' boxes is missing exactly where there is no
/// member or where the box of one member is missing.
pub proof fn lemma_union_missing(boxes: Seq<Option<AABB>>)
    ensures
        union_of(boxes) is None <==> boxes.len() == 0 || exists|i: int|
            0 <= i < boxes.len() && #[trigger] boxes[i] is None,
    decreases boxes.len(),
{
    if boxes.len() > 1 {
        let rest = boxes.drop_last();
        lemma_union_missing(rest);
        if union_of(rest) is None {
            let i = choose|i: int| 0 <= i < rest.len() && #[trigger] rest[i] is None;
            assert(boxes[i] is None);
        } else if boxes.last() is None {
            assert(boxes[boxes.len() - 1] is None);
        } else {
            assert forall|i: int| 0 <= i < boxes.len() implies #[trigger] boxes[i] is Some by {
                if i < rest.len() {
                    assert(rest[i] is Some);
                }
            }
        }
    } else if boxes.len() == 1 {
        if boxes[0] is None {
            assert(boxes[0] is None);
        }
    }
}

} // verus!
