//! The bounding volume hierarchy: a binary tree over a list of things to hit,
//! each node with a box around all that is below it.
use vstd::prelude::*;
use std::sync::Arc;
use std::time::Instant;
use rand::StdRng;
use crate::aabb::{AABB, Slab};
use crate::hitable::{answers, reports, within, HitRecord, Hitable};
use crate::randomutil::{ranged, ThreadSeedableRng};
use crate::ray::Ray3;
use crate::scalar::Scalar;

verus! {

/// Why no tree could be built.
#[derive(Clone, Copy, Debug, PartialEq, Eq, Structural)]
pub enum BvhError {
    /// The list was empty.
    EmptyList,
    /// A member of the list reported no bounding box.
    NoBoundingBox,
}

/// What hangs below a node: one member of the list, or another node.
pub enum BvhChild<H> {
    /// The member at position `id` of the list that the tree was built from.
    Leaf { id: usize, shape: Arc<H> },
    Node(Box<BVHNode<H>>),
}

/// A node of the hierarchy: two children and a box around both.
pub struct BVHNode<H> {
    pub left: BvhChild<H>,
    pub right: BvhChild<H>,
    pub bounding_box: AABB,
}

/// `std`'s `Arc::clone`: another pointer to the same value.
#[verifier::external_body]
fn share<H>(a: &Arc<H>) -> (r: Arc<H>)
    ensures
        r == *a,
{
    Arc::clone(a)
}

/// The number by which the member `id` is ordered on an axis: the minimum of
/// its box there.
pub open spec fn axis_key(boxes: Seq<AABB>, id: usize, axis: int) -> int {
    boxes[id as int].min.spec_axis(axis)@
}

/// Whether the members named by `s` stand in ascending order on an axis.
pub open spec fn sorted_on_axis(s: Seq<usize>, boxes: Seq<AABB>, axis: int) -> bool {
    forall|i: int, j: int|
        0 <= i <= j < s.len() ==> axis_key(boxes, s[i], axis) <= axis_key(boxes, s[j], axis)
}

/// Whether `s` names the same members as `ids`, each as often, in ascending
/// order on an axis.
pub open spec fn arranged(s: Seq<usize>, ids: Seq<usize>, boxes: Seq<AABB>, axis: int) -> bool {
    &&& s.to_multiset() == ids.to_multiset()
    &&& sorted_on_axis(s, boxes, axis)
}

/// The positions `0, 1, .., n - 1`.
pub open spec fn positions(n: nat) -> Seq<usize> {
    Seq::new(n, |i: int| i as usize)
}

impl<H> BvhChild<H> {
    /// The members below this child, from left to right, by their position
    /// in the list.
    pub open spec fn leaf_ids(self) -> Seq<usize>
        decreases self,
    {
        match self {
            BvhChild::Leaf { id, .. } => seq![id],
            BvhChild::Node(n) => n.leaf_ids(),
        }
    }

    /// The box around this child: a member's own box, a node's bounding box.
    pub open spec fn bounds(self, boxes: Seq<AABB>) -> AABB {
        match self {
            BvhChild::Leaf { id, .. } => boxes[id as int],
            BvhChild::Node(n) => n.bounding_box,
        }
    }

    /// Whether every leaf below holds the member that its position names.
    pub open spec fn holds(self, items: Seq<Arc<H>>) -> bool
        decreases self,
    {
        match self {
            BvhChild::Leaf { id, shape } => id < items.len() && shape == items[id as int],
            BvhChild::Node(n) => n.holds(items),
        }
    }
}

impl<H> BVHNode<H> {
    /// The members below this node, from left to right, by their position in
    /// the list.
    pub open spec fn leaf_ids(self) -> Seq<usize>
        decreases self,
    {
        self.left.leaf_ids() + self.right.leaf_ids()
    }

    /// Whether every leaf below holds the member that its position names.
    pub open spec fn holds(self, items: Seq<Arc<H>>) -> bool
        decreases self,
    {
        self.left.holds(items) && self.right.holds(items)
    }

    /// Whether this is a tree that the construction can make of the members
    /// `ids` of `items`, whose boxes are `boxes`.
    ///
    /// For some axis the members are put in ascending order of their boxes'
    /// minimum on it. One member becomes both children; two become one child
    /// each; of more, those before the middle position go to a node on the
    /// left and those after it to a node on the right, and the one in the
    /// middle goes nowhere. The box is the union of the children's boxes.
    pub open spec fn built_from(
        self,
        items: Seq<Arc<H>>,
        boxes: Seq<AABB>,
        ids: Seq<usize>,
    ) -> bool
        decreases ids.len(),
    {
        exists|axis: int, s: Seq<usize>|
            {
                &&& 0 <= axis < 3
                &&& s.len() == ids.len()
                &&& #[trigger] arranged(s, ids, boxes, axis)
                &&& self.bounding_box == self.left.bounds(boxes).spec_surrounding_box(
                    self.right.bounds(boxes),
                )
                &&& if s.len() == 1 {
                    &&& self.left == (BvhChild::Leaf { id: s[0], shape: items[s[0] as int] })
                    &&& self.right == (BvhChild::Leaf { id: s[0], shape: items[s[0] as int] })
                } else if s.len() == 2 {
                    &&& self.left == (BvhChild::Leaf { id: s[0], shape: items[s[0] as int] })
                    &&& self.right == (BvhChild::Leaf { id: s[1], shape: items[s[1] as int] })
                } else {
                    &&& s.len() >= 3
                    &&& self.left matches BvhChild::Node(a)
                    &&& self.right matches BvhChild::Node(b)
                    &&& a.built_from(items, boxes, s.take(s.len() as int / 2))
                    &&& b.built_from(items, boxes, s.skip(s.len() as int / 2 + 1))
                }
            }
    }
}

/// The generator after a tree has been built over `n` members from the
/// generator `rng`: one draw for the axis of the root, then the draws of the
/// node on the left and after them those of the node on the right, where
/// there are more than two members.
pub open spec fn after_build(rng: StdRng, n: nat) -> StdRng
    decreases n,
{
    let drawn = ranged(rng, 0, 3).1;
    if n <= 2 {
        drawn
    } else {
        after_build(after_build(drawn, n / 2), (n - n / 2 - 1) as nat)
    }
}

impl<H> BVHNode<H> {
    /// Whether this is the tree that the construction makes of the members
    /// `ids` of `items` with the generator `rng`: a tree as [`built_from`]
    /// describes, with the axis of every node the number that the generator
    /// yields for it, the root drawing first, then the nodes on its left, then
    /// those on its right.
    ///
    /// [`built_from`]: BVHNode::built_from
    pub open spec fn built_with(
        self,
        items: Seq<Arc<H>>,
        boxes: Seq<AABB>,
        ids: Seq<usize>,
        rng: StdRng,
    ) -> bool
        decreases ids.len(),
    {
        exists|s: Seq<usize>|
            {
                &&& ranged(rng, 0, 3).0 < 3
                &&& s.len() == ids.len()
                &&& #[trigger] arranged(s, ids, boxes, ranged(rng, 0, 3).0 as int)
                &&& self.bounding_box == self.left.bounds(boxes).spec_surrounding_box(
                    self.right.bounds(boxes),
                )
                &&& if s.len() == 1 {
                    &&& self.left == (BvhChild::Leaf { id: s[0], shape: items[s[0] as int] })
                    &&& self.right == (BvhChild::Leaf { id: s[0], shape: items[s[0] as int] })
                } else if s.len() == 2 {
                    &&& self.left == (BvhChild::Leaf { id: s[0], shape: items[s[0] as int] })
                    &&& self.right == (BvhChild::Leaf { id: s[1], shape: items[s[1] as int] })
                } else {
                    &&& s.len() >= 3
                    &&& self.left matches BvhChild::Node(a)
                    &&& self.right matches BvhChild::Node(b)
                    &&& a.built_with(items, boxes, s.take(s.len() as int / 2), ranged(rng, 0, 3).1)
                    &&& b.built_with(
                        items,
                        boxes,
                        s.skip(s.len() as int / 2 + 1),
                        after_build(ranged(rng, 0, 3).1, s.len() / 2),
                    )
                }
            }
    }
}

/// A tree built with a generator is a tree built from its members: all that
/// holds of the one holds of the other.
pub proof fn lemma_built_with_is_built_from<H>(
    node: BVHNode<H>,
    items: Seq<Arc<H>>,
    boxes: Seq<AABB>,
    ids: Seq<usize>,
    rng: StdRng,
)
    requires
        node.built_with(items, boxes, ids, rng),
    ensures
        node.built_from(items, boxes, ids),
    decreases ids.len(),
{
    let axis = ranged(rng, 0, 3).0 as int;
    let s = choose|s: Seq<usize>|
        {
            &&& ranged(rng, 0, 3).0 < 3
            &&& s.len() == ids.len()
            &&& #[trigger] arranged(s, ids, boxes, ranged(rng, 0, 3).0 as int)
            &&& node.bounding_box == node.left.bounds(boxes).spec_surrounding_box(
                node.right.bounds(boxes),
            )
            &&& if s.len() == 1 {
                &&& node.left == (BvhChild::Leaf { id: s[0], shape: items[s[0] as int] })
                &&& node.right == (BvhChild::Leaf { id: s[0], shape: items[s[0] as int] })
            } else if s.len() == 2 {
                &&& node.left == (BvhChild::Leaf { id: s[0], shape: items[s[0] as int] })
                &&& node.right == (BvhChild::Leaf { id: s[1], shape: items[s[1] as int] })
            } else {
                &&& s.len() >= 3
                &&& node.left matches BvhChild::Node(a)
                &&& node.right matches BvhChild::Node(b)
                &&& a.built_with(items, boxes, s.take(s.len() as int / 2), ranged(rng, 0, 3).1)
                &&& b.built_with(
                    items,
                    boxes,
                    s.skip(s.len() as int / 2 + 1),
                    after_build(ranged(rng, 0, 3).1, s.len() / 2),
                )
            }
        };
    if s.len() >= 3 {
        let a = node.left->Node_0;
        let b = node.right->Node_0;
        lemma_built_with_is_built_from(
            *a,
            items,
            boxes,
            s.take(s.len() as int / 2),
            ranged(rng, 0, 3).1,
        );
        lemma_built_with_is_built_from(
            *b,
            items,
            boxes,
            s.skip(s.len() as int / 2 + 1),
            after_build(ranged(rng, 0, 3).1, s.len() / 2),
        );
    }
    assert(arranged(s, ids, boxes, axis));
}

/// Whether the first box comes before the second on an axis: whether its
/// minimum there is the smaller.
pub fn box_axis_compare(axis: usize, a: &AABB, b: &AABB) -> (less: bool)
    requires
        axis < 3,
    ensures
        less == (a.min.spec_axis(axis as int)@ < b.min.spec_axis(axis as int)@),
{
    a.min.axis(axis).lt(&b.min.axis(axis))
}

/// The members `ids` in ascending order on an axis.
pub fn sort_on_axis(ids: &Vec<usize>, boxes: &Vec<AABB>, axis: usize) -> (s: Vec<usize>)
    requires
        axis < 3,
        forall|i: int| 0 <= i < ids.len() ==> ids[i] < boxes.len(),
    ensures
        s.len() == ids.len(),
        arranged(s@, ids@, boxes@, axis as int),
        forall|i: int| 0 <= i < s.len() ==> s[i] < boxes.len(),
{
    let mut out: Vec<usize> = Vec::new();
    let mut i: usize = 0;
    proof {
        assert(ids@.take(0) == out@);
    }
    while i < ids.len()
        invariant
            axis < 3,
            i <= ids.len(),
            out.len() == i,
            forall|k: int| 0 <= k < ids.len() ==> ids[k] < boxes.len(),
            forall|k: int| 0 <= k < out.len() ==> out[k] < boxes.len(),
            out@.to_multiset() == ids@.take(i as int).to_multiset(),
            sorted_on_axis(out@, boxes@, axis as int),
        decreases ids.len() - i,
    {
        let x = ids[i];
        let mut pos: usize = out.len();
        while pos > 0 && box_axis_compare(axis, &boxes[x], &boxes[out[pos - 1]])
            invariant
                axis < 3,
                pos <= out.len(),
                x < boxes.len(),
                forall|k: int| 0 <= k < out.len() ==> out[k] < boxes.len(),
                forall|k: int|
                    pos <= k < out.len() ==> axis_key(boxes@, x, axis as int) < axis_key(
                        boxes@,
                        #[trigger] out[k],
                        axis as int,
                    ),
            decreases pos,
        {
            pos -= 1;
        }
        proof {
            let before = out@;
            let after = before.insert(pos as int, x);
            before.insert_ensures(pos as int, x);
            vstd::seq_lib::to_multiset_insert(before, pos as int, x);
            assert(ids@.take(i + 1) == ids@.take(i as int).push(x));
            vstd::seq_lib::to_multiset_build(ids@.take(i as int), x);
            assert forall|a: int, b: int| 0 <= a <= b < after.len() implies axis_key(
                boxes@,
                after[a],
                axis as int,
            ) <= axis_key(boxes@, after[b], axis as int) by {
                if a < pos && b == pos {
                    assert(after[a] == before[a]);
                    if pos > 0 {
                        assert(axis_key(boxes@, before[pos - 1], axis as int) <= axis_key(
                            boxes@,
                            x,
                            axis as int,
                        ));
                    }
                } else if a < pos && b > pos {
                    assert(after[a] == before[a]);
                    assert(after[b] == before[b - 1]);
                } else if a == pos && b > pos {
                    assert(after[b] == before[b - 1]);
                } else if a > pos {
                    assert(after[a] == before[a - 1]);
                    assert(after[b] == before[b - 1]);
                } else if b < pos {
                    assert(after[a] == before[a]);
                    assert(after[b] == before[b]);
                }
            }
            assert forall|k: int| 0 <= k < after.len() implies after[k] < boxes.len() by {
                if k < pos {
                    assert(after[k] == before[k]);
                } else if k > pos {
                    assert(after[k] == before[k - 1]);
                }
            }
        }
        out.insert(pos, x);
        i += 1;
    }
    proof {
        assert(ids@.take(ids.len() as int) == ids@);
    }
    out
}

/// The part of a list of positions from `from` up to, not including, `to`.
fn part(s: &Vec<usize>, from: usize, to: usize) -> (r: Vec<usize>)
    requires
        from <= to <= s.len(),
    ensures
        r@ == s@.subrange(from as int, to as int),
{
    let mut r: Vec<usize> = Vec::new();
    let mut i: usize = from;
    while i < to
        invariant
            from <= i <= to <= s.len(),
            r@ == s@.subrange(from as int, i as int),
        decreases to - i,
    {
        r.push(s[i]);
        proof {
            assert(s@.subrange(from as int, i + 1) == s@.subrange(from as int, i as int).push(
                s[i as int],
            ));
        }
        i += 1;
    }
    r
}

impl<H> BvhChild<H> {
    /// The box around this child.
    fn bounds_in(&self, boxes: &Vec<AABB>) -> (b: AABB)
        requires
            self matches BvhChild::Leaf { id, .. } ==> id < boxes.len(),
        ensures
            b == self.bounds(boxes@),
    {
        match self {
            BvhChild::Leaf { id, .. } => boxes[*id],
            BvhChild::Node(n) => n.bounding_box,
        }
    }
}

impl<H: Hitable> BVHNode<H> {
    /// Builds the tree over the members `ids` of `items`, whose boxes are
    /// `boxes`. The axis on which a node's members are ordered is drawn from
    /// `rng`, once for each node.
    pub fn build(
        items: &Vec<Arc<H>>,
        boxes: &Vec<AABB>,
        ids: Vec<usize>,
        rng: &mut ThreadSeedableRng,
    ) -> (node: Self)
        requires
            items.len() == boxes.len(),
            ids.len() > 0,
            forall|i: int| 0 <= i < ids.len() ==> ids[i] < items.len(),
        ensures
            node.built_with(items@, boxes@, ids@, old(rng).generator()),
            node.built_from(items@, boxes@, ids@),
            final(rng).generator() == after_build(old(rng).generator(), ids@.len()),
            final(rng).seed() == old(rng).seed(),
        decreases ids.len(),
    {
        let ghost before_all = rng.generator();
        let axis = rng.gen_range(0, 3);
        let s = sort_on_axis(&ids, boxes, axis);
        let n = s.len();
        let (left, right) = if n == 1 {
            (
                BvhChild::Leaf { id: s[0], shape: share(&items[s[0]]) },
                BvhChild::Leaf { id: s[0], shape: share(&items[s[0]]) },
            )
        } else if n == 2 {
            (
                BvhChild::Leaf { id: s[0], shape: share(&items[s[0]]) },
                BvhChild::Leaf { id: s[1], shape: share(&items[s[1]]) },
            )
        } else {
            let before = part(&s, 0, n / 2);
            let after = part(&s, n / 2 + 1, n);
            proof {
                assert(before@ == s@.take(n as int / 2));
                assert(after@ == s@.skip(n as int / 2 + 1));
            }
            let a = Self::build(items, boxes, before, rng);
            let b = Self::build(items, boxes, after, rng);
            (BvhChild::Node(Box::new(a)), BvhChild::Node(Box::new(b)))
        };
        let bounding_box = left.bounds_in(boxes).surrounding_box(&right.bounds_in(boxes));
        let node = BVHNode { left, right, bounding_box };
        proof {
            assert(arranged(s@, ids@, boxes@, ranged(before_all, 0, 3).0 as int));
            assert(node.built_with(items@, boxes@, ids@, before_all));
            lemma_built_with_is_built_from(node, items@, boxes@, ids@, before_all);
        }
        node
    }
}

/// Whether `survey` holds one report of its bounding box from each member,
/// in order.
pub open spec fn is_shared_survey<H: Hitable>(
    items: Seq<Arc<H>>,
    t0: Instant,
    t1: Instant,
    survey: Seq<Option<AABB>>,
) -> bool {
    &&& survey.len() == items.len()
    &&& forall|i: int| 0 <= i < items.len() ==> reports(*items[i], t0, t1, #[trigger] survey[i])
}

/// The boxes of a survey in which none is missing.
pub open spec fn surveyed(survey: Seq<Option<AABB>>) -> Seq<AABB> {
    Seq::new(survey.len(), |i: int| survey[i].unwrap())
}

/// Whether no report of a survey is missing.
pub open spec fn complete(survey: Seq<Option<AABB>>) -> bool {
    forall|i: int| 0 <= i < survey.len() ==> #[trigger] survey[i] is Some
}

impl<H: Hitable> BVHNode<H> {
    /// Builds the tree over all of `items`, whose boxes are `boxes`.
    pub fn with_boxes(items: &Vec<Arc<H>>, boxes: &Vec<AABB>, rng: &mut ThreadSeedableRng) -> (r:
        Result<Self, BvhError>)
        requires
            items.len() == boxes.len(),
        ensures
            items.len() == 0 ==> r == Err::<Self, BvhError>(BvhError::EmptyList),
            items.len() > 0 ==> (r matches Ok(node) && node.built_with(
                items@,
                boxes@,
                positions(items@.len()),
                old(rng).generator(),
            ) && node.built_from(items@, boxes@, positions(items@.len()))),
            items.len() == 0 ==> *final(rng) == *old(rng),
            items.len() > 0 ==> final(rng).generator() == after_build(
                old(rng).generator(),
                items@.len(),
            ),
            final(rng).seed() == old(rng).seed(),
    {
        let n = items.len();
        if n == 0 {
            return Err(BvhError::EmptyList);
        }
        let mut ids: Vec<usize> = Vec::new();
        let mut i: usize = 0;
        while i < n
            invariant
                i <= n,
                ids@ == positions(i as nat),
            decreases n - i,
        {
            ids.push(i);
            proof {
                assert(positions(i as nat).push(i) == positions((i + 1) as nat));
            }
            i += 1;
        }
        Ok(Self::build(items, boxes, ids, rng))
    }

    /// Builds the tree over a list of things to hit.
    ///
    /// Every member is asked for its bounding box between `t0` and `t1`. An
    /// empty list or a member without a box is an error; otherwise the tree is
    /// built over all members with the boxes they reported.
    pub fn new(l: Vec<Arc<H>>, t0: Instant, t1: Instant, rng: &mut ThreadSeedableRng) -> (r: Result<
        Self,
        BvhError,
    >)
        ensures
            l.len() == 0 ==> r == Err::<Self, BvhError>(BvhError::EmptyList),
            l.len() > 0 ==> exists|survey: Seq<Option<AABB>>|
                {
                    &&& #[trigger] is_shared_survey(l@, t0, t1, survey)
                    &&& match r {
                        Ok(node) => complete(survey) && node.built_with(
                            l@,
                            surveyed(survey),
                            positions(l@.len()),
                            old(rng).generator(),
                        ) && node.built_from(l@, surveyed(survey), positions(l@.len())),
                        Err(e) => e == BvhError::NoBoundingBox && !complete(survey),
                    }
                },
            r is Err ==> *final(rng) == *old(rng),
            r is Ok ==> final(rng).generator() == after_build(old(rng).generator(), l@.len()),
            final(rng).seed() == old(rng).seed(),
    {
        if l.len() == 0 {
            return Err(BvhError::EmptyList);
        }
        let mut boxes: Vec<AABB> = Vec::new();
        let mut missing = false;
        let ghost mut survey: Seq<Option<AABB>> = Seq::empty();
        let mut i: usize = 0;
        while i < l.len()
            invariant
                i <= l.len(),
                survey.len() == i,
                forall|j: int| 0 <= j < i ==> reports(*l@[j], t0, t1, #[trigger] survey[j]),
                missing == !complete(survey),
                !missing ==> boxes@ == surveyed(survey),
            decreases l.len() - i,
        {
            let b = l[i].bounding_box(t0, t1);
            proof {
                let grown = survey.push(b);
                if complete(survey) && b is Some {
                    assert forall|j: int| 0 <= j < grown.len() implies #[trigger] grown[j] is Some by {
                        if j < survey.len() {
                            assert(survey[j] is Some);
                        }
                    }
                    assert(surveyed(grown) == surveyed(survey).push(b.unwrap()));
                } else if b is None {
                    assert(grown[i as int] is None);
                } else {
                    let j = choose|j: int| 0 <= j < survey.len() && !(#[trigger] survey[j] is Some);
                    assert(grown[j] is None);
                }
                survey = grown;
            }
            match b {
                Some(b) => {
                    if !missing {
                        boxes.push(b);
                    }
                },
                None => {
                    missing = true;
                },
            }
            i += 1;
        }
        proof {
            assert(is_shared_survey(l@, t0, t1, survey));
        }
        if missing {
            Err(BvhError::NoBoundingBox)
        } else {
            Self::with_boxes(&l, &boxes, rng)
        }
    }

    /// Whether `rec` is something that the search below this node may return
    /// for a ray: nothing where the ray fails the slab test of the node's box,
    /// else the nearer of what the two children return, a member by its own
    /// answer and a node by its search.
    pub open spec fn finds<F>(
        self,
        r: Ray3,
        t_min: Scalar,
        t_max: Scalar,
        slab: F,
        rec: Option<HitRecord<H::Material>>,
    ) -> bool where F: Fn(Scalar, Scalar, Scalar, Scalar) -> Slab
        decreases self,
    {
        exists|inside: bool|
            {
                &&& #[trigger] self.bounding_box.slab_test(r, t_min, t_max, slab, inside)
                &&& if inside {
                    exists|left: Option<HitRecord<H::Material>>, right: Option<HitRecord<H::Material>>|
                        {
                            &&& rec == #[trigger] HitRecord::spec_nearer(left, right)
                            &&& match self.left {
                                BvhChild::Leaf { shape, .. } => answers(*shape, r, t_min, t_max, left),
                                BvhChild::Node(n) => n.finds(r, t_min, t_max, slab, left),
                            }
                            &&& match self.right {
                                BvhChild::Leaf { shape, .. } => answers(*shape, r, t_min, t_max, right),
                                BvhChild::Node(n) => n.finds(r, t_min, t_max, slab, right),
                            }
                        }
                } else {
                    rec is None
                }
            }
    }

    /// The nearest hit of a ray below this node, at a parameter strictly
    /// between `t_min` and `t_max`.
    ///
    /// The ray is first tested against the node's box, with `slab` doing the
    /// arithmetic of one axis (see [`AABB::hit`]). Where it misses the box
    /// nothing below is asked. Otherwise both children are asked, and the
    /// nearer of their answers is returned.
    pub fn hit<F>(&self, r: &Ray3, t_min: Scalar, t_max: Scalar, slab: &F) -> (rec: Option<
        HitRecord<H::Material>,
    >) where F: Fn(Scalar, Scalar, Scalar, Scalar) -> Slab
        requires
            forall|lo: Scalar, hi: Scalar, o: Scalar, d: Scalar| call_requires(*slab, (lo, hi, o, d)),
        ensures
            self.finds(*r, t_min, t_max, *slab, rec),
            rec matches Some(h) ==> within(h.t, t_min, t_max),
        decreases self,
    {
        let inside = self.bounding_box.hit(r, t_min, t_max, slab);
        if inside {
            let hit_left = match &self.left {
                BvhChild::Leaf { shape, .. } => shape.hit(r, t_min, t_max),
                BvhChild::Node(n) => n.hit(r, t_min, t_max, slab),
            };
            let hit_right = match &self.right {
                BvhChild::Leaf { shape, .. } => shape.hit(r, t_min, t_max),
                BvhChild::Node(n) => n.hit(r, t_min, t_max, slab),
            };
            let rec = HitRecord::nearer(hit_left, hit_right);
            proof {
                assert(rec == HitRecord::spec_nearer(hit_left, hit_right));
                assert(self.bounding_box.slab_test(*r, t_min, t_max, *slab, inside));
            }
            rec
        } else {
            proof {
                assert(self.bounding_box.slab_test(*r, t_min, t_max, *slab, inside));
            }
            None
        }
    }

    /// The box around everything below this node.
    pub fn bounding_box(&self, t0: Instant, t1: Instant) -> (b: Option<AABB>)
        ensures
            b == Some(self.bounding_box),
    {
        Some(self.bounding_box)
    }
}


impl<H> BVHNode<H> {
    /// The members below this node, from left to right, by their position in
    /// the list that the tree was built from.
    pub fn leaves(&self) -> (ids: Vec<usize>)
        ensures
            ids@ == self.leaf_ids(),
        decreases self,
    {
        let mut ids: Vec<usize> = Vec::new();
        match &self.left {
            BvhChild::Leaf { id, .. } => {
                ids.push(*id);
            },
            BvhChild::Node(n) => {
                let mut below = n.leaves();
                ids.append(&mut below);
            },
        }
        assert(ids@ == self.left.leaf_ids());
        match &self.right {
            BvhChild::Leaf { id, .. } => {
                ids.push(*id);
                assert(ids@ == self.left.leaf_ids() + seq![*id]);
            },
            BvhChild::Node(n) => {
                let mut below = n.leaves();
                ids.append(&mut below);
            },
        }
        ids
    }
}

/// Two lists that hold the same members, each as often, have the same members.
proof fn lemma_same_members(s: Seq<usize>, ids: Seq<usize>)
    requires
        s.to_multiset() == ids.to_multiset(),
    ensures
        forall|x: usize| #[trigger] s.contains(x) <==> ids.contains(x),
        forall|x: usize| s.contains(x) <==> #[trigger] ids.contains(x),
        s.len() == ids.len(),
        ids.no_duplicates() ==> s.no_duplicates(),
{
    broadcast use vstd::seq_lib::to_multiset_contains;

    vstd::seq_lib::to_multiset_len(s);
    vstd::seq_lib::to_multiset_len(ids);
    assert forall|x: usize| s.contains(x) <==> ids.contains(x) by {
        assert(s.contains(x) <==> s.to_multiset().count(x) > 0);
        assert(ids.contains(x) <==> ids.to_multiset().count(x) > 0);
    }
    assert forall|x: usize| #[trigger] s.contains(x) <==> ids.contains(x) by {
        assert(s.contains(x) <==> ids.contains(x));
    }
    if ids.no_duplicates() {
        ids.lemma_multiset_has_no_duplicates();
        s.lemma_multiset_has_no_duplicates_conv();
    }
}

/// The axis and the order by which a built tree was split at its root.
pub proof fn arrangement<H>(node: BVHNode<H>, items: Seq<Arc<H>>, boxes: Seq<AABB>, ids: Seq<usize>) -> (w:
    (int, Seq<usize>))
    requires
        node.built_from(items, boxes, ids),
    ensures
        0 <= w.0 < 3,
        w.1.len() == ids.len(),
        arranged(w.1, ids, boxes, w.0),
        node.bounding_box == node.left.bounds(boxes).spec_surrounding_box(node.right.bounds(boxes)),
        w.1.len() == 1 ==> node.left == (BvhChild::Leaf { id: w.1[0], shape: items[w.1[0] as int] })
            && node.right == (BvhChild::Leaf { id: w.1[0], shape: items[w.1[0] as int] }),
        w.1.len() == 2 ==> node.left == (BvhChild::Leaf { id: w.1[0], shape: items[w.1[0] as int] })
            && node.right == (BvhChild::Leaf { id: w.1[1], shape: items[w.1[1] as int] }),
        w.1.len() != 1 && w.1.len() != 2 ==> {
            &&& w.1.len() >= 3
            &&& node.left matches BvhChild::Node(a)
            &&& node.right matches BvhChild::Node(b)
            &&& a.built_from(items, boxes, w.1.take(w.1.len() as int / 2))
            &&& b.built_from(items, boxes, w.1.skip(w.1.len() as int / 2 + 1))
        },
        forall|x: usize| #[trigger] w.1.contains(x) <==> ids.contains(x),
        forall|x: usize| w.1.contains(x) <==> #[trigger] ids.contains(x),
        ids.no_duplicates() ==> w.1.no_duplicates(),
{
    let (axis, s) = choose|axis: int, s: Seq<usize>|
        {
            &&& 0 <= axis < 3
            &&& s.len() == ids.len()
            &&& #[trigger] arranged(s, ids, boxes, axis)
            &&& node.bounding_box == node.left.bounds(boxes).spec_surrounding_box(
                node.right.bounds(boxes),
            )
            &&& if s.len() == 1 {
                &&& node.left == (BvhChild::Leaf { id: s[0], shape: items[s[0] as int] })
                &&& node.right == (BvhChild::Leaf { id: s[0], shape: items[s[0] as int] })
            } else if s.len() == 2 {
                &&& node.left == (BvhChild::Leaf { id: s[0], shape: items[s[0] as int] })
                &&& node.right == (BvhChild::Leaf { id: s[1], shape: items[s[1] as int] })
            } else {
                &&& s.len() >= 3
                &&& node.left matches BvhChild::Node(a)
                &&& node.right matches BvhChild::Node(b)
                &&& a.built_from(items, boxes, s.take(s.len() as int / 2))
                &&& b.built_from(items, boxes, s.skip(s.len() as int / 2 + 1))
            }
        };
    lemma_same_members(s, ids);
    (axis, s)
}

/// Every leaf of a built tree holds the member that its position names.
pub proof fn lemma_leaves_hold_members<H>(
    node: BVHNode<H>,
    items: Seq<Arc<H>>,
    boxes: Seq<AABB>,
    ids: Seq<usize>,
)
    requires
        node.built_from(items, boxes, ids),
        forall|i: int| 0 <= i < ids.len() ==> ids[i] < items.len(),
    ensures
        node.holds(items),
    decreases ids.len(),
{
    let (axis, s) = arrangement(node, items, boxes, ids);
    assert forall|i: int| 0 <= i < s.len() implies s[i] < items.len() by {
        assert(s.contains(s[i]));
        assert(ids.contains(s[i]));
    }
    if s.len() >= 3 {
        let a = node.left->Node_0;
        let b = node.right->Node_0;
        lemma_leaves_hold_members(*a, items, boxes, s.take(s.len() as int / 2));
        lemma_leaves_hold_members(*b, items, boxes, s.skip(s.len() as int / 2 + 1));
    }
}

/// Every leaf of a built tree is one of the members it was built from.
pub proof fn lemma_leaves_are_members<H>(
    node: BVHNode<H>,
    items: Seq<Arc<H>>,
    boxes: Seq<AABB>,
    ids: Seq<usize>,
)
    requires
        node.built_from(items, boxes, ids),
    ensures
        forall|x: usize| #[trigger] node.leaf_ids().contains(x) ==> ids.contains(x),
        node.leaf_ids().len() >= 2,
    decreases ids.len(),
{
    let (axis, s) = arrangement(node, items, boxes, ids);
    let mid = s.len() as int / 2;
    if s.len() >= 3 {
        let a = node.left->Node_0;
        let b = node.right->Node_0;
        lemma_leaves_are_members(*a, items, boxes, s.take(mid));
        lemma_leaves_are_members(*b, items, boxes, s.skip(mid + 1));
    }
    assert forall|x: usize| #[trigger] node.leaf_ids().contains(x) implies ids.contains(x) by {
        let k = choose|k: int| 0 <= k < node.leaf_ids().len() && node.leaf_ids()[k] == x;
        if s.len() == 1 {
            assert(s.contains(s[0]));
        } else if s.len() == 2 {
            assert(s.contains(s[0]));
            assert(s.contains(s[1]));
        } else {
            let a = node.left->Node_0;
            let b = node.right->Node_0;
            if k < a.leaf_ids().len() {
                assert(a.leaf_ids().contains(x));
                let lower = s.take(mid);
                let j = choose|j: int| 0 <= j < lower.len() && lower[j] == x;
                assert(s[j] == x);
            } else {
                assert(b.leaf_ids()[k - a.leaf_ids().len()] == x);
                assert(b.leaf_ids().contains(x));
                let upper = s.skip(mid + 1);
                let j = choose|j: int| 0 <= j < upper.len() && upper[j] == x;
                assert(s[j + mid + 1] == x);
            }
            assert(s.contains(x));
        }
    }
}

/// A tree built from one member has that member as both of its leaves.
pub proof fn lemma_one_member<H>(
    node: BVHNode<H>,
    items: Seq<Arc<H>>,
    boxes: Seq<AABB>,
    ids: Seq<usize>,
)
    requires
        node.built_from(items, boxes, ids),
        ids.len() == 1,
    ensures
        node.leaf_ids() == seq![ids[0], ids[0]],
{
    let (axis, s) = arrangement(node, items, boxes, ids);
    assert(s.contains(s[0]));
    assert(ids.contains(s[0]));
    assert(node.leaf_ids() == seq![s[0]] + seq![s[0]]);
}

/// A tree built from two members has each of them as a leaf once: its leaves
/// are the members, neither one twice nor one left out.
pub proof fn lemma_two_members<H>(
    node: BVHNode<H>,
    items: Seq<Arc<H>>,
    boxes: Seq<AABB>,
    ids: Seq<usize>,
)
    requires
        node.built_from(items, boxes, ids),
        ids.len() == 2,
    ensures
        node.leaf_ids().to_multiset() == ids.to_multiset(),
{
    let (axis, s) = arrangement(node, items, boxes, ids);
    assert(node.leaf_ids() == seq![s[0]] + seq![s[1]]);
    assert(node.leaf_ids() == s);
}

/// A tree built from three members loses the one in the middle of their
/// order: its leaves are the first twice and the last twice.
pub proof fn lemma_three_members<H>(
    node: BVHNode<H>,
    items: Seq<Arc<H>>,
    boxes: Seq<AABB>,
    ids: Seq<usize>,
)
    requires
        node.built_from(items, boxes, ids),
        ids.len() == 3,
    ensures
        exists|axis: int, s: Seq<usize>|
            0 <= axis < 3 && #[trigger] arranged(s, ids, boxes, axis) && node.leaf_ids() == seq![
                s[0],
                s[0],
                s[2],
                s[2],
            ],
{
    let (axis, s) = arrangement(node, items, boxes, ids);
    let a = node.left->Node_0;
    let b = node.right->Node_0;
    assert(s.take(1) == seq![s[0]]);
    assert(s.skip(2) == seq![s[2]]);
    lemma_one_member(*a, items, boxes, s.take(1));
    lemma_one_member(*b, items, boxes, s.skip(2));
    assert(node.leaf_ids() == seq![s[0], s[0]] + seq![s[2], s[2]]);
    assert(node.leaf_ids() == seq![s[0], s[0], s[2], s[2]]);
}

/// A tree built from three or more different members leaves one of them out.
pub proof fn lemma_middle_is_dropped<H>(
    node: BVHNode<H>,
    items: Seq<Arc<H>>,
    boxes: Seq<AABB>,
    ids: Seq<usize>,
)
    requires
        node.built_from(items, boxes, ids),
        ids.len() >= 3,
        ids.no_duplicates(),
    ensures
        exists|x: usize| #[trigger] ids.contains(x) && !node.leaf_ids().contains(x),
{
    let (axis, s) = arrangement(node, items, boxes, ids);
    let mid = s.len() as int / 2;
    let a = node.left->Node_0;
    let b = node.right->Node_0;
    let x = s[mid];
    lemma_leaves_are_members(*a, items, boxes, s.take(mid));
    lemma_leaves_are_members(*b, items, boxes, s.skip(mid + 1));
    assert(s.contains(x));
    if node.leaf_ids().contains(x) {
        let k = choose|k: int| 0 <= k < node.leaf_ids().len() && node.leaf_ids()[k] == x;
        if k < a.leaf_ids().len() {
            assert(a.leaf_ids().contains(x));
            let lower = s.take(mid);
                let j = choose|j: int| 0 <= j < lower.len() && lower[j] == x;
            assert(s[j] == s[mid]);
        } else {
            assert(b.leaf_ids()[k - a.leaf_ids().len()] == x);
            assert(b.leaf_ids().contains(x));
            let upper = s.skip(mid + 1);
                let j = choose|j: int| 0 <= j < upper.len() && upper[j] == x;
            assert(s[j + mid + 1] == s[mid]);
        }
    }
    assert(ids.contains(x));
}

/// The positions `0, 1, .., n - 1` are all different.
pub proof fn lemma_positions_distinct(n: nat)
    requires
        n <= usize::MAX,
    ensures
        positions(n).no_duplicates(),
{
    assert forall|i: int, j: int| 0 <= i < n && 0 <= j < n && i != j implies positions(n)[i]
        != positions(n)[j] by {
        assert(positions(n)[i] == i);
        assert(positions(n)[j] == j);
    }
}

/// A tree built over a whole list of three or more members leaves one of
/// them out.
pub proof fn lemma_large_tree_drops_a_member<H>(
    node: BVHNode<H>,
    items: Seq<Arc<H>>,
    boxes: Seq<AABB>,
)
    requires
        3 <= items.len() <= usize::MAX,
        node.built_from(items, boxes, positions(items.len())),
    ensures
        exists|x: usize| x < items.len() && !(#[trigger] node.leaf_ids().contains(x)),
{
    let ids = positions(items.len());
    lemma_positions_distinct(items.len());
    lemma_middle_is_dropped(node, items, boxes, ids);
    let x = choose|x: usize| #[trigger] ids.contains(x) && !node.leaf_ids().contains(x);
    let i = choose|i: int| 0 <= i < ids.len() && ids[i] == x;
    assert(ids[i] == i);
}

/// The box of a built tree encloses the box of every leaf.
pub proof fn lemma_box_encloses_leaves<H>(
    node: BVHNode<H>,
    items: Seq<Arc<H>>,
    boxes: Seq<AABB>,
    ids: Seq<usize>,
)
    requires
        node.built_from(items, boxes, ids),
    ensures
        forall|x: usize|
            node.leaf_ids().contains(x) ==> node.bounding_box.encloses(#[trigger] boxes[x as int]),
    decreases ids.len(),
{
    let (axis, s) = arrangement(node, items, boxes, ids);
    let mid = s.len() as int / 2;
    crate::aabb::lemma_surrounding_box_encloses(node.left.bounds(boxes), node.right.bounds(boxes));
    if s.len() >= 3 {
        let a = node.left->Node_0;
        let b = node.right->Node_0;
        lemma_box_encloses_leaves(*a, items, boxes, s.take(mid));
        lemma_box_encloses_leaves(*b, items, boxes, s.skip(mid + 1));
    }
    assert forall|x: usize| node.leaf_ids().contains(x) implies node.bounding_box.encloses(
        #[trigger] boxes[x as int],
    ) by {
        let k = choose|k: int| 0 <= k < node.leaf_ids().len() && node.leaf_ids()[k] == x;
        if s.len() >= 3 {
            let a = node.left->Node_0;
            let b = node.right->Node_0;
            if k < a.leaf_ids().len() {
                assert(a.leaf_ids().contains(x));
            } else {
                assert(b.leaf_ids()[k - a.leaf_ids().len()] == x);
                assert(b.leaf_ids().contains(x));
            }
        }
    }
}

} // verus!
