//! What a search of the hierarchy finds.
//!
//! The search of a tree returns the nearest hit among the tree's leaves,
//! provided the leaves answer as surfaces do and the box test lets through
//! every ray that has something to find. A tree of one or two members then
//! finds what a sweep of the list finds; a larger tree has lost members and
//! may find a hit farther away, or none.
use vstd::prelude::*;
use std::sync::Arc;
use crate::aabb::{AABB, Slab};
use crate::bvh::{arrangement, lemma_leaves_hold_members, positions, BVHNode, BvhChild};
use crate::hitable::{answers, HitRecord, Hitable};
use crate::nearest::{cut, exact, least, lemma_least_among, lemma_least_of_both, lesser, parameter};
use crate::ray::Ray3;
use crate::scalar::Scalar;

verus! {

impl<H: Hitable> BVHNode<H> {
    /// The nearest crossings of the leaves below this node, from left to
    /// right, where `nearest` gives the nearest crossing of a member.
    pub open spec fn crossings(
        self,
        nearest: spec_fn(H) -> Option<HitRecord<H::Material>>,
    ) -> Seq<Option<HitRecord<H::Material>>>
        decreases self,
    {
        (match self.left {
            BvhChild::Leaf { shape, .. } => seq![nearest(*shape)],
            BvhChild::Node(n) => n.crossings(nearest),
        }) + (match self.right {
            BvhChild::Leaf { shape, .. } => seq![nearest(*shape)],
            BvhChild::Node(n) => n.crossings(nearest),
        })
    }

    /// Whether every leaf below this node answers as a surface does whose
    /// nearest crossing with `r` beyond `t_min` is what `nearest` gives.
    pub open spec fn exact_leaves(
        self,
        r: Ray3,
        t_min: Scalar,
        nearest: spec_fn(H) -> Option<HitRecord<H::Material>>,
    ) -> bool
        decreases self,
    {
        &&& match self.left {
            BvhChild::Leaf { shape, .. } => exact(*shape, r, t_min, nearest(*shape)),
            BvhChild::Node(n) => n.exact_leaves(r, t_min, nearest),
        }
        &&& match self.right {
            BvhChild::Leaf { shape, .. } => exact(*shape, r, t_min, nearest(*shape)),
            BvhChild::Node(n) => n.exact_leaves(r, t_min, nearest),
        }
    }

    /// Whether the box test lets through every ray that has something to
    /// find: whether at this node and at every node below, the slab test
    /// passes whenever a leaf below the node has its nearest crossing below
    /// `t_max`.
    pub open spec fn lets_hits_through<F>(
        self,
        r: Ray3,
        t_min: Scalar,
        t_max: Scalar,
        slab: F,
        nearest: spec_fn(H) -> Option<HitRecord<H::Material>>,
    ) -> bool where F: Fn(Scalar, Scalar, Scalar, Scalar) -> Slab
        decreases self,
    {
        &&& forall|inside: bool| #[trigger]
            self.bounding_box.slab_test(r, t_min, t_max, slab, inside) && least(
                self.crossings(nearest),
                t_max,
            ) is Some ==> inside
        &&& match self.left {
            BvhChild::Leaf { .. } => true,
            BvhChild::Node(n) => n.lets_hits_through(r, t_min, t_max, slab, nearest),
        }
        &&& match self.right {
            BvhChild::Leaf { .. } => true,
            BvhChild::Node(n) => n.lets_hits_through(r, t_min, t_max, slab, nearest),
        }
    }
}

/// The parameter of the nearer of two answers is the lesser of their
/// parameters.
pub proof fn lemma_parameter_of_nearer<M>(left: Option<HitRecord<M>>, right: Option<HitRecord<M>>)
    ensures
        parameter(HitRecord::spec_nearer(left, right)) == lesser(parameter(left), parameter(right)),
{
}

/// The search finds the nearest hit among the leaves: where every leaf
/// answers as a surface with one nearest crossing and the box test lets
/// through every ray that has something to find, the search returns a hit at
/// the least parameter below `t_max` among the leaves' crossings, and nothing
/// where there is none.
pub proof fn lemma_search_finds_least<H: Hitable, F: Fn(Scalar, Scalar, Scalar, Scalar) -> Slab>(
    node: BVHNode<H>,
    r: Ray3,
    t_min: Scalar,
    t_max: Scalar,
    slab: F,
    nearest: spec_fn(H) -> Option<HitRecord<H::Material>>,
    rec: Option<HitRecord<H::Material>>,
)
    requires
        node.finds(r, t_min, t_max, slab, rec),
        node.exact_leaves(r, t_min, nearest),
        node.lets_hits_through(r, t_min, t_max, slab, nearest),
    ensures
        parameter(rec) == least(node.crossings(nearest), t_max),
    decreases node,
{
    let inside = choose|inside: bool|
        {
            &&& #[trigger] node.bounding_box.slab_test(r, t_min, t_max, slab, inside)
            &&& if inside {
                exists|left: Option<HitRecord<H::Material>>, right: Option<HitRecord<H::Material>>|
                    {
                        &&& rec == #[trigger] HitRecord::spec_nearer(left, right)
                        &&& match node.left {
                            BvhChild::Leaf { shape, .. } => answers(*shape, r, t_min, t_max, left),
                            BvhChild::Node(n) => n.finds(r, t_min, t_max, slab, left),
                        }
                        &&& match node.right {
                            BvhChild::Leaf { shape, .. } => answers(*shape, r, t_min, t_max, right),
                            BvhChild::Node(n) => n.finds(r, t_min, t_max, slab, right),
                        }
                    }
            } else {
                rec is None
            }
        };
    if inside {
        let (left, right) = choose|
            left: Option<HitRecord<H::Material>>,
            right: Option<HitRecord<H::Material>>,
        |
            {
                &&& rec == #[trigger] HitRecord::spec_nearer(left, right)
                &&& match node.left {
                    BvhChild::Leaf { shape, .. } => answers(*shape, r, t_min, t_max, left),
                    BvhChild::Node(n) => n.finds(r, t_min, t_max, slab, left),
                }
                &&& match node.right {
                    BvhChild::Leaf { shape, .. } => answers(*shape, r, t_min, t_max, right),
                    BvhChild::Node(n) => n.finds(r, t_min, t_max, slab, right),
                }
            };
        let left_crossings = match node.left {
            BvhChild::Leaf { shape, .. } => seq![nearest(*shape)],
            BvhChild::Node(n) => n.crossings(nearest),
        };
        let right_crossings = match node.right {
            BvhChild::Leaf { shape, .. } => seq![nearest(*shape)],
            BvhChild::Node(n) => n.crossings(nearest),
        };
        assert(parameter(left) == least(left_crossings, t_max)) by {
            match node.left {
                BvhChild::Leaf { shape, .. } => {
                    assert(left == cut(nearest(*shape), t_max));
                    lemma_least_of_one(nearest(*shape), t_max);
                },
                BvhChild::Node(n) => {
                    lemma_search_finds_least(*n, r, t_min, t_max, slab, nearest, left);
                },
            }
        }
        assert(parameter(right) == least(right_crossings, t_max)) by {
            match node.right {
                BvhChild::Leaf { shape, .. } => {
                    assert(right == cut(nearest(*shape), t_max));
                    lemma_least_of_one(nearest(*shape), t_max);
                },
                BvhChild::Node(n) => {
                    lemma_search_finds_least(*n, r, t_min, t_max, slab, nearest, right);
                },
            }
        }
        lemma_parameter_of_nearer(left, right);
        lemma_least_of_both(left_crossings, right_crossings, t_max);
        assert(node.crossings(nearest) == left_crossings + right_crossings);
    }
}

/// The least parameter of one crossing is its own, where it lies below
/// `t_max`.
pub proof fn lemma_least_of_one<M>(crossing: Option<HitRecord<M>>, t_max: Scalar)
    ensures
        least(seq![crossing], t_max) == parameter(cut(crossing, t_max)),
{
    let one = seq![crossing];
    assert(one.drop_last().len() == 0);
    assert(one.last() == crossing);
    assert(least(one.drop_last(), t_max) is None);
}

/// The nearest crossings of the members of a list, in order.
pub open spec fn crossings_of<H: Hitable>(
    items: Seq<Arc<H>>,
    nearest: spec_fn(H) -> Option<HitRecord<H::Material>>,
) -> Seq<Option<HitRecord<H::Material>>> {
    Seq::new(items.len(), |i: int| nearest(*items[i]))
}

/// The crossings of a tree's leaves are crossings of the members it holds.
pub proof fn lemma_leaf_crossings_are_members<H: Hitable>(
    node: BVHNode<H>,
    items: Seq<Arc<H>>,
    nearest: spec_fn(H) -> Option<HitRecord<H::Material>>,
)
    requires
        node.holds(items),
    ensures
        forall|c: Option<HitRecord<H::Material>>| #[trigger]
            node.crossings(nearest).contains(c) ==> crossings_of(items, nearest).contains(c),
    decreases node,
{
    let all = crossings_of(items, nearest);
    let left = match node.left {
        BvhChild::Leaf { shape, .. } => seq![nearest(*shape)],
        BvhChild::Node(n) => n.crossings(nearest),
    };
    let right = match node.right {
        BvhChild::Leaf { shape, .. } => seq![nearest(*shape)],
        BvhChild::Node(n) => n.crossings(nearest),
    };
    assert forall|c: Option<HitRecord<H::Material>>| left.contains(c) implies all.contains(c) by {
        match node.left {
            BvhChild::Leaf { id, shape } => {
                assert(left[0] == c);
                assert(all[id as int] == c);
            },
            BvhChild::Node(n) => {
                lemma_leaf_crossings_are_members(*n, items, nearest);
            },
        }
    }
    assert forall|c: Option<HitRecord<H::Material>>| right.contains(c) implies all.contains(c) by {
        match node.right {
            BvhChild::Leaf { id, shape } => {
                assert(right[0] == c);
                assert(all[id as int] == c);
            },
            BvhChild::Node(n) => {
                lemma_leaf_crossings_are_members(*n, items, nearest);
            },
        }
    }
    assert forall|c: Option<HitRecord<H::Material>>| #[trigger]
        node.crossings(nearest).contains(c) implies all.contains(c) by {
        let whole = node.crossings(nearest);
        let k = choose|k: int| 0 <= k < whole.len() && whole[k] == c;
        if k < left.len() {
            assert(left[k] == c);
            assert(left.contains(c));
        } else {
            assert(right[k - left.len()] == c);
            assert(right.contains(c));
        }
    }
}

/// A tree finds nothing nearer than the list it was built from would: the
/// least parameter among all members is no greater than that among the
/// leaves, and is there wherever a leaf has a crossing below `t_max`.
pub proof fn lemma_tree_finds_no_nearer<H: Hitable>(
    node: BVHNode<H>,
    items: Seq<Arc<H>>,
    boxes: Seq<AABB>,
    nearest: spec_fn(H) -> Option<HitRecord<H::Material>>,
    t_max: Scalar,
)
    requires
        items.len() <= usize::MAX,
        node.built_from(items, boxes, positions(items.len())),
    ensures
        least(node.crossings(nearest), t_max) matches Some(m) ==> least(
            crossings_of(items, nearest),
            t_max,
        ) matches Some(w) && w <= m,
{
    lemma_leaves_hold_members(node, items, boxes, positions(items.len()));
    lemma_leaf_crossings_are_members(node, items, nearest);
    lemma_least_among(node.crossings(nearest), crossings_of(items, nearest), t_max);
}

/// A tree built from one or two members has every nearest crossing that the
/// list has: what it finds, where its box test lets hits through, is what
/// the sweep of the list finds.
pub proof fn lemma_small_tree_finds_all<H: Hitable>(
    node: BVHNode<H>,
    items: Seq<Arc<H>>,
    boxes: Seq<AABB>,
    nearest: spec_fn(H) -> Option<HitRecord<H::Material>>,
    t_max: Scalar,
)
    requires
        1 <= items.len() <= 2,
        node.built_from(items, boxes, positions(items.len())),
    ensures
        least(node.crossings(nearest), t_max) == least(crossings_of(items, nearest), t_max),
{
    let ids = positions(items.len());
    let all = crossings_of(items, nearest);
    let below = node.crossings(nearest);
    lemma_tree_finds_no_nearer(node, items, boxes, nearest, t_max);
    let (axis, s) = arrangement(node, items, boxes, ids);
    assert forall|c: Option<HitRecord<H::Material>>| all.contains(c) implies below.contains(c) by {
        let i = choose|i: int| 0 <= i < all.len() && all[i] == c;
        assert(ids[i] == i);
        assert(ids.contains(i as usize));
        assert(s.contains(i as usize));
        let k = choose|k: int| 0 <= k < s.len() && s[k] == i as usize;
        if s.len() == 1 {
            assert(below[0] == c);
        } else {
            assert(below[k] == c);
        }
    }
    lemma_least_among(all, below, t_max);
}

} // verus!
