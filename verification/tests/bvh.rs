use raytracer::aabb::{Slab, AABB};
use raytracer::bvh::{box_axis_compare, sort_on_axis, BVHNode, BvhChild, BvhError};
use raytracer::hitable::{HitRecord, Hitable, HitableList};
use raytracer::randomutil::thread_seedable_rng;
use raytracer::ray::Ray3;
use raytracer::scalar::Scalar;
use raytracer::vector::{Point3, Vector3};
use std::sync::Arc;
use std::time::Instant;

fn scalar(x: f32) -> Scalar {
    Scalar::from_bits(x.to_bits()).unwrap()
}

fn number(s: Scalar) -> f32 {
    f32::from_bits(s.to_bits())
}

fn point(x: f32, y: f32, z: f32) -> Point3 {
    Point3::new(scalar(x), scalar(y), scalar(z))
}

fn slab(lo: Scalar, hi: Scalar, o: Scalar, d: Scalar) -> Slab {
    let inv_d = 1f32 / number(d);
    let t0 = (number(lo) - number(o)) * inv_d;
    let t1 = (number(hi) - number(o)) * inv_d;
    Slab {
        inv_d: Scalar::from_bits(inv_d.to_bits()),
        t0: Scalar::from_bits(t0.to_bits()),
        t1: Scalar::from_bits(t1.to_bits()),
    }
}

/// A ball on the diagonal through the origin: its centre has the same
/// coordinate on every axis, so that every axis orders balls alike.
struct Ball {
    at: f32,
    radius: f32,
    boxed: bool,
}

fn ball(at: f32) -> Arc<Ball> {
    Arc::new(Ball { at, radius: 0.25, boxed: true })
}

impl Hitable for Ball {
    type Material = u32;

    fn hit(&self, r: &Ray3, t_min: Scalar, t_max: Scalar) -> Option<HitRecord<u32>> {
        let (t_min, t_max) = (number(t_min), number(t_max));
        let o = [number(r.origin.x), number(r.origin.y), number(r.origin.z)];
        let d = [number(r.direction.x), number(r.direction.y), number(r.direction.z)];
        let oc = [o[0] - self.at, o[1] - self.at, o[2] - self.at];
        let a = d[0] * d[0] + d[1] * d[1] + d[2] * d[2];
        let b = oc[0] * d[0] + oc[1] * d[1] + oc[2] * d[2];
        let c = oc[0] * oc[0] + oc[1] * oc[1] + oc[2] * oc[2] - self.radius * self.radius;
        let discriminant = b * b - a * c;
        if discriminant > 0f32 {
            for temp in [(-b - discriminant.sqrt()) / a, (-b + discriminant.sqrt()) / a] {
                if temp < t_max && temp > t_min {
                    let p = point(o[0] + d[0] * temp, o[1] + d[1] * temp, o[2] + d[2] * temp);
                    let n = Vector3::new(scalar(0.0), scalar(0.0), scalar(1.0));
                    return Some(HitRecord::new(scalar(temp), p, n, Some(self.at as u32)));
                }
            }
        }
        None
    }

    fn bounding_box(&self, _: Instant, _: Instant) -> Option<AABB> {
        if !self.boxed {
            return None;
        }
        let (lo, hi) = (self.at - self.radius, self.at + self.radius);
        Some(AABB::new(point(lo, lo, lo), point(hi, hi, hi)))
    }
}

fn build(balls: Vec<Arc<Ball>>, seed: usize) -> Result<BVHNode<Ball>, BvhError> {
    let mut rng = thread_seedable_rng(seed);
    BVHNode::new(balls, Instant::now(), Instant::now(), &mut rng)
}

fn span(lo: f32, hi: f32) -> AABB {
    AABB::new(point(lo, lo, lo), point(hi, hi, hi))
}

#[test]
fn tree_of_one_member_has_it_on_both_sides() {
    for seed in 0..8 {
        let tree = build(vec![ball(3.0)], seed).unwrap();
        assert_eq!(tree.leaves(), vec![0, 0]);
        assert_eq!(tree.bounding_box, span(2.75, 3.25));
    }
}

#[test]
fn tree_of_two_members_has_each_once_in_order() {
    for seed in 0..8 {
        let tree = build(vec![ball(5.0), ball(1.0)], seed).unwrap();
        assert_eq!(tree.leaves(), vec![1, 0]);
        assert_eq!(tree.bounding_box, span(0.75, 5.25));
        let tree = build(vec![ball(1.0), ball(5.0)], seed).unwrap();
        assert_eq!(tree.leaves(), vec![0, 1]);
    }
}

#[test]
fn tree_of_three_members_drops_the_middle_one() {
    for seed in 0..8 {
        // In ascending order the members are 2 (at 1), 0 (at 5) and 1 (at 9).
        let tree = build(vec![ball(5.0), ball(9.0), ball(1.0)], seed).unwrap();
        assert_eq!(tree.leaves(), vec![2, 2, 1, 1]);
        assert!(!tree.leaves().contains(&0));
        // The box is around the leaves that are left.
        assert_eq!(tree.bounding_box, span(0.75, 9.25));
    }
}

#[test]
fn tree_of_four_and_five_members() {
    for seed in 0..8 {
        // Positions in ascending order: 0, 1, 2, 3; the one at position 2
        // of the order is dropped, the first two make a node of two, the last
        // a node of one.
        let tree = build(vec![ball(1.0), ball(2.0), ball(3.0), ball(4.0)], seed).unwrap();
        assert_eq!(tree.leaves(), vec![0, 1, 3, 3]);
        let tree =
            build(vec![ball(5.0), ball(4.0), ball(3.0), ball(2.0), ball(1.0)], seed).unwrap();
        assert_eq!(tree.leaves(), vec![4, 3, 1, 0]);
    }
}

#[test]
fn tree_of_seven_members_drops_three() {
    let balls: Vec<Arc<Ball>> = (0..7).map(|i| ball(i as f32)).collect();
    let tree = build(balls, 1).unwrap();
    // 7 -> 3 | 3 with 3 dropped; each 3 -> 1 | 1 with its middle dropped.
    assert_eq!(tree.leaves(), vec![0, 0, 2, 2, 4, 4, 6, 6]);
}

#[test]
fn leaves_hold_the_members_themselves() {
    let a = ball(5.0);
    let b = ball(1.0);
    let tree = build(vec![a.clone(), b.clone()], 3).unwrap();
    match (&tree.left, &tree.right) {
        (BvhChild::Leaf { id: 1, shape: left }, BvhChild::Leaf { id: 0, shape: right }) => {
            assert!(Arc::ptr_eq(left, &b));
            assert!(Arc::ptr_eq(right, &a));
        }
        _ => panic!("two leaves expected"),
    }
    // Each member is shared by the caller and by one leaf.
    assert_eq!(Arc::strong_count(&a), 2);
    let single = ball(2.0);
    let tree = build(vec![single.clone()], 3).unwrap();
    assert_eq!(Arc::strong_count(&single), 3);
    assert_eq!(tree.leaves().len(), 2);
}

#[test]
fn empty_list_makes_no_tree() {
    assert!(matches!(build(vec![], 1), Err(BvhError::EmptyList)));
}

#[test]
fn member_without_box_makes_no_tree() {
    let bare = Arc::new(Ball { at: 2.0, radius: 1.0, boxed: false });
    assert!(matches!(build(vec![ball(1.0), bare.clone()], 1), Err(BvhError::NoBoundingBox)));
    assert!(matches!(build(vec![bare.clone()], 1), Err(BvhError::NoBoundingBox)));
    assert!(matches!(build(vec![bare, ball(1.0), ball(3.0)], 1), Err(BvhError::NoBoundingBox)));
}

#[test]
fn tree_finds_what_the_list_finds() {
    let r = Ray3::new(
        point(-10.0, -10.0, -10.0),
        Vector3::new(scalar(1.0), scalar(1.0), scalar(1.0)),
        Instant::now(),
    );
    let tree = build(vec![ball(5.0), ball(1.0)], 2).unwrap();
    let list = HitableList::new()
        .with_hitable(Ball { at: 5.0, radius: 0.25, boxed: true })
        .with_hitable(Ball { at: 1.0, radius: 0.25, boxed: true });
    let near = scalar(0.001);
    let far = scalar(f32::MAX);
    let from_tree = tree.hit(&r, near, far, &slab).unwrap();
    let from_list = list.hit(&r, near, far).unwrap();
    assert_eq!(from_tree.t, from_list.t);
    assert_eq!(from_tree.material, Some(1));
    assert_eq!(from_list.material, Some(1));
    // Beyond the first ball only the second is left.
    let from_tree = tree.hit(&r, scalar(12.0), far, &slab).unwrap();
    assert_eq!(from_tree.material, Some(5));
}

#[test]
fn ray_that_misses_the_box_finds_nothing() {
    let tree = build(vec![ball(5.0), ball(1.0)], 2).unwrap();
    let r = Ray3::new(
        point(-10.0, 0.0, 0.0),
        Vector3::new(scalar(0.0), scalar(1.0), scalar(0.0)),
        Instant::now(),
    );
    assert!(tree.hit(&r, scalar(0.001), scalar(f32::MAX), &slab).is_none());
    // A box test that lets nothing through prunes even a ray that would hit.
    let r = Ray3::new(
        point(-10.0, -10.0, -10.0),
        Vector3::new(scalar(1.0), scalar(1.0), scalar(1.0)),
        Instant::now(),
    );
    let shut = |_: Scalar, _: Scalar, _: Scalar, _: Scalar| Slab {
        inv_d: Some(scalar(1.0)),
        t0: Some(scalar(2.0)),
        t1: Some(scalar(1.0)),
    };
    assert!(tree.hit(&r, scalar(0.001), scalar(f32::MAX), &shut).is_none());
}

#[test]
fn node_reports_its_box() {
    let tree = build(vec![ball(5.0), ball(1.0)], 2).unwrap();
    assert_eq!(tree.bounding_box(Instant::now(), Instant::now()), Some(span(0.75, 5.25)));
}

#[test]
fn tree_over_given_boxes() {
    let items = vec![ball(0.0), ball(0.0), ball(0.0)];
    // The boxes decide, not the members: ascending on every axis they are
    // 1, 2, 0.
    let boxes = vec![span(7.0, 8.0), span(1.0, 2.0), span(3.0, 9.0)];
    let mut rng = thread_seedable_rng(11);
    let tree = BVHNode::with_boxes(&items, &boxes, &mut rng).unwrap();
    assert_eq!(tree.leaves(), vec![1, 1, 0, 0]);
    assert_eq!(tree.bounding_box, span(1.0, 8.0));
    let none: Vec<Arc<Ball>> = vec![];
    assert!(matches!(BVHNode::with_boxes(&none, &vec![], &mut rng), Err(BvhError::EmptyList)));
    let part = BVHNode::build(&items, &boxes, vec![2, 0], &mut rng);
    assert_eq!(part.leaves(), vec![2, 0]);
    assert_eq!(part.bounding_box, span(3.0, 9.0));
}

#[test]
fn boxes_compare_by_their_minimum_on_the_axis() {
    let a = AABB::new(point(1.0, 5.0, -3.0), point(9.0, 9.0, 9.0));
    let b = AABB::new(point(2.0, 4.0, -3.0), point(3.0, 5.0, 0.0));
    assert!(box_axis_compare(0, &a, &b));
    assert!(!box_axis_compare(0, &b, &a));
    assert!(!box_axis_compare(1, &a, &b));
    assert!(box_axis_compare(1, &b, &a));
    assert!(!box_axis_compare(2, &a, &b));
    assert!(!box_axis_compare(2, &b, &a));
}

#[test]
fn sort_puts_members_in_ascending_order() {
    let boxes = vec![span(4.0, 5.0), span(-1.0, 9.0), span(2.0, 3.0), span(0.5, 0.75)];
    for axis in 0..3 {
        assert_eq!(sort_on_axis(&vec![0, 1, 2, 3], &boxes, axis), vec![1, 3, 2, 0]);
        assert_eq!(sort_on_axis(&vec![2, 0], &boxes, axis), vec![2, 0]);
        assert_eq!(sort_on_axis(&vec![0, 2, 0], &boxes, axis), vec![2, 0, 0]);
        assert_eq!(sort_on_axis(&vec![], &boxes, axis), Vec::<usize>::new());
    }
}

#[test]
fn axes_of_the_tree_are_the_draws_of_the_generator() {
    let items = vec![ball(0.0), ball(0.0)];
    // On x the first box comes first, on y and z the second.
    let boxes = vec![
        AABB::new(point(0.0, 5.0, 5.0), point(1.0, 6.0, 6.0)),
        AABB::new(point(3.0, 1.0, 2.0), point(4.0, 2.0, 3.0)),
    ];
    let mut on_x = 0;
    let mut on_others = 0;
    for seed in 0..64 {
        let axis = thread_seedable_rng(seed).gen_range(0, 3);
        let mut rng = thread_seedable_rng(seed);
        let tree = BVHNode::with_boxes(&items, &boxes, &mut rng).unwrap();
        if axis == 0 {
            assert_eq!(tree.leaves(), vec![0, 1]);
            on_x += 1;
        } else {
            assert_eq!(tree.leaves(), vec![1, 0]);
            on_others += 1;
        }
        // The tree took one draw from the generator, and no more.
        let mut drawn_once = thread_seedable_rng(seed);
        let _ = drawn_once.gen_range(0, 3);
        assert_eq!(rng.next_u32(), drawn_once.next_u32());
    }
    assert!(on_x > 0 && on_others > 0);
}

#[test]
fn same_seed_builds_the_same_tree() {
    let boxes: Vec<AABB> = (0..9)
        .map(|k| {
            let (x, y, z) = (k as f32, ((k * 4) % 9) as f32, ((k * 7) % 9) as f32);
            AABB::new(point(x, y, z), point(x + 1.0, y + 1.0, z + 1.0))
        })
        .collect();
    let items: Vec<Arc<Ball>> = (0..9).map(|_| ball(0.0)).collect();
    let build_from = |seed: usize| {
        let mut rng = thread_seedable_rng(seed);
        (BVHNode::with_boxes(&items, &boxes, &mut rng).unwrap().leaves(), rng.next_u32())
    };
    let mut different = false;
    for seed in 0..16 {
        assert_eq!(build_from(seed), build_from(seed));
        different = different || build_from(seed).0 != build_from(0).0;
    }
    assert!(different);
}

#[test]
fn failed_construction_draws_nothing() {
    let bare = Arc::new(Ball { at: 2.0, radius: 1.0, boxed: false });
    let mut rng = thread_seedable_rng(3);
    assert!(BVHNode::new(vec![ball(1.0), bare], Instant::now(), Instant::now(), &mut rng).is_err());
    let none: Vec<Arc<Ball>> = vec![];
    assert!(BVHNode::new(none, Instant::now(), Instant::now(), &mut rng).is_err());
    assert_eq!(rng.next_u32(), thread_seedable_rng(3).next_u32());
}
