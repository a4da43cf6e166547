//! The bounding-volume hierarchy: a binary tree of boxes over a set of
//! objects, which lets a ray skip every object whose box it misses.

use crate::aabb::AABB;
use crate::drawn::{are_fractions, lemma_fractions_together, lemma_more_draws_in_tree};
use crate::fixed::Fixed;
use crate::hit_record::HitRecord;
use crate::hittable::Hittable;
use crate::hittable_list::{spec_closest_so_far, spec_enclosing_box, HittableList};
use crate::interval::Interval;
use crate::ray::Ray;
use crate::vec3::dot;
use vstd::prelude::*;

verus! {

pub enum BVHNode {
    Leaf { object: Box<Hittable>, bbox: AABB },
    Internal { left: Box<BVHNode>, right: Box<BVHNode>, bbox: AABB },
}

/// The number by which `object` is ordered along axis `axis`: the near end
/// of its box.
pub open spec fn spec_key(object: Hittable, axis: i32) -> Fixed {
    object.spec_bounding_box().spec_axis_interval(axis).min
}

/// The place at which an object with key `key` goes into `sorted`, sought
/// downward from place `j`: behind the last of the first `j` objects whose
/// key is not greater.
pub open spec fn spec_insert_position(sorted: Seq<Hittable>, key: Fixed, axis: i32, j: int) -> int
    decreases j,
{
    if 0 < j <= sorted.len() && spec_key(sorted[j - 1], axis)@ > key@ {
        spec_insert_position(sorted, key, axis, j - 1)
    } else {
        j
    }
}

/// The first `n` objects ordered by their keys along `axis`; objects with
/// equal keys keep their order.
pub open spec fn spec_sorted(objects: Seq<Hittable>, axis: i32, n: int) -> Seq<Hittable>
    decreases n,
{
    if n <= 0 || n > objects.len() {
        Seq::empty()
    } else {
        let prev = spec_sorted(objects, axis, n - 1);
        let x = objects[n - 1];
        prev.insert(spec_insert_position(prev, spec_key(x, axis), axis, n - 1), x)
    }
}

/// The insertion place lies between zero and the place where the search
/// began.
pub proof fn lemma_insert_position_bounds(sorted: Seq<Hittable>, key: Fixed, axis: i32, j: int)
    requires
        0 <= j,
    ensures
        0 <= spec_insert_position(sorted, key, axis, j) <= j,
    decreases j,
{
    if 0 < j <= sorted.len() && spec_key(sorted[j - 1], axis)@ > key@ {
        lemma_insert_position_bounds(sorted, key, axis, j - 1);
    }
}

/// Ordering keeps the number of objects and the objects themselves.
pub proof fn lemma_sorted_keeps(objects: Seq<Hittable>, axis: i32, n: int)
    requires
        0 <= n <= objects.len(),
    ensures
        spec_sorted(objects, axis, n).len() == n,
        spec_sorted(objects, axis, n).to_multiset() == objects.subrange(0, n).to_multiset(),
    decreases n,
{
    broadcast use vstd::seq_lib::to_multiset_insert;

    if n == 0 {
        assert(objects.subrange(0, 0) =~= Seq::<Hittable>::empty());
    } else {
        lemma_sorted_keeps(objects, axis, n - 1);
        let prev = spec_sorted(objects, axis, n - 1);
        let x = objects[n - 1];
        let at = spec_insert_position(prev, spec_key(x, axis), axis, n - 1);
        lemma_insert_position_bounds(prev, spec_key(x, axis), axis, n - 1);
        let before = objects.subrange(0, n - 1);
        assert(objects.subrange(0, n) =~= before.insert(n - 1, x));
        assert(prev.insert(at, x).to_multiset() == prev.to_multiset().insert(x));
        assert(before.insert(n - 1, x).to_multiset() == before.to_multiset().insert(x));
    }
}

impl BVHNode {
    pub open spec fn spec_bounding_box(&self) -> AABB {
        match self {
            BVHNode::Leaf { bbox, .. } => *bbox,
            BVHNode::Internal { bbox, .. } => *bbox,
        }
    }

    /// Whether the hits of every object of the tree depend on the ray and
    /// the window alone.
    pub open spec fn deterministic(&self) -> bool
        decreases self,
    {
        match self {
            BVHNode::Leaf { object, .. } => object.deterministic(),
            BVHNode::Internal { left, right, .. } => left.deterministic() && right.deterministic(),
        }
    }

    /// Whether every object of the tree returns normals turned against the
    /// ray.
    pub open spec fn opposes_rays(&self) -> bool
        decreases self,
    {
        match self {
            BVHNode::Leaf { object, .. } => object.opposes_rays(),
            BVHNode::Internal { left, right, .. } => left.opposes_rays() && right.opposes_rays(),
        }
    }

    /// The objects of the tree from left to right.
    pub open spec fn leaves(&self) -> Seq<Hittable>
        decreases self,
    {
        match self {
            BVHNode::Leaf { object, .. } => seq![**object],
            BVHNode::Internal { left, right, .. } => left.leaves() + right.leaves(),
        }
    }

    /// Whether the box of every leaf is the box of its object and the box
    /// of every other node is the smallest box around the boxes of its two
    /// children.
    pub open spec fn well_formed(&self) -> bool
        decreases self,
    {
        match self {
            BVHNode::Leaf { object, bbox } => *bbox == object.spec_bounding_box(),
            BVHNode::Internal { left, right, bbox } => {
                &&& left.well_formed()
                &&& right.well_formed()
                &&& *bbox == AABB::spec_from_aabb(
                    left.spec_bounding_box(),
                    right.spec_bounding_box(),
                )
            },
        }
    }

    /// The nearest hit of `r` inside the window `ray_t` in the tree. A node
    /// whose box the ray misses has no hit. The right child is tried
    /// inside what the hit of the left child has left of the window.
    pub open spec fn spec_hit<'a>(&'a self, r: Ray, ray_t: Interval) -> Option<HitRecord<'a>>
        decreases self,
    {
        match self {
            BVHNode::Leaf { object, bbox } => if !bbox.spec_hit(r, ray_t) {
                None
            } else {
                object.spec_hit(r, ray_t)
            },
            BVHNode::Internal { left, right, bbox } => if !bbox.spec_hit(r, ray_t) {
                None
            } else {
                let near = left.spec_hit(r, ray_t);
                let window = Interval { min: ray_t.min, max: spec_closest_so_far(near, ray_t) };
                match right.spec_hit(r, window) {
                    Some(rec) => Some(rec),
                    None => near,
                }
            },
        }
    }

    /// The tree over `objects`, for at least one object. One object makes
    /// a leaf. Two make a node with the second object on the left and the
    /// first on the right. More are ordered along the longest axis of the
    /// box around them all by the near ends of their boxes; the first half,
    /// rounded down, goes to the left child and the rest to the right.
    pub open spec fn spec_node(objects: Seq<Hittable>) -> BVHNode
        decreases objects.len(),
    {
        let n = objects.len() as int;
        if n <= 1 {
            BVHNode::Leaf { object: Box::new(objects[0]), bbox: objects[0].spec_bounding_box() }
        } else if n == 2 {
            BVHNode::Internal {
                left: Box::new(
                    BVHNode::Leaf {
                        object: Box::new(objects[1]),
                        bbox: objects[1].spec_bounding_box(),
                    },
                ),
                right: Box::new(
                    BVHNode::Leaf {
                        object: Box::new(objects[0]),
                        bbox: objects[0].spec_bounding_box(),
                    },
                ),
                bbox: AABB::spec_from_aabb(
                    objects[1].spec_bounding_box(),
                    objects[0].spec_bounding_box(),
                ),
            }
        } else {
            let axis = spec_enclosing_box(objects, n).spec_longest_axis();
            let sorted = spec_sorted(objects, axis, n);
            let mid = n / 2;
            proof {
                lemma_sorted_keeps(objects, axis, n);
            }
            let left = BVHNode::spec_node(sorted.subrange(0, mid));
            let right = BVHNode::spec_node(sorted.subrange(mid, n));
            BVHNode::Internal {
                left: Box::new(left),
                right: Box::new(right),
                bbox: AABB::spec_from_aabb(left.spec_bounding_box(), right.spec_bounding_box()),
            }
        }
    }

    pub fn bounding_box(&self) -> (r: AABB)
        ensures
            r == self.spec_bounding_box(),
    {
        match self {
            BVHNode::Leaf { bbox, .. } => *bbox,
            BVHNode::Internal { bbox, .. } => *bbox,
        }
    }

    pub fn hit<'a>(&'a self, r: &Ray, ray_t: Interval) -> (hit: Option<HitRecord<'a>>)
        ensures
            self.could_report(*r, ray_t, hit),
            self.deterministic() ==> hit == self.spec_hit(*r, ray_t),
            self.deterministic() ==> (hit matches Some(rec) ==> ray_t.min@ < rec.t@ < ray_t.max@),
            self.opposes_rays() ==> (hit matches Some(rec) ==> dot(r.direction, rec.normal)@ <= 0),
        decreases self,
    {
        let ghost none = Seq::<Fixed>::empty();
        match self {
            BVHNode::Leaf { object, bbox } => {
                if !bbox.hit(r, ray_t) {
                    assert(self.spec_hit_drawn(*r, ray_t, none) == Some(
                        (None::<HitRecord<'a>>, none),
                    ));
                    return None;
                }
                let hit = object.hit(r, ray_t);
                let ghost d = choose|d: Seq<Fixed>|
                    are_fractions(d) && #[trigger] object.spec_hit_drawn(*r, ray_t, d) == Some(
                        (hit, none),
                    );
                assert(self.spec_hit_drawn(*r, ray_t, d) == Some((hit, none)));
                hit
            },
            BVHNode::Internal { left, right, bbox } => {
                if !bbox.hit(r, ray_t) {
                    assert(self.spec_hit_drawn(*r, ray_t, none) == Some(
                        (None::<HitRecord<'a>>, none),
                    ));
                    return None;
                }
                let mut closest_so_far = ray_t.max;
                let mut closest_hit: Option<HitRecord<'a>> = None;
                let near = left.hit(r, ray_t);
                let ghost d1 = choose|d: Seq<Fixed>|
                    are_fractions(d) && #[trigger] left.spec_hit_drawn(*r, ray_t, d) == Some(
                        (near, none),
                    );
                if let Some(rec) = near {
                    closest_so_far = rec.t;
                    closest_hit = Some(rec);
                }
                let ghost window = Interval { min: ray_t.min, max: closest_so_far };
                let far = right.hit(r, Interval::new(ray_t.min, closest_so_far));
                let ghost d2 = choose|d: Seq<Fixed>|
                    are_fractions(d) && #[trigger] right.spec_hit_drawn(*r, window, d) == Some(
                        (far, none),
                    );
                if let Some(rec) = far {
                    closest_hit = Some(rec);
                }
                proof {
                    lemma_more_draws_in_tree(**left, *r, ray_t, d1, d2);
                    lemma_fractions_together(d1, d2);
                    assert(none + d2 =~= d2);
                    assert(self.spec_hit_drawn(*r, ray_t, d1 + d2) == Some((closest_hit, none)));
                }
                closest_hit
            },
        }
    }

    /// The tree over the objects of `list`.
    pub fn from_list(list: HittableList) -> (r: BVHNode)
        requires
            list.objects@.len() >= 1,
        ensures
            r == BVHNode::spec_node(list.objects@),
            r.well_formed(),
            r.leaves().to_multiset() == list.objects@.to_multiset(),
    {
        BVHNode::node(list.objects)
    }

    /// The tree over `objects`.
    pub fn node(objects: Vec<Hittable>) -> (r: BVHNode)
        requires
            objects@.len() >= 1,
        ensures
            r == BVHNode::spec_node(objects@),
            r.well_formed(),
            r.leaves().to_multiset() == objects@.to_multiset(),
        decreases objects@.len(),
    {
        let mut objects = objects;
        let ghost given = objects@;
        let n = objects.len();
        let mut bbox = AABB::empty();
        let mut i: usize = 0;
        while i < n
            invariant
                i <= n,
                n == objects@.len(),
                objects@ == given,
                bbox == spec_enclosing_box(given, i as int),
            decreases n - i,
        {
            bbox = AABB::from_aabb(bbox, objects[i].bounding_box());
            i += 1;
        }
        let axis = bbox.longest_axis();
        if n == 1 {
            let object = objects.pop().unwrap();
            let bbox = object.bounding_box();
            let r = BVHNode::Leaf { object: Box::new(object), bbox };
            proof {
                assert(given =~= seq![object]);
                assert(r.leaves() =~= seq![object]);
            }
            r
        } else if n == 2 {
            let left = objects.pop().unwrap();
            let right = objects.pop().unwrap();
            let left_bbox = left.bounding_box();
            let right_bbox = right.bounding_box();
            let left_leaf = BVHNode::Leaf { object: Box::new(left), bbox: left_bbox };
            let right_leaf = BVHNode::Leaf { object: Box::new(right), bbox: right_bbox };
            proof {
                assert(given =~= seq![right] + seq![left]);
                assert(left_leaf.well_formed());
                assert(right_leaf.well_formed());
                assert(left_leaf.leaves() =~= seq![left]);
                assert(right_leaf.leaves() =~= seq![right]);
                vstd::seq_lib::lemma_multiset_commutative(seq![right], seq![left]);
                vstd::seq_lib::lemma_multiset_commutative(seq![left], seq![right]);
                assert(seq![right].to_multiset().add(seq![left].to_multiset()) =~= seq![
                    left,
                ].to_multiset().add(seq![right].to_multiset()));
            }
            let r = BVHNode::Internal {
                left: Box::new(left_leaf),
                right: Box::new(right_leaf),
                bbox: AABB::from_aabb(left_bbox, right_bbox),
            };
            proof {
                assert(r.leaves() =~= seq![left] + seq![right]);
            }
            r
        } else {
            sort_by_key(&mut objects, axis);
            let mid = n / 2;
            let ghost sorted = objects@;
            proof {
                lemma_sorted_keeps(given, axis, n as int);
            }
            let right_half = objects.split_off(mid);
            let ghost left_part = objects@;
            let ghost right_part = right_half@;
            proof {
                assert(given.subrange(0, n as int) =~= given);
                assert(left_part =~= sorted.subrange(0, mid as int));
                assert(right_part =~= sorted.subrange(mid as int, n as int));
                assert(sorted =~= left_part + right_part);
                vstd::seq_lib::lemma_multiset_commutative(left_part, right_part);
            }
            let left = BVHNode::node(objects);
            let right = BVHNode::node(right_half);
            let bbox = AABB::from_aabb(left.bounding_box(), right.bounding_box());
            let r = BVHNode::Internal { left: Box::new(left), right: Box::new(right), bbox };
            proof {
                vstd::seq_lib::lemma_multiset_commutative(left.leaves(), right.leaves());
                assert(r.leaves() =~= left.leaves() + right.leaves());
                assert(r.well_formed());
            }
            r
        }
    }
}

/// Orders `objects` by their keys along `axis`, keeping the order of
/// objects with equal keys: each object in turn is taken out and put back
/// behind the last object before it whose key is not greater.
pub fn sort_by_key(objects: &mut Vec<Hittable>, axis: i32)
    ensures
        final(objects)@ == spec_sorted(old(objects)@, axis, old(objects)@.len() as int),
{
    let ghost given = objects@;
    let n = objects.len();
    let mut i: usize = 0;
    while i < n
        invariant
            i <= n,
            n == given.len(),
            objects@.len() == n,
            objects@.subrange(0, i as int) == spec_sorted(given, axis, i as int),
            objects@.subrange(i as int, n as int) == given.subrange(i as int, n as int),
        decreases n - i,
    {
        let ghost before = objects@;
        let ghost prev = spec_sorted(given, axis, i as int);
        proof {
            lemma_sorted_keeps(given, axis, i as int);
        }
        let x = objects.remove(i);
        assert(x == given[i as int]) by {
            assert(before.subrange(i as int, n as int)[0] == given.subrange(i as int, n as int)[0]);
        }
        let key = *x.bounding_box().axis_interval(axis);
        let mut j: usize = i;
        while j > 0 && objects[j - 1].bounding_box().axis_interval(axis).min.raw > key.min.raw
            invariant
                j <= i,
                i < n,
                objects@.len() == n - 1,
                objects@.subrange(0, i as int) == prev,
                key.min == spec_key(x, axis),
                spec_insert_position(prev, key.min, axis, j as int) == spec_insert_position(
                    prev,
                    key.min,
                    axis,
                    i as int,
                ),
            decreases j,
        {
            assert(objects@[j - 1] == prev[j - 1]);
            j -= 1;
        }
        proof {
            if j > 0 {
                assert(objects@[j - 1] == prev[j - 1]);
            }
            assert(j == spec_insert_position(prev, key.min, axis, i as int));
        }
        let ghost removed = objects@;
        objects.insert(j, x);
        proof {
            assert(removed =~= before.remove(i as int));
            assert(objects@ =~= removed.insert(j as int, x));
            assert(objects@.subrange(0, i as int + 1) =~= prev.insert(j as int, x));
            assert(objects@.subrange(i as int + 1, n as int) =~= given.subrange(
                i as int + 1,
                n as int,
            )) by {
                assert forall|k: int| 0 <= k < n - i - 1 implies #[trigger] objects@.subrange(
                    i as int + 1,
                    n as int,
                )[k] == given.subrange(i as int + 1, n as int)[k] by {
                    assert(objects@[i + 1 + k] == removed[i + k]);
                    assert(removed[i + k] == before[i + 1 + k]);
                    assert(before.subrange(i as int, n as int)[k + 1] == given.subrange(
                        i as int,
                        n as int,
                    )[k + 1]);
                }
            }
        }
        i += 1;
    }
    proof {
        assert(objects@ =~= objects@.subrange(0, n as int));
    }
}

} // verus!
