//! Nearest-hit reasoning: what it takes for a list and a hierarchy over the
//! same objects to find the same hit.
//!
//! An object answers by its nearest hit along a ray if, whatever the far end
//! of the window, it reports its first hit beyond the near end, or nothing
//! where that hit lies beyond the window. Surfaces do. A list of such
//! objects then reports the least of their hits, and so does a hierarchy
//! unless a box hides a hit of its own object. When a box shows a hit is
//! the subject of the module `shown`.

use crate::aabb::{spec_slab, AABB};
use crate::bvh::BVHNode;
use crate::fixed::Fixed;
use crate::hit_record::HitRecord;
use crate::hittable::Hittable;
use crate::hittable_list::{spec_closest, spec_closest_so_far};
use crate::interval::Interval;
use crate::ray::Ray;
use crate::sphere::Sphere;
use vstd::prelude::*;

verus! {

/// The ray parameter of a hit.
pub open spec fn spec_time(hit: Option<HitRecord>) -> Option<Fixed> {
    match hit {
        Some(rec) => Some(rec.t),
        None => None,
    }
}

/// The parameter `t` if it lies before `limit`, and nothing otherwise.
pub open spec fn spec_cut(t: Option<Fixed>, limit: Fixed) -> Option<Fixed> {
    match t {
        Some(x) => if x@ < limit@ {
            Some(x)
        } else {
            None
        },
        None => None,
    }
}

/// The window `w` with its far end moved to `limit`.
pub open spec fn spec_until(w: Interval, limit: Fixed) -> Interval {
    Interval { min: w.min, max: limit }
}

/// The parameter at which `o` reports a hit of `r` inside the window `w`.
pub open spec fn spec_hit_time(o: Hittable, r: Ray, w: Interval) -> Option<Fixed> {
    spec_time(o.spec_hit(r, w))
}

/// Whether `o` answers by its nearest hit along `r` inside `w`: a hit lies
/// strictly inside the window, and with the far end of the window moved in
/// to any `limit`, `o` reports the same parameter if it lies before
/// `limit` and nothing otherwise.
pub open spec fn answers_by_nearest(o: Hittable, r: Ray, w: Interval) -> bool {
    &&& spec_hit_time(o, r, w) matches Some(t) ==> w.min@ < t@ < w.max@
    &&& forall|limit: Fixed|
        limit@ <= w.max@ ==> #[trigger] spec_hit_time(o, r, spec_until(w, limit)) == spec_cut(
            spec_hit_time(o, r, w),
            limit,
        )
}

/// A sum of squares is not negative.
pub proof fn lemma_length_squared_nonnegative(v: crate::vec3::Vec3)
    ensures
        v.spec_length_squared()@ >= 0,
{
    crate::fixed::lemma_square_nonnegative(v.x);
    crate::fixed::lemma_square_nonnegative(v.y);
    crate::fixed::lemma_square_nonnegative(v.z);
}

/// A sphere answers by its nearest hit.
pub proof fn lemma_sphere_answers_by_nearest(s: Sphere, r: Ray, w: Interval)
    ensures
        answers_by_nearest(Hittable::Sphere(s), r, w),
{
    reveal(Sphere::spec_hit);
    let o = Hittable::Sphere(s);
    let current_center = s.center.spec_at(r.time);
    let oc = current_center.spec_sub(r.origin);
    let a = r.direction.spec_length_squared();
    let h = crate::vec3::spec_dot(r.direction, oc);
    let c = oc.spec_length_squared().spec_sub(s.radius.spec_mul(s.radius));
    let discriminant = h.spec_mul(h).spec_sub(a.spec_mul(c));
    lemma_length_squared_nonnegative(r.direction);
    if discriminant@ >= 0 {
        let sqrtd = discriminant.spec_sqrt();
        crate::fixed::lemma_sqrt_nonnegative(discriminant);
        crate::fixed::lemma_div_monotone(h.spec_sub(sqrtd), h.spec_add(sqrtd), a);
    }
    assert forall|limit: Fixed| limit@ <= w.max@ implies #[trigger] spec_hit_time(
        o,
        r,
        spec_until(w, limit),
    ) == spec_cut(spec_hit_time(o, r, w), limit) by {
        assert(spec_hit_time(o, r, spec_until(w, limit)) == s.spec_root(r, spec_until(w, limit)));
        assert(spec_hit_time(o, r, w) == s.spec_root(r, w));
    }
}

/// A parallelogram answers by its nearest hit.
pub proof fn lemma_quad_answers_by_nearest(q: crate::quad::Quad, r: Ray, w: Interval)
    ensures
        answers_by_nearest(Hittable::Quad(q), r, w),
{
    reveal(crate::quad::Quad::spec_hit);
}

/// A triangle answers by its nearest hit.
pub proof fn lemma_triangle_answers_by_nearest(t: crate::triangle::Triangle, r: Ray, w: Interval)
    ensures
        answers_by_nearest(Hittable::Triangle(t), r, w),
{
    reveal(crate::triangle::Triangle::spec_hit);
}

/// The earlier of two parameters; the first where they are equal.
pub open spec fn spec_earlier(p: Option<Fixed>, q: Option<Fixed>) -> Option<Fixed> {
    match (p, q) {
        (Some(x), Some(y)) => if y@ < x@ {
            Some(y)
        } else {
            Some(x)
        },
        (Some(x), None) => Some(x),
        (None, q) => q,
    }
}

/// The least parameter at which one of the first `n` objects reports a hit
/// of `r` inside `w`.
pub open spec fn spec_least(objects: Seq<Hittable>, r: Ray, w: Interval, n: int) -> Option<Fixed>
    decreases n,
{
    if n <= 0 || n > objects.len() {
        None
    } else {
        spec_earlier(spec_least(objects, r, w, n - 1), spec_hit_time(objects[n - 1], r, w))
    }
}

/// Whether every one of `objects` answers by its nearest hit.
pub open spec fn all_answer_by_nearest(objects: Seq<Hittable>, r: Ray, w: Interval) -> bool {
    forall|i: int| 0 <= i < objects.len() ==> answers_by_nearest(#[trigger] objects[i], r, w)
}

/// The least parameter is the parameter of one of the objects, and none of
/// them has a smaller one.
pub proof fn lemma_least_is_least(objects: Seq<Hittable>, r: Ray, w: Interval, n: int)
    requires
        0 <= n <= objects.len(),
    ensures
        spec_least(objects, r, w, n) matches Some(t) ==> exists|i: int|
            0 <= i < n && #[trigger] spec_hit_time(objects[i], r, w) == Some(t),
        forall|j: int|
            0 <= j < n ==> (#[trigger] spec_hit_time(objects[j], r, w) matches Some(x) ==> (
            spec_least(objects, r, w, n) matches Some(t) && t@ <= x@)),
    decreases n,
{
    if n > 0 {
        lemma_least_is_least(objects, r, w, n - 1);
        let prev = spec_least(objects, r, w, n - 1);
        let last = spec_hit_time(objects[n - 1], r, w);
        if let Some(t) = spec_least(objects, r, w, n) {
            if last == Some(t) {
                assert(spec_hit_time(objects[n - 1], r, w) == Some(t));
            } else {
                let i = choose|i: int|
                    0 <= i < n - 1 && #[trigger] spec_hit_time(objects[i], r, w) == Some(t);
                assert(0 <= i < n && spec_hit_time(objects[i], r, w) == Some(t));
            }
        }
    }
}

/// The least parameter of two runs of objects, one after the other, is the
/// earlier of their least parameters.
pub proof fn lemma_least_of_both(a: Seq<Hittable>, b: Seq<Hittable>, r: Ray, w: Interval, n: int)
    requires
        0 <= n <= b.len(),
    ensures
        spec_least(a + b, r, w, a.len() + n) == spec_earlier(
            spec_least(a, r, w, a.len() as int),
            spec_least(b, r, w, n),
        ),
    decreases n,
{
    if n == 0 {
        lemma_least_of_prefix(a, b, r, w, a.len() as int);
    } else {
        lemma_least_of_both(a, b, r, w, n - 1);
        assert((a + b)[a.len() + n - 1] == b[n - 1]);
    }
}

/// The least parameter among the first `n` objects does not depend on the
/// objects behind them.
pub proof fn lemma_least_of_prefix(a: Seq<Hittable>, b: Seq<Hittable>, r: Ray, w: Interval, n: int)
    requires
        0 <= n <= a.len(),
    ensures
        spec_least(a + b, r, w, n) == spec_least(a, r, w, n),
    decreases n,
{
    if n > 0 {
        lemma_least_of_prefix(a, b, r, w, n - 1);
        assert((a + b)[n - 1] == a[n - 1]);
    }
}

/// A list of objects that answer by their nearest hits reports the least
/// of their parameters that lies before the far end of the window.
pub proof fn lemma_list_reports_least(
    objects: Seq<Hittable>,
    r: Ray,
    w: Interval,
    limit: Fixed,
    n: int,
)
    requires
        all_answer_by_nearest(objects, r, w),
        limit@ <= w.max@,
        0 <= n <= objects.len(),
    ensures
        spec_time(spec_closest(objects, r, spec_until(w, limit), n)) == spec_cut(
            spec_least(objects, r, w, n),
            limit,
        ),
    decreases n,
{
    if n > 0 {
        lemma_list_reports_least(objects, r, w, limit, n - 1);
        let o = objects[n - 1];
        let prev = spec_closest(objects, r, spec_until(w, limit), n - 1);
        let so_far = spec_closest_so_far(prev, spec_until(w, limit));
        assert(answers_by_nearest(o, r, w));
        assert(so_far@ <= w.max@);
        assert(spec_hit_time(o, r, spec_until(w, so_far)) == spec_cut(
            spec_hit_time(o, r, w),
            so_far,
        ));
        assert(Interval { min: spec_until(w, limit).min, max: so_far } == spec_until(w, so_far));
    }
}

/// The least parameter lies strictly inside the window, for objects that
/// answer by their nearest hits.
pub proof fn lemma_least_inside(objects: Seq<Hittable>, r: Ray, w: Interval, n: int)
    requires
        all_answer_by_nearest(objects, r, w),
        0 <= n <= objects.len(),
    ensures
        spec_least(objects, r, w, n) matches Some(t) ==> w.min@ < t@ < w.max@,
{
    lemma_least_is_least(objects, r, w, n);
    if let Some(t) = spec_least(objects, r, w, n) {
        let i = choose|i: int| 0 <= i < n && #[trigger] spec_hit_time(objects[i], r, w) == Some(t);
        assert(answers_by_nearest(objects[i], r, w));
    }
}

/// Whether the interval `outer` holds the interval `inner`.
pub open spec fn holds(outer: Interval, inner: Interval) -> bool {
    outer.min@ <= inner.min@ && inner.max@ <= outer.max@
}

/// Whether the box `outer` holds the box `inner`.
pub open spec fn box_holds(outer: AABB, inner: AABB) -> bool {
    holds(outer.x, inner.x) && holds(outer.y, inner.y) && holds(outer.z, inner.z)
}

/// Whether no extent of the box `b` ends before it begins.
pub open spec fn is_proper_box(b: AABB) -> bool {
    b.x.min@ <= b.x.max@ && b.y.min@ <= b.y.max@ && b.z.min@ <= b.z.max@
}

/// A wider extent gives a wider slab.
pub proof fn lemma_slab_widens(inner: Interval, outer: Interval, origin: Fixed, direction: Fixed)
    requires
        inner.min@ <= inner.max@,
        holds(outer, inner),
    ensures
        holds(spec_slab(outer, origin, direction), spec_slab(inner, origin, direction)),
{
    let lo1 = inner.min.spec_sub(origin);
    let hi1 = inner.max.spec_sub(origin);
    let lo2 = outer.min.spec_sub(origin);
    let hi2 = outer.max.spec_sub(origin);
    if direction@ >= 0 {
        crate::fixed::lemma_div_monotone(lo2, lo1, direction);
        crate::fixed::lemma_div_monotone(lo1, hi1, direction);
        crate::fixed::lemma_div_monotone(hi1, hi2, direction);
    } else {
        crate::fixed::lemma_div_antitone(lo2, lo1, direction);
        crate::fixed::lemma_div_antitone(lo1, hi1, direction);
        crate::fixed::lemma_div_antitone(hi1, hi2, direction);
    }
}

/// A ray that the slab test finds in a box is found in every box that holds
/// that box.
pub proof fn lemma_box_widens(inner: AABB, outer: AABB, r: Ray, w: Interval)
    requires
        is_proper_box(inner),
        box_holds(outer, inner),
        inner.spec_hit(r, w),
    ensures
        outer.spec_hit(r, w),
{
    lemma_slab_widens(inner.x, outer.x, r.origin.x, r.direction.x);
    lemma_slab_widens(inner.y, outer.y, r.origin.y, r.direction.y);
    lemma_slab_widens(inner.z, outer.z, r.origin.z, r.direction.z);
}

/// Whether the box of `o` is proper and shows every hit of `o` along `r`
/// inside `w`: with the far end of the window moved in to any limit, the
/// slab test finds the ray in the box wherever `o` reports a hit.
pub open spec fn box_shows(o: Hittable, r: Ray, w: Interval) -> bool {
    &&& is_proper_box(o.spec_bounding_box())
    &&& forall|limit: Fixed|
        limit@ <= w.max@ ==> (#[trigger] spec_hit_time(o, r, spec_until(w, limit)) is Some
            ==> o.spec_bounding_box().spec_hit(r, spec_until(w, limit)))
}

/// Whether the box of every one of `objects` shows its hits.
pub open spec fn all_boxes_show(objects: Seq<Hittable>, r: Ray, w: Interval) -> bool {
    forall|i: int| 0 <= i < objects.len() ==> box_shows(#[trigger] objects[i], r, w)
}

/// The box of a well-formed tree over objects with proper boxes is proper
/// and holds the box of each of them.
pub proof fn lemma_node_box_holds(node: BVHNode, k: int)
    requires
        node.well_formed(),
        forall|i: int|
            0 <= i < node.leaves().len() ==> is_proper_box(
                (#[trigger] node.leaves()[i]).spec_bounding_box(),
            ),
        0 <= k < node.leaves().len(),
    ensures
        is_proper_box(node.spec_bounding_box()),
        box_holds(node.spec_bounding_box(), node.leaves()[k].spec_bounding_box()),
    decreases node,
{
    match node {
        BVHNode::Leaf { object, bbox } => {
            assert(node.leaves()[0] == *object);
        },
        BVHNode::Internal { left, right, bbox } => {
            let a = left.leaves();
            let b = right.leaves();
            lemma_leaves_not_empty(*left);
            lemma_leaves_not_empty(*right);
            assert forall|i: int| 0 <= i < a.len() implies is_proper_box(
                (#[trigger] a[i]).spec_bounding_box(),
            ) by {
                assert(node.leaves()[i] == a[i]);
            }
            assert forall|i: int| 0 <= i < b.len() implies is_proper_box(
                (#[trigger] b[i]).spec_bounding_box(),
            ) by {
                assert(node.leaves()[a.len() + i] == b[i]);
            }
            lemma_node_box_holds(*left, 0);
            lemma_node_box_holds(*right, 0);
            if k < a.len() {
                lemma_node_box_holds(*left, k);
                assert(node.leaves()[k] == a[k]);
            } else {
                lemma_node_box_holds(*right, k - a.len());
                assert(node.leaves()[k] == b[k - a.len()]);
            }
        },
    }
}

/// A tree has at least one object.
pub proof fn lemma_leaves_not_empty(node: BVHNode)
    ensures
        node.leaves().len() >= 1,
    decreases node,
{
    match node {
        BVHNode::Leaf { .. } => {},
        BVHNode::Internal { left, right, .. } => {
            lemma_leaves_not_empty(*left);
            lemma_leaves_not_empty(*right);
        },
    }
}

/// A well-formed tree over objects that answer by their nearest hits, and
/// whose boxes show their hits, reports the least of their parameters that
/// lies before the far end of the window.
pub proof fn lemma_tree_reports_least(node: BVHNode, r: Ray, w: Interval, limit: Fixed)
    requires
        node.well_formed(),
        all_answer_by_nearest(node.leaves(), r, w),
        all_boxes_show(node.leaves(), r, w),
        limit@ <= w.max@,
    ensures
        spec_time(node.spec_hit(r, spec_until(w, limit))) == spec_cut(
            spec_least(node.leaves(), r, w, node.leaves().len() as int),
            limit,
        ),
    decreases node,
{
    let leaves = node.leaves();
    let n = leaves.len() as int;
    let cut_window = spec_until(w, limit);
    assert forall|i: int| 0 <= i < leaves.len() implies is_proper_box(
        (#[trigger] leaves[i]).spec_bounding_box(),
    ) by {
        assert(box_shows(leaves[i], r, w));
    }
    // A box that the ray misses hides no hit.
    if !node.spec_bounding_box().spec_hit(r, cut_window) {
        lemma_least_is_least(leaves, r, w, n);
        if let Some(t) = spec_cut(spec_least(leaves, r, w, n), limit) {
            let i = choose|i: int| 0 <= i < n && #[trigger] spec_hit_time(leaves[i], r, w) == Some(t);
            assert(answers_by_nearest(leaves[i], r, w));
            assert(box_shows(leaves[i], r, w));
            assert(spec_hit_time(leaves[i], r, spec_until(w, limit)) == Some(t));
            lemma_node_box_holds(node, i);
            lemma_box_widens(
                leaves[i].spec_bounding_box(),
                node.spec_bounding_box(),
                r,
                cut_window,
            );
        }
    }
    match node {
        BVHNode::Leaf { object, bbox } => {
            assert(leaves[0] == *object);
            assert(answers_by_nearest(leaves[0], r, w));
            assert(box_shows(leaves[0], r, w));
            assert(spec_hit_time(*object, r, cut_window) == spec_cut(
                spec_hit_time(*object, r, w),
                limit,
            ));
            reveal_with_fuel(spec_least, 2);
        },
        BVHNode::Internal { left, right, bbox } => {
            let a = left.leaves();
            let b = right.leaves();
            assert forall|i: int| 0 <= i < a.len() implies answers_by_nearest(#[trigger] a[i], r, w)
                && box_shows(a[i], r, w) by {
                assert(leaves[i] == a[i]);
            }
            assert forall|i: int| 0 <= i < b.len() implies answers_by_nearest(#[trigger] b[i], r, w)
                && box_shows(b[i], r, w) by {
                assert(leaves[a.len() + i] == b[i]);
            }
            lemma_tree_reports_least(*left, r, w, limit);
            let near = left.spec_hit(r, cut_window);
            let so_far = spec_closest_so_far(near, cut_window);
            lemma_least_inside(a, r, w, a.len() as int);
            assert(so_far@ <= w.max@);
            lemma_tree_reports_least(*right, r, w, so_far);
            assert(Interval { min: cut_window.min, max: so_far } == spec_until(w, so_far));
            lemma_least_of_both(a, b, r, w, b.len() as int);
        },
    }
}

/// Of two runs of the same objects, each object of the one is among the
/// other.
pub proof fn lemma_same_objects_member(a: Seq<Hittable>, b: Seq<Hittable>, i: int) -> (j: int)
    requires
        a.to_multiset() == b.to_multiset(),
        0 <= i < a.len(),
    ensures
        0 <= j < b.len(),
        b[j] == a[i],
{
    a.to_multiset_ensures();
    b.to_multiset_ensures();
    assert(a.contains(a[i]));
    assert(b.to_multiset().count(a[i]) > 0);
    assert(b.contains(a[i]));
    choose|j: int| 0 <= j < b.len() && b[j] == a[i]
}

/// Of two runs of the same objects, the least parameter of the one is not
/// below that of the other.
proof fn lemma_least_not_below(a: Seq<Hittable>, b: Seq<Hittable>, r: Ray, w: Interval)
    requires
        a.to_multiset() == b.to_multiset(),
    ensures
        spec_least(a, r, w, a.len() as int) matches Some(t) ==> (spec_least(
            b,
            r,
            w,
            b.len() as int,
        ) matches Some(x) && x@ <= t@),
{
    lemma_least_is_least(a, r, w, a.len() as int);
    lemma_least_is_least(b, r, w, b.len() as int);
    if let Some(t) = spec_least(a, r, w, a.len() as int) {
        let i = choose|i: int| 0 <= i < a.len() && #[trigger] spec_hit_time(a[i], r, w) == Some(t);
        let j = lemma_same_objects_member(a, b, i);
        assert(spec_hit_time(b[j], r, w) == Some(t));
    }
}

/// Two runs of the same objects, in whatever order, have the same least
/// parameter.
pub proof fn lemma_least_of_same_objects(a: Seq<Hittable>, b: Seq<Hittable>, r: Ray, w: Interval)
    requires
        a.to_multiset() == b.to_multiset(),
    ensures
        spec_least(a, r, w, a.len() as int) == spec_least(b, r, w, b.len() as int),
{
    lemma_least_not_below(a, b, r, w);
    lemma_least_not_below(b, a, r, w);
}

/// A hierarchy finds what a list finds. For a well-formed tree whose
/// objects are those of a list, in whatever order: if every object answers
/// by its nearest hit along the ray and has a box that shows its hits, the
/// tree and the list report hits at the same ray parameter, or both report
/// none. Where two objects are hit at one parameter the two may report
/// different objects.
pub proof fn lemma_hierarchy_agrees_with_list(
    node: BVHNode,
    objects: Seq<Hittable>,
    r: Ray,
    w: Interval,
)
    requires
        node.well_formed(),
        node.leaves().to_multiset() == objects.to_multiset(),
        all_answer_by_nearest(objects, r, w),
        all_boxes_show(objects, r, w),
    ensures
        spec_time(node.spec_hit(r, w)) == spec_time(
            spec_closest(objects, r, w, objects.len() as int),
        ),
{
    let leaves = node.leaves();
    assert forall|i: int| 0 <= i < leaves.len() implies answers_by_nearest(
        #[trigger] leaves[i],
        r,
        w,
    ) && box_shows(leaves[i], r, w) by {
        let j = lemma_same_objects_member(leaves, objects, i);
        assert(answers_by_nearest(objects[j], r, w));
        assert(box_shows(objects[j], r, w));
    }
    lemma_tree_reports_least(node, r, w, w.max);
    lemma_list_reports_least(objects, r, w, w.max, objects.len() as int);
    lemma_least_of_same_objects(leaves, objects, r, w);
    assert(spec_until(w, w.max) == w);
}

/// A moved object answers by its nearest hit along a ray if the object
/// does along the ray carried into its frame.
pub proof fn lemma_moved_answers_by_nearest(t: crate::transform::Translate, r: Ray, w: Interval)
    requires
        answers_by_nearest(*t.object, t.spec_offset_ray(r), w),
    ensures
        answers_by_nearest(Hittable::Translate(t), r, w),
{
    let o = Hittable::Translate(t);
    let inner = *t.object;
    let ray = t.spec_offset_ray(r);
    assert(spec_hit_time(o, r, w) == spec_hit_time(inner, ray, w));
    assert forall|limit: Fixed| limit@ <= w.max@ implies #[trigger] spec_hit_time(
        o,
        r,
        spec_until(w, limit),
    ) == spec_cut(spec_hit_time(o, r, w), limit) by {
        assert(spec_hit_time(o, r, spec_until(w, limit)) == spec_hit_time(
            inner,
            ray,
            spec_until(w, limit),
        ));
    }
}

/// A turned object answers by its nearest hit along a ray if the object
/// does along the ray carried into its frame.
pub proof fn lemma_turned_answers_by_nearest(t: crate::transform::RotateY, r: Ray, w: Interval)
    requires
        answers_by_nearest(*t.object, t.spec_turned_ray(r), w),
    ensures
        answers_by_nearest(Hittable::RotateY(t), r, w),
{
    let o = Hittable::RotateY(t);
    let inner = *t.object;
    let ray = t.spec_turned_ray(r);
    assert(spec_hit_time(o, r, w) == spec_hit_time(inner, ray, w));
    assert forall|limit: Fixed| limit@ <= w.max@ implies #[trigger] spec_hit_time(
        o,
        r,
        spec_until(w, limit),
    ) == spec_cut(spec_hit_time(o, r, w), limit) by {
        assert(spec_hit_time(o, r, spec_until(w, limit)) == spec_hit_time(
            inner,
            ray,
            spec_until(w, limit),
        ));
    }
}

/// A list answers by its nearest hit if its objects do.
pub proof fn lemma_list_answers_by_nearest(l: crate::hittable_list::HittableList, r: Ray, w: Interval)
    requires
        all_answer_by_nearest(l.objects@, r, w),
    ensures
        answers_by_nearest(Hittable::List(l), r, w),
        spec_hit_time(Hittable::List(l), r, w) == spec_least(
            l.objects@,
            r,
            w,
            l.objects@.len() as int,
        ),
{
    let o = Hittable::List(l);
    let n = l.objects@.len() as int;
    lemma_least_inside(l.objects@, r, w, n);
    lemma_list_reports_least(l.objects@, r, w, w.max, n);
    assert(spec_until(w, w.max) == w);
    assert forall|limit: Fixed| limit@ <= w.max@ implies #[trigger] spec_hit_time(
        o,
        r,
        spec_until(w, limit),
    ) == spec_cut(spec_hit_time(o, r, w), limit) by {
        lemma_list_reports_least(l.objects@, r, w, limit, n);
    }
}

/// A well-formed tree answers by its nearest hit if its objects do and
/// their boxes show their hits.
pub proof fn lemma_tree_answers_by_nearest(node: BVHNode, r: Ray, w: Interval)
    requires
        node.well_formed(),
        all_answer_by_nearest(node.leaves(), r, w),
        all_boxes_show(node.leaves(), r, w),
    ensures
        answers_by_nearest(Hittable::Bvh(node), r, w),
        spec_hit_time(Hittable::Bvh(node), r, w) == spec_least(
            node.leaves(),
            r,
            w,
            node.leaves().len() as int,
        ),
{
    let o = Hittable::Bvh(node);
    let n = node.leaves().len() as int;
    lemma_least_inside(node.leaves(), r, w, n);
    lemma_tree_reports_least(node, r, w, w.max);
    assert(spec_until(w, w.max) == w);
    assert forall|limit: Fixed| limit@ <= w.max@ implies #[trigger] spec_hit_time(
        o,
        r,
        spec_until(w, limit),
    ) == spec_cut(spec_hit_time(o, r, w), limit) by {
        lemma_tree_reports_least(node, r, w, limit);
    }
}

/// Whether every hierarchy inside `o` is well formed and has, around each
/// of its objects, a box that shows the hits of that object along the ray
/// `r` as it reaches the hierarchy.
pub open spec fn boxes_show_within(o: Hittable, r: Ray, w: Interval) -> bool
    decreases o,
{
    match o {
        Hittable::Translate(t) => boxes_show_within(*t.object, t.spec_offset_ray(r), w),
        Hittable::RotateY(t) => boxes_show_within(*t.object, t.spec_turned_ray(r), w),
        Hittable::List(l) => all_boxes_show_within(l.objects@, r, w, l.objects@.len() as int),
        Hittable::Bvh(n) => n.well_formed() && tree_boxes_show(n, r, w),
        _ => true,
    }
}

/// `boxes_show_within` of each of the first `n` objects.
pub open spec fn all_boxes_show_within(objects: Seq<Hittable>, r: Ray, w: Interval, n: int) -> bool
    decreases objects, n,
{
    if n <= 0 || n > objects.len() {
        true
    } else {
        all_boxes_show_within(objects, r, w, n - 1) && boxes_show_within(objects[n - 1], r, w)
    }
}

/// Whether the box of each object of the tree shows the hits of the
/// object, and `boxes_show_within` holds of each.
pub open spec fn tree_boxes_show(node: BVHNode, r: Ray, w: Interval) -> bool
    decreases node,
{
    match node {
        BVHNode::Leaf { object, .. } => boxes_show_within(*object, r, w) && box_shows(*object, r, w),
        BVHNode::Internal { left, right, .. } => tree_boxes_show(*left, r, w) && tree_boxes_show(
            *right,
            r,
            w,
        ),
    }
}

/// What holds of the first `n` objects holds of object `i` among them.
pub proof fn lemma_all_boxes_show_within_at(
    objects: Seq<Hittable>,
    r: Ray,
    w: Interval,
    n: int,
    i: int,
)
    requires
        0 <= i < n <= objects.len(),
        all_boxes_show_within(objects, r, w, n),
    ensures
        boxes_show_within(objects[i], r, w),
    decreases n,
{
    if i < n - 1 {
        lemma_all_boxes_show_within_at(objects, r, w, n - 1, i);
    }
}

/// Every surface answers by its nearest hit: every object whose hits
/// depend on the ray and the window alone, provided that the boxes of the
/// hierarchies inside it show the hits of their objects.
pub proof fn lemma_surface_answers_by_nearest(o: Hittable, r: Ray, w: Interval)
    requires
        o.deterministic(),
        boxes_show_within(o, r, w),
    ensures
        answers_by_nearest(o, r, w),
    decreases o, 1int,
{
    match o {
        Hittable::Sphere(s) => lemma_sphere_answers_by_nearest(s, r, w),
        Hittable::Quad(q) => lemma_quad_answers_by_nearest(q, r, w),
        Hittable::Triangle(t) => lemma_triangle_answers_by_nearest(t, r, w),
        Hittable::ConstantMedium(_) => {},
        Hittable::Translate(t) => {
            lemma_surface_answers_by_nearest(*t.object, t.spec_offset_ray(r), w);
            lemma_moved_answers_by_nearest(t, r, w);
        },
        Hittable::RotateY(t) => {
            lemma_surface_answers_by_nearest(*t.object, t.spec_turned_ray(r), w);
            lemma_turned_answers_by_nearest(t, r, w);
        },
        Hittable::List(l) => {
            let objects = l.objects@;
            assert forall|i: int| 0 <= i < objects.len() implies answers_by_nearest(
                #[trigger] objects[i],
                r,
                w,
            ) by {
                crate::hittable_list::lemma_all_deterministic_at(objects, objects.len() as int, i);
                lemma_all_boxes_show_within_at(objects, r, w, objects.len() as int, i);
                assert(decreases_to!(o => l));
                assert(decreases_to!(l => l.objects));
                vstd::std_specs::vec::axiom_vec_index_decreases(l.objects, i);
                lemma_surface_answers_by_nearest(objects[i], r, w);
            }
            lemma_list_answers_by_nearest(l, r, w);
        },
        Hittable::Bvh(n) => {
            lemma_tree_objects_answer(n, r, w);
            lemma_tree_answers_by_nearest(n, r, w);
        },
    }
}

/// The objects of a tree of surfaces answer by their nearest hits, and
/// their boxes show their hits, where `tree_boxes_show` holds.
pub proof fn lemma_tree_objects_answer(node: BVHNode, r: Ray, w: Interval)
    requires
        node.deterministic(),
        tree_boxes_show(node, r, w),
    ensures
        all_answer_by_nearest(node.leaves(), r, w),
        all_boxes_show(node.leaves(), r, w),
    decreases node, 0int,
{
    match node {
        BVHNode::Leaf { object, bbox } => {
            lemma_surface_answers_by_nearest(*object, r, w);
            assert(node.leaves()[0] == *object);
        },
        BVHNode::Internal { left, right, bbox } => {
            lemma_tree_objects_answer(*left, r, w);
            lemma_tree_objects_answer(*right, r, w);
            let a = left.leaves();
            let b = right.leaves();
            assert forall|i: int| 0 <= i < node.leaves().len() implies answers_by_nearest(
                #[trigger] node.leaves()[i],
                r,
                w,
            ) && box_shows(node.leaves()[i], r, w) by {
                if i < a.len() {
                    assert(node.leaves()[i] == a[i]);
                } else {
                    assert(node.leaves()[i] == b[i - a.len()]);
                }
            }
        },
    }
}

/// Whether each of `objects` is a surface whose box shows its hits along
/// `r` inside `w`, and so do the boxes of the hierarchies inside it.
pub open spec fn are_shown_surfaces(objects: Seq<Hittable>, r: Ray, w: Interval) -> bool {
    forall|i: int|
        0 <= i < objects.len() ==> {
            &&& (#[trigger] objects[i]).deterministic()
            &&& boxes_show_within(objects[i], r, w)
            &&& box_shows(objects[i], r, w)
        }
}

/// A hierarchy over surfaces finds what a list of them finds. For a
/// well-formed tree whose objects are those of a list, in whatever order:
/// if every object is a surface and every box shows the hits of its object,
/// the tree and the list report hits at the same ray parameter, or both
/// report none.
pub proof fn lemma_hierarchy_of_surfaces_agrees_with_list(
    node: BVHNode,
    objects: Seq<Hittable>,
    r: Ray,
    w: Interval,
)
    requires
        node.well_formed(),
        node.leaves().to_multiset() == objects.to_multiset(),
        are_shown_surfaces(objects, r, w),
    ensures
        spec_time(node.spec_hit(r, w)) == spec_time(
            spec_closest(objects, r, w, objects.len() as int),
        ),
{
    assert forall|i: int| 0 <= i < objects.len() implies answers_by_nearest(
        #[trigger] objects[i],
        r,
        w,
    ) && box_shows(objects[i], r, w) by {
        lemma_surface_answers_by_nearest(objects[i], r, w);
    }
    lemma_hierarchy_agrees_with_list(node, objects, r, w);
}

} // verus!
