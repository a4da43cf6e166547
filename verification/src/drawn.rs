//! Hits as a function of what the media draw.
//!
//! A medium draws the depth at which it scatters a ray, so what a ray hits
//! in a world with media is not a function of the ray and the window alone.
//! It is a function of these and of the fractions that the media draw, in
//! the order in which the media are met.

use crate::bvh::BVHNode;
use crate::constant_medium::ConstantMedium;
use crate::fixed::{Fixed, ONE_RAW};
use crate::hit_record::HitRecord;
use crate::hittable::Hittable;
use crate::hittable_list::{spec_all_deterministic, spec_closest, spec_closest_so_far};
use crate::interval::Interval;
use crate::ray::Ray;
use vstd::prelude::*;

verus! {

/// Whether every one of `draws` is a fraction of `[0, 1)`.
pub open spec fn are_fractions(draws: Seq<Fixed>) -> bool {
    forall|i: int| 0 <= i < draws.len() ==> 0 <= (#[trigger] draws[i])@ < ONE_RAW
}

/// The hit of an outcome.
pub open spec fn outcome_hit<'a>(outcome: Option<(Option<HitRecord<'a>>, Seq<Fixed>)>) -> Option<
    HitRecord<'a>,
> {
    match outcome {
        Some((hit, _)) => hit,
        None => None,
    }
}

/// The draws that an outcome leaves.
pub open spec fn outcome_rest(outcome: Option<(Option<HitRecord>, Seq<Fixed>)>) -> Seq<Fixed> {
    match outcome {
        Some((_, rest)) => rest,
        None => Seq::empty(),
    }
}

/// Whether `later` is `earlier` with `more` draws behind it: the same hit,
/// and `more` behind what was left.
pub open spec fn is_outcome_with_more(
    earlier: Option<(Option<HitRecord>, Seq<Fixed>)>,
    later: Option<(Option<HitRecord>, Seq<Fixed>)>,
    more: Seq<Fixed>,
) -> bool {
    earlier is Some ==> later == Some((outcome_hit(earlier), outcome_rest(earlier) + more))
}

/// Where a ray scatters in the medium that it enters at `t_enter` and
/// leaves at `t_exit`, with the first of `draws` for the fraction that
/// picks the depth, and the draws behind it. There is no outcome without a
/// draw.
#[verifier::opaque]
pub open spec fn spec_scatter_drawn<'a>(
    m: &'a ConstantMedium,
    r: Ray,
    ray_t: Interval,
    t_enter: Fixed,
    t_exit: Fixed,
    draws: Seq<Fixed>,
) -> Option<(Option<HitRecord<'a>>, Seq<Fixed>)> {
    if draws.len() == 0 {
        None
    } else {
        Some(
            (
                m.spec_scatter_between(r, ray_t, t_enter, t_exit, draws[0]),
                draws.subrange(1, draws.len() as int),
            ),
        )
    }
}

/// `lemma_more_draws` for the scattering in a medium.
pub proof fn lemma_more_draws_to_scatter(
    m: &ConstantMedium,
    r: Ray,
    ray_t: Interval,
    t_enter: Fixed,
    t_exit: Fixed,
    draws: Seq<Fixed>,
    more: Seq<Fixed>,
)
    ensures
        is_outcome_with_more(
            spec_scatter_drawn(m, r, ray_t, t_enter, t_exit, draws),
            spec_scatter_drawn(m, r, ray_t, t_enter, t_exit, draws + more),
            more,
        ),
{
    reveal(spec_scatter_drawn);
    if draws.len() > 0 {
        assert((draws + more)[0] == draws[0]);
        assert((draws + more).subrange(1, (draws + more).len() as int) =~= draws.subrange(
            1,
            draws.len() as int,
        ) + more);
    }
}

impl Hittable {
    /// The hit of `r` on the object inside the window `ray_t`, and what is
    /// left of `draws`, where each medium that the ray enters and leaves
    /// takes the next of `draws` for the fraction that picks the depth at
    /// which it scatters. There is no outcome where the draws run out.
    pub open spec fn spec_hit_drawn<'a>(&'a self, r: Ray, ray_t: Interval, draws: Seq<Fixed>)
        -> Option<(Option<HitRecord<'a>>, Seq<Fixed>)>
        decreases self,
    {
        match self {
            Hittable::Sphere(s) => Some((s.spec_hit(r, ray_t), draws)),
            Hittable::Quad(q) => Some((q.spec_hit(r, ray_t), draws)),
            Hittable::Triangle(t) => Some((t.spec_hit(r, ray_t), draws)),
            Hittable::ConstantMedium(m) => match m.boundary.spec_hit_drawn(
                r,
                Interval::spec_universe(),
                draws,
            ) {
                None => None,
                Some((None, rest)) => Some((None, rest)),
                Some((Some(rec1), rest1)) => match m.boundary.spec_hit_drawn(
                    r,
                    ConstantMedium::spec_exit_window(rec1.t),
                    rest1,
                ) {
                    None => None,
                    Some((None, rest2)) => Some((None, rest2)),
                    Some((Some(rec2), rest2)) => spec_scatter_drawn(
                        m,
                        r,
                        ray_t,
                        rec1.t,
                        rec2.t,
                        rest2,
                    ),
                },
            },
            Hittable::Translate(t) => match t.object.spec_hit_drawn(
                t.spec_offset_ray(r),
                ray_t,
                draws,
            ) {
                None => None,
                Some((None, rest)) => Some((None, rest)),
                Some((Some(rec), rest)) => Some((Some(t.spec_carry_back(rec)), rest)),
            },
            Hittable::RotateY(t) => match t.object.spec_hit_drawn(
                t.spec_turned_ray(r),
                ray_t,
                draws,
            ) {
                None => None,
                Some((None, rest)) => Some((None, rest)),
                Some((Some(rec), rest)) => Some((Some(t.spec_carry_back(rec)), rest)),
            },
            Hittable::List(l) => spec_closest_drawn(
                l.objects@,
                r,
                ray_t,
                l.objects@.len() as int,
                draws,
            ),
            Hittable::Bvh(n) => n.spec_hit_drawn(r, ray_t, draws),
        }
    }

    /// Whether `hit` is a result that `hit` can return for the ray `r` and
    /// the window `ray_t`: the hit for some fractions drawn by the media,
    /// all of them used.
    pub open spec fn could_report<'a>(&'a self, r: Ray, ray_t: Interval, hit: Option<HitRecord<'a>>)
        -> bool {
        exists|draws: Seq<Fixed>|
            are_fractions(draws) && #[trigger] self.spec_hit_drawn(r, ray_t, draws) == Some(
                (hit, Seq::<Fixed>::empty()),
            )
    }
}

/// The nearest hit among the first `n` objects, and what is left of
/// `draws`: each object is tried in turn inside what the hits before it
/// have left of the window, with what the objects before it have left of
/// the draws.
pub open spec fn spec_closest_drawn<'a>(
    objects: Seq<Hittable>,
    r: Ray,
    ray_t: Interval,
    n: int,
    draws: Seq<Fixed>,
) -> Option<(Option<HitRecord<'a>>, Seq<Fixed>)>
    decreases objects, n,
{
    if n <= 0 || n > objects.len() {
        Some((None, draws))
    } else {
        match spec_closest_drawn(objects, r, ray_t, n - 1, draws) {
            None => None,
            Some((prev, rest)) => {
                let window = Interval { min: ray_t.min, max: spec_closest_so_far(prev, ray_t) };
                match objects[n - 1].spec_hit_drawn(r, window, rest) {
                    None => None,
                    Some((Some(rec), rest2)) => Some((Some(rec), rest2)),
                    Some((None, rest2)) => Some((prev, rest2)),
                }
            },
        }
    }
}

impl BVHNode {
    /// The nearest hit in the tree, and what is left of `draws`. A node
    /// whose box the ray misses has no hit and takes no draw; the right
    /// child is tried after the left one.
    pub open spec fn spec_hit_drawn<'a>(&'a self, r: Ray, ray_t: Interval, draws: Seq<Fixed>)
        -> Option<(Option<HitRecord<'a>>, Seq<Fixed>)>
        decreases self,
    {
        match self {
            BVHNode::Leaf { object, bbox } => if !bbox.spec_hit(r, ray_t) {
                Some((None, draws))
            } else {
                object.spec_hit_drawn(r, ray_t, draws)
            },
            BVHNode::Internal { left, right, bbox } => if !bbox.spec_hit(r, ray_t) {
                Some((None, draws))
            } else {
                match left.spec_hit_drawn(r, ray_t, draws) {
                    None => None,
                    Some((near, rest)) => {
                        let window = Interval {
                            min: ray_t.min,
                            max: spec_closest_so_far(near, ray_t),
                        };
                        match right.spec_hit_drawn(r, window, rest) {
                            None => None,
                            Some((Some(rec), rest2)) => Some((Some(rec), rest2)),
                            Some((None, rest2)) => Some((near, rest2)),
                        }
                    },
                }
            },
        }
    }

    /// Whether `hit` is a result that `hit` can return for the ray `r` and
    /// the window `ray_t`: the hit for some fractions drawn by the media,
    /// all of them used.
    pub open spec fn could_report<'a>(&'a self, r: Ray, ray_t: Interval, hit: Option<HitRecord<'a>>)
        -> bool {
        exists|draws: Seq<Fixed>|
            are_fractions(draws) && #[trigger] self.spec_hit_drawn(r, ray_t, draws) == Some(
                (hit, Seq::<Fixed>::empty()),
            )
    }
}

/// `lemma_more_draws` for a medium, given that it holds for the boundary.
proof fn lemma_more_draws_in_medium(
    m: ConstantMedium,
    r: Ray,
    ray_t: Interval,
    draws: Seq<Fixed>,
    more: Seq<Fixed>,
)
    requires
        is_outcome_with_more(
            m.boundary.spec_hit_drawn(r, Interval::spec_universe(), draws),
            m.boundary.spec_hit_drawn(r, Interval::spec_universe(), draws + more),
            more,
        ),
        m.boundary.spec_hit_drawn(r, Interval::spec_universe(), draws) matches Some(
            (Some(rec1), rest1),
        ) ==> is_outcome_with_more(
            m.boundary.spec_hit_drawn(r, ConstantMedium::spec_exit_window(rec1.t), rest1),
            m.boundary.spec_hit_drawn(r, ConstantMedium::spec_exit_window(rec1.t), rest1 + more),
            more,
        ),
    ensures
        is_outcome_with_more(
            Hittable::ConstantMedium(m).spec_hit_drawn(r, ray_t, draws),
            Hittable::ConstantMedium(m).spec_hit_drawn(r, ray_t, draws + more),
            more,
        ),
{
    match m.boundary.spec_hit_drawn(r, Interval::spec_universe(), draws) {
        Some((Some(rec1), rest1)) => {
            let w = ConstantMedium::spec_exit_window(rec1.t);
            match m.boundary.spec_hit_drawn(r, w, rest1) {
                Some((Some(rec2), rest2)) => {
                    lemma_more_draws_to_scatter(&m, r, ray_t, rec1.t, rec2.t, rest2, more);
                },
                _ => {},
            }
        },
        _ => {},
    }
}

/// Draws that are not needed are left over: with more draws behind those
/// given, the hit is the same and the more draws are left behind what was
/// left before.
pub proof fn lemma_more_draws(o: Hittable, r: Ray, ray_t: Interval, draws: Seq<Fixed>, more: Seq<Fixed>)
    ensures
        is_outcome_with_more(
            o.spec_hit_drawn(r, ray_t, draws),
            o.spec_hit_drawn(r, ray_t, draws + more),
            more,
        ),
    decreases o, 0int,
{
    match o {
        Hittable::Sphere(_) => {},
        Hittable::Quad(_) => {},
        Hittable::Triangle(_) => {},
        Hittable::ConstantMedium(m) => {
            let b = *m.boundary;
            lemma_more_draws(b, r, Interval::spec_universe(), draws, more);
            match b.spec_hit_drawn(r, Interval::spec_universe(), draws) {
                Some((Some(rec1), rest1)) => {
                    lemma_more_draws(b, r, ConstantMedium::spec_exit_window(rec1.t), rest1, more);
                },
                _ => {},
            }
            lemma_more_draws_in_medium(m, r, ray_t, draws, more);
        },
        Hittable::Translate(t) => {
            lemma_more_draws(*t.object, t.spec_offset_ray(r), ray_t, draws, more);
        },
        Hittable::RotateY(t) => {
            lemma_more_draws(*t.object, t.spec_turned_ray(r), ray_t, draws, more);
        },
        Hittable::List(l) => {
            assert(decreases_to!(o => l));
            assert(decreases_to!(l => l.objects));
            lemma_more_draws_in_list(l.objects, r, ray_t, l.objects@.len() as int, draws, more);
        },
        Hittable::Bvh(n) => {
            lemma_more_draws_in_tree(n, r, ray_t, draws, more);
        },
    }
}

/// `lemma_more_draws` for the first `n` objects of a list.
pub proof fn lemma_more_draws_in_list(
    objects: Vec<Hittable>,
    r: Ray,
    ray_t: Interval,
    n: int,
    draws: Seq<Fixed>,
    more: Seq<Fixed>,
)
    requires
        0 <= n <= objects@.len(),
    ensures
        is_outcome_with_more(
            spec_closest_drawn(objects@, r, ray_t, n, draws),
            spec_closest_drawn(objects@, r, ray_t, n, draws + more),
            more,
        ),
    decreases objects, n,
{
    if n > 0 {
        lemma_more_draws_in_list(objects, r, ray_t, n - 1, draws, more);
        match spec_closest_drawn(objects@, r, ray_t, n - 1, draws) {
            Some((prev, rest)) => {
                let window = Interval { min: ray_t.min, max: spec_closest_so_far(prev, ray_t) };
                vstd::std_specs::vec::axiom_vec_index_decreases(objects, n - 1);
                lemma_more_draws(objects@[n - 1], r, window, rest, more);
            },
            None => {},
        }
    }
}

/// `lemma_more_draws` for a tree.
pub proof fn lemma_more_draws_in_tree(
    node: BVHNode,
    r: Ray,
    ray_t: Interval,
    draws: Seq<Fixed>,
    more: Seq<Fixed>,
)
    ensures
        is_outcome_with_more(
            node.spec_hit_drawn(r, ray_t, draws),
            node.spec_hit_drawn(r, ray_t, draws + more),
            more,
        ),
    decreases node, 0int,
{
    match node {
        BVHNode::Leaf { object, bbox } => {
            if bbox.spec_hit(r, ray_t) {
                lemma_more_draws(*object, r, ray_t, draws, more);
            }
        },
        BVHNode::Internal { left, right, bbox } => {
            if bbox.spec_hit(r, ray_t) {
                lemma_more_draws_in_tree(*left, r, ray_t, draws, more);
                match left.spec_hit_drawn(r, ray_t, draws) {
                    Some((near, rest)) => {
                        let window = Interval {
                            min: ray_t.min,
                            max: spec_closest_so_far(near, ray_t),
                        };
                        lemma_more_draws_in_tree(*right, r, window, rest, more);
                    },
                    None => {},
                }
            }
        },
    }
}

/// A surface takes no draw. For an object whose hits depend on the ray
/// and the window alone, the hit for any draws is the hit that `spec_hit`
/// gives, and all of the draws are left.
pub proof fn lemma_surface_takes_no_draw(o: Hittable, r: Ray, ray_t: Interval, draws: Seq<Fixed>)
    requires
        o.deterministic(),
    ensures
        o.spec_hit_drawn(r, ray_t, draws) == Some((o.spec_hit(r, ray_t), draws)),
    decreases o, 0int,
{
    match o {
        Hittable::Sphere(_) => {},
        Hittable::Quad(_) => {},
        Hittable::Triangle(_) => {},
        Hittable::ConstantMedium(_) => {},
        Hittable::Translate(t) => {
            lemma_surface_takes_no_draw(*t.object, t.spec_offset_ray(r), ray_t, draws);
        },
        Hittable::RotateY(t) => {
            lemma_surface_takes_no_draw(*t.object, t.spec_turned_ray(r), ray_t, draws);
        },
        Hittable::List(l) => {
            assert(decreases_to!(o => l));
            assert(decreases_to!(l => l.objects));
            lemma_surfaces_take_no_draw(l.objects, r, ray_t, l.objects@.len() as int, draws);
        },
        Hittable::Bvh(n) => {
            lemma_tree_of_surfaces_takes_no_draw(n, r, ray_t, draws);
        },
    }
}

/// `lemma_surface_takes_no_draw` for the first `n` objects of a list.
pub proof fn lemma_surfaces_take_no_draw(
    objects: Vec<Hittable>,
    r: Ray,
    ray_t: Interval,
    n: int,
    draws: Seq<Fixed>,
)
    requires
        0 <= n <= objects@.len(),
        spec_all_deterministic(objects@, n),
    ensures
        spec_closest_drawn(objects@, r, ray_t, n, draws) == Some(
            (spec_closest(objects@, r, ray_t, n), draws),
        ),
    decreases objects, n,
{
    if n > 0 {
        lemma_surfaces_take_no_draw(objects, r, ray_t, n - 1, draws);
        let prev = spec_closest(objects@, r, ray_t, n - 1);
        let window = Interval { min: ray_t.min, max: spec_closest_so_far(prev, ray_t) };
        vstd::std_specs::vec::axiom_vec_index_decreases(objects, n - 1);
        lemma_surface_takes_no_draw(objects@[n - 1], r, window, draws);
    }
}

/// `lemma_surface_takes_no_draw` for a tree.
pub proof fn lemma_tree_of_surfaces_takes_no_draw(
    node: BVHNode,
    r: Ray,
    ray_t: Interval,
    draws: Seq<Fixed>,
)
    requires
        node.deterministic(),
    ensures
        node.spec_hit_drawn(r, ray_t, draws) == Some((node.spec_hit(r, ray_t), draws)),
    decreases node, 0int,
{
    match node {
        BVHNode::Leaf { object, bbox } => {
            lemma_surface_takes_no_draw(*object, r, ray_t, draws);
        },
        BVHNode::Internal { left, right, bbox } => {
            lemma_tree_of_surfaces_takes_no_draw(*left, r, ray_t, draws);
            let near = left.spec_hit(r, ray_t);
            let window = Interval { min: ray_t.min, max: spec_closest_so_far(near, ray_t) };
            lemma_tree_of_surfaces_takes_no_draw(*right, r, window, draws);
        },
    }
}

/// The draws of two runs, one after the other, are fractions if those of
/// each are.
pub proof fn lemma_fractions_together(a: Seq<Fixed>, b: Seq<Fixed>)
    requires
        are_fractions(a),
        are_fractions(b),
    ensures
        are_fractions(a + b),
{
    assert forall|i: int| 0 <= i < (a + b).len() implies 0 <= (#[trigger] (a + b)[i])@
        < ONE_RAW by {
        if i < a.len() {
            assert((a + b)[i] == a[i]);
        } else {
            assert((a + b)[i] == b[i - a.len()]);
        }
    }
}

/// A medium whose boundary the ray does not enter reports nothing.
pub proof fn lemma_medium_is_missed(m: ConstantMedium, r: Ray, ray_t: Interval, d1: Seq<Fixed>)
    requires
        are_fractions(d1),
        m.boundary.spec_hit_drawn(r, Interval::spec_universe(), d1) == Some(
            (None::<HitRecord>, Seq::<Fixed>::empty()),
        ),
    ensures
        Hittable::ConstantMedium(m).could_report(r, ray_t, None),
{
    assert(Hittable::ConstantMedium(m).spec_hit_drawn(r, ray_t, d1) == Some(
        (None::<HitRecord>, Seq::<Fixed>::empty()),
    ));
}

/// A medium whose boundary the ray enters and does not leave reports
/// nothing.
pub proof fn lemma_medium_is_not_left(
    m: ConstantMedium,
    r: Ray,
    ray_t: Interval,
    rec1: HitRecord,
    d1: Seq<Fixed>,
    d2: Seq<Fixed>,
)
    requires
        are_fractions(d1),
        are_fractions(d2),
        m.boundary.spec_hit_drawn(r, Interval::spec_universe(), d1) == Some(
            (Some(rec1), Seq::<Fixed>::empty()),
        ),
        m.boundary.spec_hit_drawn(r, ConstantMedium::spec_exit_window(rec1.t), d2) == Some(
            (None::<HitRecord>, Seq::<Fixed>::empty()),
        ),
    ensures
        Hittable::ConstantMedium(m).could_report(r, ray_t, None),
{
    let none = Seq::<Fixed>::empty();
    lemma_more_draws(*m.boundary, r, Interval::spec_universe(), d1, d2);
    lemma_fractions_together(d1, d2);
    assert(none + d2 =~= d2);
    assert(Hittable::ConstantMedium(m).spec_hit_drawn(r, ray_t, d1 + d2) == Some(
        (None::<HitRecord>, none),
    ));
}

/// A medium whose boundary the ray enters and leaves reports where the ray
/// scatters for the fraction drawn.
pub proof fn lemma_medium_scatters(
    m: ConstantMedium,
    r: Ray,
    ray_t: Interval,
    rec1: HitRecord,
    rec2: HitRecord,
    d1: Seq<Fixed>,
    d2: Seq<Fixed>,
    u: Fixed,
)
    requires
        are_fractions(d1),
        are_fractions(d2),
        0 <= u@ < ONE_RAW,
        m.boundary.spec_hit_drawn(r, Interval::spec_universe(), d1) == Some(
            (Some(rec1), Seq::<Fixed>::empty()),
        ),
        m.boundary.spec_hit_drawn(r, ConstantMedium::spec_exit_window(rec1.t), d2) == Some(
            (Some(rec2), Seq::<Fixed>::empty()),
        ),
    ensures
        Hittable::ConstantMedium(m).could_report(
            r,
            ray_t,
            m.spec_scatter_between(r, ray_t, rec1.t, rec2.t, u),
        ),
{
    let none = Seq::<Fixed>::empty();
    let window = ConstantMedium::spec_exit_window(rec1.t);
    let last = seq![u];
    let tail = d2 + last;
    lemma_fractions_together(d2, last);
    lemma_fractions_together(d1, tail);
    lemma_more_draws(*m.boundary, r, Interval::spec_universe(), d1, tail);
    lemma_more_draws(*m.boundary, r, window, d2, last);
    assert(none + tail =~= tail);
    assert(none + last =~= last);
    reveal(spec_scatter_drawn);
    assert(last.subrange(1, last.len() as int) =~= none);
    assert(spec_scatter_drawn(&m, r, ray_t, rec1.t, rec2.t, last) == Some(
        (m.spec_scatter_between(r, ray_t, rec1.t, rec2.t, u), none),
    ));
    assert(Hittable::ConstantMedium(m).spec_hit_drawn(r, ray_t, d1 + tail) == Some(
        (m.spec_scatter_between(r, ray_t, rec1.t, rec2.t, u), none),
    ));
}

} // verus!
