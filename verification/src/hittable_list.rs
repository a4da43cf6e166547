//! A list of objects, hit as one: the nearest hit wins.

use crate::aabb::AABB;
use crate::drawn::{
    are_fractions, lemma_fractions_together, lemma_more_draws_in_list, spec_closest_drawn,
};
use crate::fixed::Fixed;
use crate::hit_record::HitRecord;
use crate::hittable::Hittable;
use crate::interval::Interval;
use crate::ray::Ray;
use crate::sampling::random_index;
use crate::vec3::{dot, spec_x_axis, Point3, Vec3};
use vstd::prelude::*;

verus! {

/// The objects in the order in which they were added, with a box that
/// holds every object ever added.
pub struct HittableList {
    pub objects: Vec<Hittable>,
    pub bbox: AABB,
}

/// Whether the hits of each of the first `n` objects depend on the ray and
/// the window alone.
pub open spec fn spec_all_deterministic(objects: Seq<Hittable>, n: int) -> bool
    decreases objects, n,
{
    if n <= 0 || n > objects.len() {
        true
    } else {
        spec_all_deterministic(objects, n - 1) && objects[n - 1].deterministic()
    }
}

/// Whether each of the first `n` objects returns normals turned against
/// the ray.
pub open spec fn spec_all_oppose_rays(objects: Seq<Hittable>, n: int) -> bool
    decreases objects, n,
{
    if n <= 0 || n > objects.len() {
        true
    } else {
        spec_all_oppose_rays(objects, n - 1) && objects[n - 1].opposes_rays()
    }
}

/// The far end of the window left for the next object: the parameter of
/// the nearest hit so far, or the far end of the whole window.
pub open spec fn spec_closest_so_far(prev: Option<HitRecord>, ray_t: Interval) -> Fixed {
    match prev {
        Some(rec) => rec.t,
        None => ray_t.max,
    }
}

/// The nearest hit of `r` inside the window `ray_t` among the first `n`
/// objects. Each object is tried in turn inside what the hits before it
/// have left of the window, so of two hits at one parameter the earlier
/// object's stays.
pub open spec fn spec_closest<'a>(objects: Seq<Hittable>, r: Ray, ray_t: Interval, n: int)
    -> Option<HitRecord<'a>>
    decreases objects, n,
{
    if n <= 0 || n > objects.len() {
        None
    } else {
        let prev = spec_closest(objects, r, ray_t, n - 1);
        let window = Interval { min: ray_t.min, max: spec_closest_so_far(prev, ray_t) };
        match objects[n - 1].spec_hit(r, window) {
            Some(rec) => Some(rec),
            None => prev,
        }
    }
}

/// The sum over the first `n` objects of `weight` times the density of
/// each at `direction`.
pub open spec fn spec_density_sum(
    objects: Seq<Hittable>,
    weight: Fixed,
    origin: Point3,
    direction: Vec3,
    n: int,
) -> Fixed
    decreases objects, n,
{
    if n <= 0 || n > objects.len() {
        Fixed::zero()
    } else {
        spec_density_sum(objects, weight, origin, direction, n - 1).add(
            weight.mul(objects[n - 1].spec_pdf_value(origin, direction)),
        )
    }
}

/// Whether one of the first `n` objects can pick `direction` from
/// `origin`.
pub open spec fn spec_any_could_pick(
    objects: Seq<Hittable>,
    origin: Point3,
    direction: Vec3,
    n: int,
) -> bool
    decreases objects, n,
{
    if n <= 0 || n > objects.len() {
        false
    } else {
        spec_any_could_pick(objects, origin, direction, n - 1) || objects[n - 1].could_pick(
            origin,
            direction,
        )
    }
}

/// The smallest box that holds the boxes of the first `n` objects.
pub open spec fn spec_enclosing_box(objects: Seq<Hittable>, n: int) -> AABB
    decreases objects, n,
{
    if n <= 0 || n > objects.len() {
        AABB::spec_empty()
    } else {
        AABB::spec_from_aabb(
            spec_enclosing_box(objects, n - 1),
            objects[n - 1].spec_bounding_box(),
        )
    }
}

/// What holds of the first `n` objects holds of object `i` among them.
pub proof fn lemma_all_deterministic_at(objects: Seq<Hittable>, n: int, i: int)
    requires
        0 <= i < n <= objects.len(),
        spec_all_deterministic(objects, n),
    ensures
        objects[i].deterministic(),
        spec_all_deterministic(objects, i),
        spec_all_deterministic(objects, i + 1),
    decreases n,
{
    if i < n - 1 {
        lemma_all_deterministic_at(objects, n - 1, i);
    } else if i > 0 {
        lemma_all_deterministic_at(objects, n - 1, i - 1);
    }
}

/// What holds of the first `n` objects holds of object `i` among them.
pub proof fn lemma_all_oppose_rays_at(objects: Seq<Hittable>, n: int, i: int)
    requires
        0 <= i < n <= objects.len(),
        spec_all_oppose_rays(objects, n),
    ensures
        objects[i].opposes_rays(),
    decreases n,
{
    if i < n - 1 {
        lemma_all_oppose_rays_at(objects, n - 1, i);
    }
}

/// One of the first `n` objects can pick what object `i` can pick.
pub proof fn lemma_any_could_pick(
    objects: Seq<Hittable>,
    origin: Point3,
    direction: Vec3,
    n: int,
    i: int,
)
    requires
        0 <= i < n <= objects.len(),
        objects[i].could_pick(origin, direction),
    ensures
        spec_any_could_pick(objects, origin, direction, n),
    decreases n,
{
    if i < n - 1 {
        lemma_any_could_pick(objects, origin, direction, n - 1, i);
    }
}

impl HittableList {
    /// The empty list, with the empty box.
    pub fn new() -> (r: HittableList)
        ensures
            r.objects@.len() == 0,
            r.bbox == AABB::spec_empty(),
    {
        HittableList { objects: Vec::new(), bbox: AABB::empty() }
    }

    /// Adds `object` at the end and widens the box to hold it.
    pub fn add(&mut self, object: Hittable)
        ensures
            final(self).objects@ == old(self).objects@.push(object),
            final(self).bbox == AABB::spec_from_aabb(old(self).bbox, object.spec_bounding_box()),
    {
        let object_box = object.bounding_box();
        self.objects.push(object);
        self.bbox = AABB::from_aabb(self.bbox, object_box);
    }

    /// Removes every object. The box stays as it was.
    pub fn clear(&mut self)
        ensures
            final(self).objects@.len() == 0,
            final(self).bbox == old(self).bbox,
    {
        self.objects.clear();
    }

    /// The nearest hit of `r` inside the window `ray_t` among the objects.
    pub fn hit<'a>(&'a self, r: &Ray, ray_t: Interval) -> (hit: Option<HitRecord<'a>>)
        ensures
            spec_all_deterministic(self.objects@, self.objects@.len() as int) ==> hit
                == spec_closest(self.objects@, *r, ray_t, self.objects@.len() as int),
            spec_all_deterministic(self.objects@, self.objects@.len() as int) ==> (hit matches Some(
                rec,
            ) ==> ray_t.min@ < rec.t@ < ray_t.max@),
            spec_all_oppose_rays(self.objects@, self.objects@.len() as int) ==> (hit matches Some(
                rec,
            ) ==> dot(r.direction, rec.normal)@ <= 0),
            exists|draws: Seq<Fixed>|
                are_fractions(draws) && #[trigger] spec_closest_drawn(
                    self.objects@,
                    *r,
                    ray_t,
                    self.objects@.len() as int,
                    draws,
                ) == Some((hit, Seq::<Fixed>::empty())),
        decreases self,
    {
        let mut closest_so_far = ray_t.max;
        let mut closest_hit: Option<HitRecord<'a>> = None;
        let mut i: usize = 0;
        let ghost len = self.objects@.len() as int;
        let ghost none = Seq::<Fixed>::empty();
        let ghost mut used = Seq::<Fixed>::empty();
        while i < self.objects.len()
            invariant
                i <= self.objects@.len(),
                len == self.objects@.len(),
                closest_so_far == spec_closest_so_far(closest_hit, ray_t),
                spec_all_deterministic(self.objects@, len) ==> closest_hit == spec_closest(
                    self.objects@,
                    *r,
                    ray_t,
                    i as int,
                ),
                spec_all_deterministic(self.objects@, len) ==> (closest_hit matches Some(rec)
                    ==> ray_t.min@ < rec.t@ < ray_t.max@),
                spec_all_oppose_rays(self.objects@, len) ==> (closest_hit matches Some(rec) ==> dot(
                    r.direction,
                    rec.normal,
                )@ <= 0),
                none == Seq::<Fixed>::empty(),
                are_fractions(used),
                spec_closest_drawn(self.objects@, *r, ray_t, i as int, used) == Some(
                    (closest_hit, none),
                ),
            decreases self.objects@.len() - i,
        {
            proof {
                assert(decreases_to!(*self => self.objects));
                vstd::std_specs::vec::axiom_vec_index_decreases(self.objects, i as int);
                if spec_all_deterministic(self.objects@, len) {
                    lemma_all_deterministic_at(self.objects@, len, i as int);
                }
                if spec_all_oppose_rays(self.objects@, len) {
                    lemma_all_oppose_rays_at(self.objects@, len, i as int);
                }
            }
            let ghost window = Interval { min: ray_t.min, max: closest_so_far };
            let found = self.objects[i].hit(r, Interval::new(ray_t.min, closest_so_far));
            proof {
                let d = choose|d: Seq<Fixed>|
                    are_fractions(d) && #[trigger] self.objects@[i as int].spec_hit_drawn(
                        *r,
                        window,
                        d,
                    ) == Some((found, none));
                lemma_more_draws_in_list(self.objects, *r, ray_t, i as int, used, d);
                lemma_fractions_together(used, d);
                assert(none + d =~= d);
                used = used + d;
            }
            if let Some(rec) = found {
                closest_so_far = rec.t;
                closest_hit = Some(rec);
            }
            i += 1;
        }
        closest_hit
    }

    pub fn bounding_box(&self) -> (r: AABB)
        ensures
            r == self.bbox,
    {
        self.bbox
    }

    pub fn pdf_value(&self, origin: Point3, direction: Vec3) -> (r: Fixed)
        ensures
            r == self.spec_pdf_value(origin, direction),
        decreases self,
    {
        let weight = Fixed::one().div(Fixed::from_count(self.objects.len()));
        let mut sum = Fixed::zero();
        let mut i: usize = 0;
        while i < self.objects.len()
            invariant
                i <= self.objects@.len(),
                sum == spec_density_sum(self.objects@, weight, origin, direction, i as int),
            decreases self.objects@.len() - i,
        {
            proof {
                assert(decreases_to!(*self => self.objects));
                vstd::std_specs::vec::axiom_vec_index_decreases(self.objects, i as int);
            }
            sum = sum.add(weight.mul(self.objects[i].pdf_value(origin, direction)));
            i += 1;
        }
        sum
    }

    /// A direction from `origin` toward an object drawn uniformly from the
    /// list; the x axis for the empty list.
    pub fn random(&self, origin: Point3) -> (r: Vec3)
        ensures
            self.could_pick(origin, r),
        decreases self,
    {
        if self.objects.len() == 0 {
            return Vec3::new(Fixed::one(), Fixed::zero(), Fixed::zero());
        }
        let i = random_index(self.objects.len() - 1);
        proof {
            assert(decreases_to!(*self => self.objects));
            vstd::std_specs::vec::axiom_vec_index_decreases(self.objects, i as int);
        }
        let r = self.objects[i].random(origin);
        proof {
            lemma_any_could_pick(self.objects@, origin, r, self.objects@.len() as int, i as int);
        }
        r
    }

    /// The density of the even mixture of the distributions of the objects:
    /// the sum of their densities, each weighted by one over their number.
    pub open spec fn spec_pdf_value(&self, origin: Point3, direction: Vec3) -> Fixed {
        spec_density_sum(
            self.objects@,
            Fixed::one().div(Fixed::spec_from_count(self.objects@.len())),
            origin,
            direction,
            self.objects@.len() as int,
        )
    }

    /// Whether `direction` is one that `random` can return: one that some
    /// object can pick, or the x axis for the empty list.
    pub open spec fn could_pick(&self, origin: Point3, direction: Vec3) -> bool {
        if self.objects@.len() == 0 {
            direction == spec_x_axis()
        } else {
            spec_any_could_pick(self.objects@, origin, direction, self.objects@.len() as int)
        }
    }
}

} // verus!
