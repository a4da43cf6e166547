//! Moved and turned objects: the ray is carried into the frame of the
//! object, and the hit is carried back.

use crate::aabb::AABB;
use crate::drawn::are_fractions;
use crate::fixed::Fixed;
use crate::hit_record::HitRecord;
use crate::hittable::Hittable;
use crate::interval::Interval;
use crate::ray::Ray;
use crate::trig::{degrees_to_radians, sin_cos, spec_degrees_to_radians, spec_sin_cos};
use crate::vec3::{dot, Point3, Vec3};
use vstd::prelude::*;

verus! {

/// `object` moved by `offset`.
pub struct Translate {
    pub object: Box<Hittable>,
    pub offset: Vec3,
    pub bbox: AABB,
}

/// `object` turned about the y axis by the angle with sine `sin_theta` and
/// cosine `cos_theta`.
pub struct RotateY {
    pub object: Box<Hittable>,
    pub sin_theta: Fixed,
    pub cos_theta: Fixed,
    pub bbox: AABB,
}

impl Translate {
    /// The ray as seen from the object: its origin moved back by the
    /// offset.
    pub open spec fn spec_offset_ray(&self, r: Ray) -> Ray {
        Ray { origin: r.origin.sub(self.offset), direction: r.direction, time: r.time }
    }

    /// The hit of the object carried back: its point moved by the offset.
    pub open spec fn spec_carry_back<'a>(&self, rec: HitRecord<'a>) -> HitRecord<'a> {
        HitRecord {
            p: rec.p.add(self.offset),
            normal: rec.normal,
            mat: rec.mat,
            t: rec.t,
            u: rec.u,
            v: rec.v,
            front_face: rec.front_face,
        }
    }

    pub fn new(object: Box<Hittable>, offset: Vec3) -> (r: Translate)
        ensures
            r.object == object,
            r.offset == offset,
            r.bbox == object.spec_bounding_box().spec_translate(offset),
    {
        let bbox = object.bounding_box().translate(offset);
        Translate { object, offset, bbox }
    }

    /// The hit of `r` on the moved object: the hit of the object on the
    /// ray moved back, with its point moved.
    pub fn hit<'a>(&'a self, r: &Ray, ray_t: Interval) -> (hit: Option<HitRecord<'a>>)
        ensures
            Hittable::Translate(*self).could_report(*r, ray_t, hit),
            self.object.deterministic() ==> hit == Hittable::Translate(*self).spec_hit(*r, ray_t),
            self.object.deterministic() ==> (hit matches Some(rec) ==> ray_t.min@ < rec.t@
                < ray_t.max@),
            self.object.opposes_rays() ==> (hit matches Some(rec) ==> dot(r.direction, rec.normal)@
                <= 0),
        decreases self,
    {
        let ghost none = Seq::<Fixed>::empty();
        let offset_r = Ray::new(r.origin().sub(self.offset), r.direction(), r.time());
        let inner = self.object.hit(&offset_r, ray_t);
        let ghost d = choose|d: Seq<Fixed>|
            are_fractions(d) && #[trigger] self.object.spec_hit_drawn(offset_r, ray_t, d) == Some(
                (inner, none),
            );
        let hit = match inner {
            Some(rec) => Some(
                HitRecord::new(
                    rec.p.add(self.offset),
                    rec.normal,
                    rec.mat,
                    rec.t,
                    rec.u,
                    rec.v,
                    rec.front_face,
                ),
            ),
            None => None,
        };
        assert(Hittable::Translate(*self).spec_hit_drawn(*r, ray_t, d) == Some((hit, none)));
        hit
    }
}

/// The point `v` turned about the y axis by the angle with sine `s` and
/// cosine `c`, backwards: `(c·x - s·z, y, s·x + c·z)`.
pub open spec fn spec_turn_back(v: Vec3, s: Fixed, c: Fixed) -> Vec3 {
    Vec3 { x: c.mul(v.x).sub(s.mul(v.z)), y: v.y, z: s.mul(v.x).add(c.mul(v.z)) }
}

/// The point `v` turned about the y axis by the angle with sine `s` and
/// cosine `c`: `(c·x + s·z, y, -s·x + c·z)`.
pub open spec fn spec_turn(v: Vec3, s: Fixed, c: Fixed) -> Vec3 {
    Vec3 { x: c.mul(v.x).add(s.mul(v.z)), y: v.y, z: s.neg().mul(v.x).add(c.mul(v.z)) }
}

#[verifier::when_used_as_spec(spec_turn_back)]
pub fn turn_back(v: Vec3, s: Fixed, c: Fixed) -> (r: Vec3)
    ensures
        r == spec_turn_back(v, s, c),
{
    Vec3::new(c.mul(v.x).sub(s.mul(v.z)), v.y, s.mul(v.x).add(c.mul(v.z)))
}

#[verifier::when_used_as_spec(spec_turn)]
pub fn turn(v: Vec3, s: Fixed, c: Fixed) -> (r: Vec3)
    ensures
        r == spec_turn(v, s, c),
{
    Vec3::new(c.mul(v.x).add(s.mul(v.z)), v.y, s.neg().mul(v.x).add(c.mul(v.z)))
}

/// Corner `n = 4i + 2j + k` of the box: the far end along x where `i = 1`,
/// along y where `j = 1`, along z where `k = 1`, and the near end elsewhere.
pub open spec fn spec_corner(b: AABB, n: int) -> Point3 {
    Vec3 {
        x: if n / 4 == 1 {
            b.x.max
        } else {
            b.x.min
        },
        y: if (n / 2) % 2 == 1 {
            b.y.max
        } else {
            b.y.min
        },
        z: if n % 2 == 1 {
            b.z.max
        } else {
            b.z.min
        },
    }
}

/// The box of the first `n` corners of `b`, each turned about the y axis.
pub open spec fn spec_turned_box(b: AABB, s: Fixed, c: Fixed, n: int) -> AABB
    decreases n,
{
    if n <= 0 {
        AABB::spec_empty()
    } else {
        let tester = spec_turn(spec_corner(b, n - 1), s, c);
        AABB::spec_from_aabb(
            spec_turned_box(b, s, c, n - 1),
            AABB::spec_from_points(tester, tester),
        )
    }
}

fn turned_box(b: AABB, s: Fixed, c: Fixed) -> (r: AABB)
    ensures
        r == spec_turned_box(b, s, c, 8),
{
    let mut acc = AABB::empty();
    let mut n: usize = 0;
    while n < 8
        invariant
            n <= 8,
            acc == spec_turned_box(b, s, c, n as int),
        decreases 8 - n,
    {
        let corner = Vec3::new(
            if n / 4 == 1 {
                b.x.max
            } else {
                b.x.min
            },
            if (n / 2) % 2 == 1 {
                b.y.max
            } else {
                b.y.min
            },
            if n % 2 == 1 {
                b.z.max
            } else {
                b.z.min
            },
        );
        let tester = turn(corner, s, c);
        acc = AABB::from_aabb(acc, AABB::from_points(tester, tester));
        n += 1;
    }
    acc
}

impl RotateY {
    /// The ray as seen from the object: origin and direction turned back.
    pub open spec fn spec_turned_ray(&self, r: Ray) -> Ray {
        Ray {
            origin: spec_turn_back(r.origin, self.sin_theta, self.cos_theta),
            direction: spec_turn_back(r.direction, self.sin_theta, self.cos_theta),
            time: r.time,
        }
    }

    /// The hit of the object carried back: its point and normal turned.
    pub open spec fn spec_carry_back<'a>(&self, rec: HitRecord<'a>) -> HitRecord<'a> {
        HitRecord {
            p: spec_turn(rec.p, self.sin_theta, self.cos_theta),
            normal: spec_turn(rec.normal, self.sin_theta, self.cos_theta),
            mat: rec.mat,
            t: rec.t,
            u: rec.u,
            v: rec.v,
            front_face: rec.front_face,
        }
    }

    /// `object` turned about the y axis by `angle` degrees. The box is the
    /// box of the eight turned corners of the box of the object.
    pub fn new(object: Box<Hittable>, angle: Fixed) -> (r: RotateY)
        ensures
            r.object == object,
            (r.sin_theta, r.cos_theta) == spec_sin_cos(spec_degrees_to_radians(angle)),
            r.bbox == spec_turned_box(object.spec_bounding_box(), r.sin_theta, r.cos_theta, 8),
    {
        let radians = degrees_to_radians(angle);
        let (sin_theta, cos_theta) = sin_cos(radians);
        let bbox = turned_box(object.bounding_box(), sin_theta, cos_theta);
        RotateY { object, sin_theta, cos_theta, bbox }
    }

    /// The hit of `r` on the turned object: the hit of the object on the
    /// ray turned back, with its point and normal turned.
    pub fn hit<'a>(&'a self, r: &Ray, ray_t: Interval) -> (hit: Option<HitRecord<'a>>)
        ensures
            Hittable::RotateY(*self).could_report(*r, ray_t, hit),
            self.object.deterministic() ==> hit == Hittable::RotateY(*self).spec_hit(*r, ray_t),
            self.object.deterministic() ==> (hit matches Some(rec) ==> ray_t.min@ < rec.t@
                < ray_t.max@),
        decreases self,
    {
        let ghost none = Seq::<Fixed>::empty();
        let rotated_r = Ray::new(
            turn_back(r.origin(), self.sin_theta, self.cos_theta),
            turn_back(r.direction(), self.sin_theta, self.cos_theta),
            r.time(),
        );
        let inner = self.object.hit(&rotated_r, ray_t);
        let ghost d = choose|d: Seq<Fixed>|
            are_fractions(d) && #[trigger] self.object.spec_hit_drawn(rotated_r, ray_t, d) == Some(
                (inner, none),
            );
        let hit = match inner {
            Some(rec) => Some(
                HitRecord::new(
                    turn(rec.p, self.sin_theta, self.cos_theta),
                    turn(rec.normal, self.sin_theta, self.cos_theta),
                    rec.mat,
                    rec.t,
                    rec.u,
                    rec.v,
                    rec.front_face,
                ),
            ),
            None => None,
        };
        assert(Hittable::RotateY(*self).spec_hit_drawn(*r, ray_t, d) == Some((hit, none)));
        hit
    }
}

/// Whether the coordinate `x` can be moved by `d` and back without leaving
/// the range of the numbers.
pub open spec fn moves_exactly(x: Fixed, d: Fixed) -> bool {
    x.wf() && d.wf() && -crate::fixed::MAX_RAW <= x@ + d@ <= crate::fixed::MAX_RAW
}

/// Whether the point `p` can be moved by `delta` and back without leaving
/// the range of the numbers.
pub open spec fn point_moves_exactly(p: Point3, delta: Vec3) -> bool {
    moves_exactly(p.x, delta.x) && moves_exactly(p.y, delta.y) && moves_exactly(p.z, delta.z)
}

/// `o` moved by `delta`, with the box `bbox`.
pub open spec fn spec_moved(o: Hittable, delta: Vec3, bbox: AABB) -> Hittable {
    Hittable::Translate(Translate { object: Box::new(o), offset: delta, bbox })
}

/// Moving an object and moving it back changes no hit. For every ray whose
/// origin can be moved by `delta` and back without leaving the range of
/// the numbers, and whose hit on the object, if it has one, can be too:
/// the object moved by `delta` and then by `-delta` has the hit that the
/// object has, whatever the boxes of the two moves.
pub proof fn lemma_move_there_and_back(
    o: Hittable,
    delta: Vec3,
    box_there: AABB,
    box_back: AABB,
    r: Ray,
    ray_t: Interval,
)
    requires
        point_moves_exactly(r.origin, delta),
        o.spec_hit(r, ray_t) matches Some(rec) ==> point_moves_exactly(rec.p, delta),
    ensures
        spec_moved(spec_moved(o, delta, box_there), delta.spec_neg(), box_back).spec_hit(r, ray_t)
            == o.spec_hit(r, ray_t),
{
    let there = Translate { object: Box::new(o), offset: delta, bbox: box_there };
    let back = Translate {
        object: Box::new(Hittable::Translate(there)),
        offset: delta.spec_neg(),
        bbox: box_back,
    };
    let outer_ray = back.spec_offset_ray(r);
    let inner_ray = there.spec_offset_ray(outer_ray);
    lemma_point_there_and_back(r.origin, delta);
    assert(inner_ray == r);
    let hit = o.spec_hit(r, ray_t);
    let hit_there = Hittable::Translate(there).spec_hit(outer_ray, ray_t);
    assert(hit_there == match hit {
        Some(rec) => Some(there.spec_carry_back(rec)),
        None => None,
    });
    match hit {
        Some(rec) => {
            lemma_point_there_and_back(rec.p, delta);
            assert(back.spec_carry_back(there.spec_carry_back(rec)) == rec);
        },
        None => {},
    }
}

/// Moving an object and moving it back changes no hit, whatever the media
/// in it draw. For every ray whose origin can be moved by `delta` and back
/// without leaving the range of the numbers, and whose hit on the object
/// for the fractions `draws`, if it has one, can be too: the object moved
/// by `delta` and then by `-delta` has, for these fractions, the hit that
/// the object has, and leaves the same of them.
pub proof fn lemma_move_there_and_back_drawn(
    o: Hittable,
    delta: Vec3,
    box_there: AABB,
    box_back: AABB,
    r: Ray,
    ray_t: Interval,
    draws: Seq<Fixed>,
)
    requires
        point_moves_exactly(r.origin, delta),
        o.spec_hit_drawn(r, ray_t, draws) matches Some((Some(rec), _)) ==> point_moves_exactly(
            rec.p,
            delta,
        ),
    ensures
        spec_moved(spec_moved(o, delta, box_there), delta.spec_neg(), box_back).spec_hit_drawn(
            r,
            ray_t,
            draws,
        ) == o.spec_hit_drawn(r, ray_t, draws),
{
    let there = Translate { object: Box::new(o), offset: delta, bbox: box_there };
    let back = Translate {
        object: Box::new(Hittable::Translate(there)),
        offset: delta.spec_neg(),
        bbox: box_back,
    };
    let outer_ray = back.spec_offset_ray(r);
    let inner_ray = there.spec_offset_ray(outer_ray);
    lemma_point_there_and_back(r.origin, delta);
    assert(inner_ray == r);
    let outcome = o.spec_hit_drawn(r, ray_t, draws);
    let outcome_there = Hittable::Translate(there).spec_hit_drawn(outer_ray, ray_t, draws);
    assert(outcome_there == match outcome {
        None => None,
        Some((None, rest)) => Some((None, rest)),
        Some((Some(rec), rest)) => Some((Some(there.spec_carry_back(rec)), rest)),
    });
    match outcome {
        Some((Some(rec), _)) => {
            lemma_point_there_and_back(rec.p, delta);
            assert(back.spec_carry_back(there.spec_carry_back(rec)) == rec);
        },
        _ => {},
    }
}

/// A point moved by `delta` and back is where it was, in either order of
/// the two moves.
pub proof fn lemma_point_there_and_back(p: Point3, delta: Vec3)
    requires
        point_moves_exactly(p, delta),
    ensures
        p.spec_sub(delta.spec_neg()).spec_sub(delta) == p,
        p.spec_add(delta).spec_add(delta.spec_neg()) == p,
{
}

} // verus!
