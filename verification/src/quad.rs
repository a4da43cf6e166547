//! Parallelograms, and the box made of six of them.

use crate::aabb::AABB;
use crate::fixed::{Fixed, ONE_RAW};
use crate::hit_record::{face_normal, front_face, lemma_face_normal_opposes, HitRecord};
use crate::hittable::Hittable;
use crate::hittable_list::{spec_enclosing_box, HittableList};
use crate::interval::Interval;
use crate::material::Material;
use crate::ray::Ray;
use crate::sampling::random_unit;
use crate::vec3::{cross, dot, unit_vector, Point3, Vec3};
use std::sync::Arc;
use vstd::prelude::*;

verus! {

/// A ray whose direction has a smaller component than this along the
/// normal of a plane counts as parallel to the plane (`1e-8`).
pub const PARALLEL_RAW: i64 = 43;

/// Raw value of 0.001, the nearest parameter at which a ray that leaves a
/// surface may hit something.
pub const SHADOW_EPSILON_RAW: i64 = 4_294_967;

/// The parallelogram with corner `q` and edges `u` and `v`. The other
/// fields are derived from these three: the unit normal, the constant `d`
/// of the plane `normal · p = d`, the vector `w` that turns a point of the
/// plane into its coordinates along the edges, the area and the box.
pub struct Quad {
    pub q: Point3,
    pub u: Vec3,
    pub v: Vec3,
    pub w: Vec3,
    pub mat: Arc<Material>,
    pub bbox: AABB,
    pub normal: Vec3,
    pub d: Fixed,
    pub area: Fixed,
}

/// The box of the four corners of the parallelogram, padded.
pub open spec fn spec_quad_bounding_box(q: Point3, u: Vec3, v: Vec3) -> AABB {
    AABB::spec_from_aabb(
        AABB::spec_from_points(q, q.add(u).add(v)),
        AABB::spec_from_points(q.add(u), q.add(v)),
    ).spec_padded()
}

fn set_bounding_box(q: Point3, u: Vec3, v: Vec3) -> (r: AABB)
    ensures
        r == spec_quad_bounding_box(q, u, v),
{
    let bbox_diagonal1 = AABB::from_points(q, q.add(u).add(v));
    let bbox_diagonal2 = AABB::from_points(q.add(u), q.add(v));
    AABB::from_aabb(bbox_diagonal1, bbox_diagonal2).padded()
}

/// Whether the plane coordinates `(a, b)` lie in the parallelogram: both
/// in `[0, 1]`.
pub open spec fn spec_is_interior(a: Fixed, b: Fixed) -> bool {
    0 <= a@ <= ONE_RAW && 0 <= b@ <= ONE_RAW
}

#[verifier::when_used_as_spec(spec_is_interior)]
pub fn is_interior(a: Fixed, b: Fixed) -> (r: bool)
    ensures
        r == spec_is_interior(a, b),
{
    let unit_interval = Interval::new(Fixed::zero(), Fixed::one());
    if !unit_interval.contains(a) || !unit_interval.contains(b) {
        return false;
    }
    true
}

/// The parameter at which the ray `r` meets the plane `normal · p = d`
/// inside the window `ray_t`, ends excluded; none for a ray parallel to
/// the plane.
pub open spec fn spec_plane_parameter(normal: Vec3, d: Fixed, r: Ray, ray_t: Interval) -> Option<
    Fixed,
> {
    let denom = dot(normal, r.direction);
    if denom.abs()@ < PARALLEL_RAW {
        None
    } else {
        let t = d.sub(dot(normal, r.origin)).div(denom);
        if ray_t.surrounds(t) {
            Some(t)
        } else {
            None
        }
    }
}

#[verifier::when_used_as_spec(spec_plane_parameter)]
pub fn plane_parameter(normal: Vec3, d: Fixed, r: Ray, ray_t: Interval) -> (t: Option<Fixed>)
    ensures
        t == spec_plane_parameter(normal, d, r, ray_t),
{
    let denom = dot(normal, r.direction());
    if denom.abs().raw < PARALLEL_RAW {
        return None;
    }
    let t = d.sub(dot(normal, r.origin())).div(denom);
    if !ray_t.surrounds(t) {
        return None;
    }
    Some(t)
}

/// The coordinates along the edges `u` and `v` of the point `p` of the
/// plane through `q`: `(w · ((p - q) × v), w · (u × (p - q)))`.
pub open spec fn spec_plane_coordinates(q: Point3, u: Vec3, v: Vec3, w: Vec3, p: Point3) -> (
    Fixed,
    Fixed,
) {
    let planar_hitpt_vector = p.sub(q);
    (dot(w, cross(planar_hitpt_vector, v)), dot(w, cross(u, planar_hitpt_vector)))
}

#[verifier::when_used_as_spec(spec_plane_coordinates)]
pub fn plane_coordinates(q: Point3, u: Vec3, v: Vec3, w: Vec3, p: Point3) -> (r: (Fixed, Fixed))
    ensures
        r == spec_plane_coordinates(q, u, v, w, p),
{
    let planar_hitpt_vector = p.sub(q);
    (dot(w, cross(planar_hitpt_vector, v)), dot(w, cross(u, planar_hitpt_vector)))
}

impl Quad {
    pub open spec fn spec_new(q: Point3, u: Vec3, v: Vec3, mat: Arc<Material>) -> Quad {
        let n = cross(u, v);
        let normal = unit_vector(n);
        Quad {
            q,
            u,
            v,
            w: n.inverse(),
            mat,
            bbox: spec_quad_bounding_box(q, u, v),
            normal,
            d: dot(normal, q),
            area: n.length(),
        }
    }

    pub fn new(q: Point3, u: Vec3, v: Vec3, mat: Arc<Material>) -> (r: Quad)
        ensures
            r == Quad::spec_new(q, u, v, mat),
            r.normal.wf(),
    {
        let bbox = set_bounding_box(q, u, v);
        let n = cross(u, v);
        let normal = unit_vector(n);
        let d = dot(normal, q);
        let w = n.inverse();
        let area = n.length();
        Quad { q, u, v, w, mat, bbox, normal, d, area }
    }

    /// The hit of `r` on the parallelogram inside the window `ray_t`, ends
    /// excluded. The surface coordinates of the hit are its coordinates
    /// along the two edges.
    #[verifier::opaque]
    pub open spec fn spec_hit<'a>(&'a self, r: Ray, ray_t: Interval) -> Option<HitRecord<'a>> {
        match spec_plane_parameter(self.normal, self.d, r, ray_t) {
            None => None,
            Some(t) => {
                let intersection = r.at(t);
                let (alpha, beta) = spec_plane_coordinates(
                    self.q,
                    self.u,
                    self.v,
                    self.w,
                    intersection,
                );
                if !spec_is_interior(alpha, beta) {
                    None
                } else {
                    Some(
                        HitRecord {
                            p: intersection,
                            normal: face_normal(r.direction, self.normal),
                            mat: &*self.mat,
                            t,
                            u: alpha,
                            v: beta,
                            front_face: front_face(r.direction, self.normal),
                        },
                    )
                }
            },
        }
    }

    pub fn hit<'a>(&'a self, r: &Ray, ray_t: Interval) -> (hit: Option<HitRecord<'a>>)
        ensures
            hit == self.spec_hit(*r, ray_t),
            hit matches Some(rec) ==> {
                &&& ray_t.min@ < rec.t@ < ray_t.max@
                &&& self.normal.wf() ==> dot(r.direction, rec.normal)@ <= 0
                &&& 0 <= rec.u@ <= ONE_RAW
                &&& 0 <= rec.v@ <= ONE_RAW
            },
    {
        reveal(Quad::spec_hit);
        let t = match plane_parameter(self.normal, self.d, *r, ray_t) {
            None => {
                return None;
            },
            Some(t) => t,
        };
        let intersection = r.at(t);
        let (alpha, beta) = plane_coordinates(self.q, self.u, self.v, self.w, intersection);
        if !is_interior(alpha, beta) {
            return None;
        }
        let front_face = front_face(r.direction(), self.normal);
        let normal = face_normal(r.direction(), self.normal);
        proof {
            if self.normal.wf() {
                lemma_face_normal_opposes(r.direction, self.normal);
            }
        }
        Some(HitRecord::new(intersection, normal, &*self.mat, t, alpha, beta, front_face))
    }

    /// The density, in solid angle as seen from `origin`, of the uniform
    /// distribution over the parallelogram, at `direction`:
    /// `distance² / (|cos| · area)` where the ray from `origin` along
    /// `direction` hits the parallelogram, zero where it misses.
    pub open spec fn spec_pdf_value(&self, origin: Point3, direction: Vec3) -> Fixed {
        match self.spec_hit(
            Ray { origin, direction, time: Fixed::zero() },
            Interval { min: Fixed { raw: SHADOW_EPSILON_RAW }, max: Fixed::infinity() },
        ) {
            Some(rec) => {
                let distance_squared = rec.t.mul(rec.t).mul(direction.length_squared());
                let cosine = dot(direction, rec.normal).div(direction.length()).abs();
                distance_squared.div(cosine.mul(self.area))
            },
            None => Fixed::zero(),
        }
    }

    pub fn pdf_value(&self, origin: Point3, direction: Vec3) -> (r: Fixed)
        ensures
            r == self.spec_pdf_value(origin, direction),
    {
        match self.hit(
            &Ray::new(origin, direction, Fixed::zero()),
            Interval::new(Fixed { raw: SHADOW_EPSILON_RAW }, Fixed::infinity()),
        ) {
            Some(rec) => {
                let distance_squared = rec.t.mul(rec.t).mul(direction.length_squared());
                let cosine = dot(direction, rec.normal).div(direction.length()).abs();
                distance_squared.div(cosine.mul(self.area))
            },
            None => Fixed::zero(),
        }
    }

    /// The direction from `origin` to the point of the parallelogram with
    /// coordinates `(a, b)` along its edges.
    pub open spec fn spec_toward(&self, origin: Point3, a: Fixed, b: Fixed) -> Vec3 {
        self.q.add(self.u.scale(a)).add(self.v.scale(b)).sub(origin)
    }

    /// Whether `direction` leads from `origin` to a point of the
    /// parallelogram that `random` can draw.
    pub open spec fn could_pick(&self, origin: Point3, direction: Vec3) -> bool {
        exists|a: Fixed, b: Fixed|
            0 <= a@ < ONE_RAW && 0 <= b@ < ONE_RAW && direction == self.spec_toward(origin, a, b)
    }

    #[verifier::when_used_as_spec(spec_toward)]
    pub fn toward(&self, origin: Point3, a: Fixed, b: Fixed) -> (r: Vec3)
        ensures
            r == self.spec_toward(origin, a, b),
    {
        self.q.add(self.u.scale(a)).add(self.v.scale(b)).sub(origin)
    }

    /// The direction from `origin` to a point drawn uniformly from the
    /// parallelogram.
    pub fn random(&self, origin: Point3) -> (r: Vec3)
        ensures
            self.could_pick(origin, r),
    {
        let a = random_unit();
        let b = random_unit();
        let r = self.toward(origin, a, b);
        assert(0 <= a@ < ONE_RAW && 0 <= b@ < ONE_RAW && r == self.spec_toward(origin, a, b));
        r
    }
}

/// The six sides of the box with opposite corners `a` and `b`, in either
/// order: front, right, back, left, top and bottom, each a parallelogram
/// whose normal points out of the box, with the materials `mats` in turn.
pub open spec fn spec_box_sides(a: Point3, b: Point3, mats: Seq<Arc<Material>>) -> Seq<Hittable> {
    let min = Vec3 { x: a.x.min(b.x), y: a.y.min(b.y), z: a.z.min(b.z) };
    let max = Vec3 { x: a.x.max(b.x), y: a.y.max(b.y), z: a.z.max(b.z) };
    let dx = Vec3 { x: max.x.sub(min.x), y: Fixed::zero(), z: Fixed::zero() };
    let dy = Vec3 { x: Fixed::zero(), y: max.y.sub(min.y), z: Fixed::zero() };
    let dz = Vec3 { x: Fixed::zero(), y: Fixed::zero(), z: max.z.sub(min.z) };
    seq![
        Hittable::Quad(Quad::spec_new(Vec3 { x: min.x, y: min.y, z: max.z }, dx, dy, mats[0])),
        Hittable::Quad(
            Quad::spec_new(Vec3 { x: max.x, y: min.y, z: max.z }, dz.neg(), dy, mats[1]),
        ),
        Hittable::Quad(
            Quad::spec_new(Vec3 { x: max.x, y: min.y, z: min.z }, dx.neg(), dy, mats[2]),
        ),
        Hittable::Quad(Quad::spec_new(Vec3 { x: min.x, y: min.y, z: min.z }, dz, dy, mats[3])),
        Hittable::Quad(
            Quad::spec_new(Vec3 { x: min.x, y: max.y, z: max.z }, dx, dz.neg(), mats[4]),
        ),
        Hittable::Quad(Quad::spec_new(Vec3 { x: min.x, y: min.y, z: min.z }, dx, dz, mats[5])),
    ]
}

/// The closed box with opposite corners `a` and `b`: a list of its six
/// sides, each with a material of its own made by `make_mat`.
#[verifier::rlimit(60)]
pub fn make_box<F: Fn() -> Arc<Material>>(a: Point3, b: Point3, make_mat: F) -> (r: Hittable)
    requires
        call_requires(make_mat, ()),
    ensures
        r matches Hittable::List(l) && l.bbox == spec_enclosing_box(l.objects@, 6) && exists|
            mats: Seq<Arc<Material>>,
        |
            {
                &&& mats.len() == 6
                &&& forall|k: int| 0 <= k < 6 ==> call_ensures(make_mat, (), #[trigger] mats[k])
                &&& l.objects@ == spec_box_sides(a, b, mats)
            },
{
    let mut sides = HittableList::new();
    let min = Point3::new(a.x().min(b.x()), a.y().min(b.y()), a.z().min(b.z()));
    let max = Point3::new(a.x().max(b.x()), a.y().max(b.y()), a.z().max(b.z()));
    let dx = Vec3::new(max.x().sub(min.x()), Fixed::zero(), Fixed::zero());
    let dy = Vec3::new(Fixed::zero(), max.y().sub(min.y()), Fixed::zero());
    let dz = Vec3::new(Fixed::zero(), Fixed::zero(), max.z().sub(min.z()));
    let m0 = make_mat();
    let m1 = make_mat();
    let m2 = make_mat();
    let m3 = make_mat();
    let m4 = make_mat();
    let m5 = make_mat();
    let ghost mats = seq![m0, m1, m2, m3, m4, m5];
    // front
    sides.add(Hittable::Quad(Quad::new(Point3::new(min.x(), min.y(), max.z()), dx, dy, m0)));
    // right
    sides.add(
        Hittable::Quad(Quad::new(Point3::new(max.x(), min.y(), max.z()), dz.neg(), dy, m1)),
    );
    // back
    sides.add(
        Hittable::Quad(Quad::new(Point3::new(max.x(), min.y(), min.z()), dx.neg(), dy, m2)),
    );
    // left
    sides.add(Hittable::Quad(Quad::new(Point3::new(min.x(), min.y(), min.z()), dz, dy, m3)));
    // top
    sides.add(
        Hittable::Quad(Quad::new(Point3::new(min.x(), max.y(), max.z()), dx, dz.neg(), m4)),
    );
    // bottom
    sides.add(Hittable::Quad(Quad::new(Point3::new(min.x(), min.y(), min.z()), dx, dz, m5)));
    proof {
        assert(sides.objects@ =~= spec_box_sides(a, b, mats));
        assert(mats.len() == 6);
        assert(forall|k: int| 0 <= k < 6 ==> call_ensures(make_mat, (), #[trigger] mats[k]));
        reveal_with_fuel(spec_enclosing_box, 7);
    }
    Hittable::List(sides)
}

} // verus!
