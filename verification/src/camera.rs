//! The camera: where the rays of the image start, what each brings back,
//! and the image they make.

use crate::color::{decimal, join_words, spec_decimal, spec_write_color, write_color, Color};
use crate::drawn::{
    are_fractions, lemma_fractions_together, lemma_more_draws, lemma_surface_takes_no_draw,
};
use crate::fixed::{Fixed, ONE_RAW};
use crate::hit_record::HitRecord;
use crate::hittable::Hittable;
use crate::interval::Interval;
use crate::material::{spec_black, ScatterRecord};
use crate::pdf::{HittablePdf, MixturePdf, Pdf, HALF_RAW};
use crate::quad::SHADOW_EPSILON_RAW;
use crate::ray::Ray;
use crate::sampling::random_unit;
use crate::trig::{degrees_to_radians, tan};
use crate::vec3::{
    cross, in_unit_disk, is_nearly_unit, is_unit_draw, random_in_unit_disk, unit_vector, Point3,
    Vec3,
};
use vstd::prelude::*;

verus! {

/// The camera, made ready: everything that the rays of the image need is
/// worked out once.
pub struct Camera {
    pub image_width: u32,
    pub image_height: u32,
    pub center: Point3,
    pub pixel00_loc: Point3,
    pub pixel_delta_u: Vec3,
    pub pixel_delta_v: Vec3,
    pub u: Vec3,
    pub v: Vec3,
    pub w: Vec3,
    pub samples_per_pixel: i32,
    pub sqrt_spp: i32,
    pub recip_sqrt_spp: Fixed,
    pub pixel_samples_scale: Fixed,
    pub max_depth: i32,
    pub background: Color,
    pub defocus_angle: Fixed,
    pub defocus_disk_u: Vec3,
    pub defocus_disk_v: Vec3,
}

/// The height in pixels of an image of width `image_width` and the given
/// aspect ratio: the quotient rounded to the nearest whole number, and at
/// least one.
pub open spec fn spec_image_height(image_width: u32, aspect_ratio: Fixed) -> int {
    let rounded = Fixed::spec_from_count(image_width as nat).div(aspect_ratio).add(
        Fixed { raw: HALF_RAW },
    ).spec_floor();
    if rounded < 1 {
        1
    } else {
        rounded
    }
}

fn image_height(image_width: u32, aspect_ratio: Fixed) -> (r: u32)
    ensures
        r == spec_image_height(image_width, aspect_ratio),
        r >= 1,
{
    let rounded: i64 = Fixed::from_count(image_width as usize).div(aspect_ratio).add(
        Fixed { raw: HALF_RAW },
    ).floor();
    if rounded < 1 {
        1
    } else {
        rounded as u32
    }
}

/// The side of the grid of samples in a pixel: the whole part of the
/// square root of the number of samples, zero for a negative number.
pub open spec fn spec_sqrt_spp(samples_per_pixel: i32) -> int {
    Fixed::from_int(samples_per_pixel).sqrt().spec_floor()
}

fn sqrt_spp(samples_per_pixel: i32) -> (r: i32)
    ensures
        r == spec_sqrt_spp(samples_per_pixel),
        0 <= r,
{
    let root = Fixed::from_int(samples_per_pixel).sqrt();
    proof {
        crate::fixed::lemma_sqrt_nonnegative(Fixed::from_int(samples_per_pixel));
    }
    root.floor() as i32
}

/// The light that a ray brings back from a surface that scatters it along
/// one given ray: what the surface emits, and what comes in along that
/// ray, channel by channel dimmed by the attenuation.
pub open spec fn spec_combine_skip(emission: Color, attenuation: Color, incoming: Color) -> Color {
    emission.add(attenuation.mul(incoming))
}

#[verifier::when_used_as_spec(spec_combine_skip)]
pub fn combine_skip(emission: Color, attenuation: Color, incoming: Color) -> (r: Color)
    ensures
        r == spec_combine_skip(emission, attenuation, incoming),
{
    emission.add(attenuation.mul(incoming))
}

/// The light that a ray brings back from a surface that scatters it in a
/// drawn direction: what the surface emits, and what comes in from that
/// direction, dimmed by the attenuation and weighted by the density with
/// which the surface scatters there over the density with which the
/// direction was drawn. A direction of density zero brings nothing in.
pub open spec fn spec_combine_pdf(
    emission: Color,
    attenuation: Color,
    scattering_pdf: Fixed,
    incoming: Color,
    pdf_value: Fixed,
) -> Color {
    if pdf_value@ <= 0 {
        emission
    } else {
        emission.add(attenuation.scale(scattering_pdf).mul(incoming).div(pdf_value))
    }
}

#[verifier::when_used_as_spec(spec_combine_pdf)]
pub fn combine_pdf(
    emission: Color,
    attenuation: Color,
    scattering_pdf: Fixed,
    incoming: Color,
    pdf_value: Fixed,
) -> (r: Color)
    ensures
        r == spec_combine_pdf(emission, attenuation, scattering_pdf, incoming, pdf_value),
{
    if pdf_value.raw <= 0 {
        emission
    } else {
        emission.add(attenuation.scale(scattering_pdf).mul(incoming).div(pdf_value))
    }
}

/// The window in which a ray looks for what it hits: from 0.001, to keep
/// clear of the surface that it leaves, to `+∞`.
pub open spec fn spec_ray_window() -> Interval {
    Interval { min: Fixed { raw: SHADOW_EPSILON_RAW }, max: Fixed::infinity() }
}

/// The density from which the direction of a scattered ray is drawn: the
/// density of the material alone, or, where `lights` are given, its even
/// mixture with the density of the directions from `p` toward the lights.
pub open spec fn spec_sampling_pdf<'a>(lights: Option<&'a Hittable>, p: Point3, pdf: Pdf<'a>) -> Pdf<
    'a,
> {
    match lights {
        Some(objects) => Pdf::Mixture(
            MixturePdf {
                p0: Box::new(Pdf::Hittable(HittablePdf { objects, origin: p })),
                p1: Box::new(pdf),
            },
        ),
        None => pdf,
    }
}

/// What the surfaces draw along the way of a ray: for each surface that
/// the ray meets, the direction `blur` that blurs a mirror, the fraction
/// `chance` that decides between mirroring and refracting, and the
/// `direction` in which a matte surface or smoke sends the ray on.
pub enum Draws {
    End,
    Bounce { blur: Vec3, chance: Fixed, direction: Vec3, rest: Box<Draws> },
}

/// The light that the ray `r` brings back from the world, followed through
/// at most `depth` scatterings, as a function of what is drawn along its
/// way: `draws` by the surfaces and `depths` by the media. With the light
/// comes what is left of `depths`. A ray that may not be followed brings
/// nothing back, and a ray that hits nothing brings the `background`. A
/// ray that hits something brings what that emits and, where it scatters
/// the ray, its share of what the scattered ray brings back with the rest
/// of the draws. There is no light for draws that cannot be drawn or that
/// end before the ray does.
pub open spec fn spec_ray_color(
    r: Ray,
    depth: int,
    world: &Hittable,
    lights: Option<&Hittable>,
    background: Color,
    draws: Draws,
    depths: Seq<Fixed>,
) -> Option<(Color, Seq<Fixed>)>
    decreases depth, 1int,
{
    if depth <= 0 {
        Some((spec_black(), depths))
    } else {
        match world.spec_hit_drawn(r, spec_ray_window(), depths) {
            None => None,
            Some((None, rest)) => Some((background, rest)),
            Some((Some(rec), rest)) => spec_shade(
                r,
                depth,
                world,
                lights,
                background,
                rec,
                draws,
                rest,
            ),
        }
    }
}

/// The light that the ray `r` brings back from its hit `rec`, as a
/// function of what is drawn along its way from there. What the surface
/// emits is joined to the light `incoming` of the scattered ray by
/// `spec_combine_skip` where the surface scatters along one ray, and by
/// `spec_combine_pdf` where it scatters in the drawn direction.
pub open spec fn spec_shade(
    r: Ray,
    depth: int,
    world: &Hittable,
    lights: Option<&Hittable>,
    background: Color,
    rec: HitRecord,
    draws: Draws,
    depths: Seq<Fixed>,
) -> Option<(Color, Seq<Fixed>)>
    decreases depth, 0int,
        when depth > 0
{
    let emission = rec.mat.spec_emitted(rec, rec.u, rec.v, rec.p);
    match draws {
        Draws::End => None,
        Draws::Bounce { blur, chance, direction, rest } => if !(is_unit_draw(blur)
            && is_nearly_unit(blur) && 0 <= chance@ < ONE_RAW) {
            None
        } else {
            match rec.mat.spec_scatter_with(r, rec, blur, chance) {
                None => Some((emission, depths)),
                Some(ScatterRecord::SkipPdf { attenuation, ray }) => match spec_ray_color(
                    ray,
                    depth - 1,
                    world,
                    lights,
                    background,
                    *rest,
                    depths,
                ) {
                    Some((incoming, left)) => Some(
                        (spec_combine_skip(emission, attenuation, incoming), left),
                    ),
                    None => None,
                },
                Some(ScatterRecord::Pdf { attenuation, pdf }) => {
                    let sampling = spec_sampling_pdf(lights, rec.p, pdf);
                    let scattered = Ray { origin: rec.p, direction, time: r.time };
                    if !sampling.could_generate(direction) {
                        None
                    } else {
                        match spec_ray_color(
                            scattered,
                            depth - 1,
                            world,
                            lights,
                            background,
                            *rest,
                            depths,
                        ) {
                            Some((incoming, left)) => Some(
                                (
                                    spec_combine_pdf(
                                        emission,
                                        attenuation,
                                        rec.mat.spec_scattering_pdf(rec, scattered),
                                        incoming,
                                        sampling.spec_value(direction),
                                    ),
                                    left,
                                ),
                            ),
                            None => None,
                        }
                    }
                },
            }
        },
    }
}

/// Whether `c` is a colour that `ray_color` can return for the ray `r`:
/// the light that the ray brings back for some draws, all of the draws of
/// the media used.
pub open spec fn could_color(
    r: Ray,
    depth: int,
    world: &Hittable,
    lights: Option<&Hittable>,
    background: Color,
    c: Color,
) -> bool {
    exists|draws: Draws, depths: Seq<Fixed>|
        are_fractions(depths) && #[trigger] spec_ray_color(
            r,
            depth,
            world,
            lights,
            background,
            draws,
            depths,
        ) == Some((c, Seq::<Fixed>::empty()))
}

/// A ray that hits nothing brings the background. In a world of surfaces,
/// a ray that may be followed and has no hit in its window has the colour
/// of the background, whatever is drawn.
pub proof fn lemma_miss_brings_background(
    r: Ray,
    depth: int,
    world: &Hittable,
    lights: Option<&Hittable>,
    background: Color,
    c: Color,
)
    requires
        depth > 0,
        world.deterministic(),
        world.spec_hit(r, spec_ray_window()) is None,
        could_color(r, depth, world, lights, background, c),
    ensures
        c == background,
{
    let (draws, depths) = choose|draws: Draws, depths: Seq<Fixed>|
        are_fractions(depths) && #[trigger] spec_ray_color(
            r,
            depth,
            world,
            lights,
            background,
            draws,
            depths,
        ) == Some((c, Seq::<Fixed>::empty()));
    lemma_surface_takes_no_draw(*world, r, spec_ray_window(), depths);
}

/// A ray that hits a light brings what the light emits, and nothing else.
/// In a world of surfaces, a ray that may be followed and whose hit is on
/// a light has the colour that the light emits at the hit, whatever is
/// drawn.
pub proof fn lemma_light_brings_its_emission(
    r: Ray,
    depth: int,
    world: &Hittable,
    lights: Option<&Hittable>,
    background: Color,
    c: Color,
)
    requires
        depth > 0,
        world.deterministic(),
        world.spec_hit(r, spec_ray_window()) matches Some(rec) && rec.mat is DiffuseLight,
        could_color(r, depth, world, lights, background, c),
    ensures
        world.spec_hit(r, spec_ray_window()) matches Some(rec) && c == rec.mat.spec_emitted(
            rec,
            rec.u,
            rec.v,
            rec.p,
        ),
{
    let (draws, depths) = choose|draws: Draws, depths: Seq<Fixed>|
        are_fractions(depths) && #[trigger] spec_ray_color(
            r,
            depth,
            world,
            lights,
            background,
            draws,
            depths,
        ) == Some((c, Seq::<Fixed>::empty()));
    lemma_surface_takes_no_draw(*world, r, spec_ray_window(), depths);
}

/// The light of a ray that hits something is the light that comes back
/// from the hit, with the draws of the media that the hit has left.
proof fn lemma_ray_color_of_hit(
    r: Ray,
    depth: int,
    world: &Hittable,
    lights: Option<&Hittable>,
    background: Color,
    rec: HitRecord,
    draws: Draws,
    used: Seq<Fixed>,
    more: Seq<Fixed>,
)
    requires
        depth > 0,
        world.spec_hit_drawn(r, spec_ray_window(), used) == Some(
            (Some(rec), Seq::<Fixed>::empty()),
        ),
    ensures
        spec_ray_color(r, depth, world, lights, background, draws, used + more) == spec_shade(
            r,
            depth,
            world,
            lights,
            background,
            rec,
            draws,
            more,
        ),
{
    lemma_more_draws(*world, r, spec_ray_window(), used, more);
    assert(Seq::<Fixed>::empty() + more =~= more);
}

/// A ray that hits nothing can bring back the background.
proof fn lemma_ray_color_of_miss(
    r: Ray,
    depth: int,
    world: &Hittable,
    lights: Option<&Hittable>,
    background: Color,
    used: Seq<Fixed>,
)
    requires
        depth > 0,
        are_fractions(used),
        world.spec_hit_drawn(r, spec_ray_window(), used) == Some(
            (None::<HitRecord>, Seq::<Fixed>::empty()),
        ),
    ensures
        could_color(r, depth, world, lights, background, background),
{
    assert(spec_ray_color(r, depth, world, lights, background, Draws::End, used) == Some(
        (background, Seq::<Fixed>::empty()),
    ));
}

/// What comes back from the hit of a ray, for draws of the media that are
/// all used, can be the colour of the ray.
proof fn lemma_shade_is_color(
    r: Ray,
    depth: int,
    world: &Hittable,
    lights: Option<&Hittable>,
    background: Color,
    rec: HitRecord,
    draws: Draws,
    used: Seq<Fixed>,
    more: Seq<Fixed>,
    c: Color,
)
    requires
        depth > 0,
        are_fractions(used),
        are_fractions(more),
        world.spec_hit_drawn(r, spec_ray_window(), used) == Some(
            (Some(rec), Seq::<Fixed>::empty()),
        ),
        spec_shade(r, depth, world, lights, background, rec, draws, more) == Some(
            (c, Seq::<Fixed>::empty()),
        ),
    ensures
        could_color(r, depth, world, lights, background, c),
{
    lemma_ray_color_of_hit(r, depth, world, lights, background, rec, draws, used, more);
    lemma_fractions_together(used, more);
    assert(spec_ray_color(r, depth, world, lights, background, draws, used + more) == Some(
        (c, Seq::<Fixed>::empty()),
    ));
}

/// The light that the ray `r` brings back from `world`, followed through at
/// most `depth` scatterings. The draws along the way of the ray are made
/// as they are needed. Where `lights` are given, half of the directions in
/// which a matte surface scatters are drawn toward them.
pub fn ray_color(
    r: &Ray,
    depth: i32,
    world: &Hittable,
    lights: Option<&Hittable>,
    background: Color,
) -> (c: Color)
    ensures
        depth <= 0 ==> c == spec_black(),
        could_color(*r, depth as int, world, lights, background, c),
    decreases depth,
{
    let ghost none = Seq::<Fixed>::empty();
    if depth <= 0 {
        assert(are_fractions(none));
        assert(spec_ray_color(*r, depth as int, world, lights, background, Draws::End, none)
            == Some((spec_black(), none)));
        return Color::zero();
    }
    let found = world.hit(r, Interval::new(Fixed { raw: SHADOW_EPSILON_RAW }, Fixed::infinity()));
    let ghost used = choose|d: Seq<Fixed>|
        are_fractions(d) && #[trigger] world.spec_hit_drawn(*r, spec_ray_window(), d) == Some(
            (found, none),
        );
    let rec = match found {
        None => {
            proof {
                lemma_ray_color_of_miss(*r, depth as int, world, lights, background, used);
            }
            return background;
        },
        Some(rec) => rec,
    };
    let emission = rec.mat.emitted(r, &rec, rec.u, rec.v, rec.p);
    let scattering = rec.mat.scatter(r, &rec);
    let ghost (blur, chance) = choose|blur: Vec3, chance: Fixed|
        is_unit_draw(blur) && is_nearly_unit(blur) && 0 <= chance@ < ONE_RAW && scattering
            == rec.mat.spec_scatter_with(*r, rec, blur, chance);
    let srec = match scattering {
        None => {
            proof {
                let draws = Draws::Bounce {
                    blur,
                    chance,
                    direction: Vec3::spec_zero(),
                    rest: Box::new(Draws::End),
                };
                assert(are_fractions(none));
                assert(spec_shade(*r, depth as int, world, lights, background, rec, draws, none)
                    == Some((emission, none)));
                lemma_shade_is_color(
                    *r,
                    depth as int,
                    world,
                    lights,
                    background,
                    rec,
                    draws,
                    used,
                    none,
                    emission,
                );
            }
            return emission;
        },
        Some(srec) => srec,
    };
    match srec {
        ScatterRecord::SkipPdf { attenuation, ray } => {
            let incoming = ray_color(&ray, depth - 1, world, lights, background);
            let c = combine_skip(emission, attenuation, incoming);
            proof {
                let (rest, more) = choose|rest: Draws, more: Seq<Fixed>|
                    are_fractions(more) && #[trigger] spec_ray_color(
                        ray,
                        depth - 1,
                        world,
                        lights,
                        background,
                        rest,
                        more,
                    ) == Some((incoming, none));
                let draws = Draws::Bounce {
                    blur,
                    chance,
                    direction: Vec3::spec_zero(),
                    rest: Box::new(rest),
                };
                assert(spec_shade(*r, depth as int, world, lights, background, rec, draws, more)
                    == Some((c, none)));
                lemma_shade_is_color(
                    *r,
                    depth as int,
                    world,
                    lights,
                    background,
                    rec,
                    draws,
                    used,
                    more,
                    c,
                );
            }
            c
        },
        ScatterRecord::Pdf { attenuation, pdf } => {
            let ghost material_pdf = pdf;
            let pdf = match lights {
                Some(objects) => Pdf::Mixture(
                    MixturePdf::new(Pdf::Hittable(HittablePdf::new(objects, rec.p)), pdf),
                ),
                None => pdf,
            };
            assert(pdf == spec_sampling_pdf(lights, rec.p, material_pdf));
            let scattered = Ray::new(rec.p, pdf.generate(), r.time());
            let pdf_value = pdf.value(scattered.direction());
            let scattering_pdf = rec.mat.scattering_pdf(r, &rec, &scattered);
            let incoming = ray_color(&scattered, depth - 1, world, lights, background);
            let c = combine_pdf(emission, attenuation, scattering_pdf, incoming, pdf_value);
            proof {
                let (rest, more) = choose|rest: Draws, more: Seq<Fixed>|
                    are_fractions(more) && #[trigger] spec_ray_color(
                        scattered,
                        depth - 1,
                        world,
                        lights,
                        background,
                        rest,
                        more,
                    ) == Some((incoming, none));
                let draws = Draws::Bounce {
                    blur,
                    chance,
                    direction: scattered.direction,
                    rest: Box::new(rest),
                };
                assert(spec_shade(*r, depth as int, world, lights, background, rec, draws, more)
                    == Some((c, none)));
                lemma_shade_is_color(
                    *r,
                    depth as int,
                    world,
                    lights,
                    background,
                    rec,
                    draws,
                    used,
                    more,
                    c,
                );
            }
            c
        },
    }
}

impl Camera {
    /// The camera that stands at `lookfrom` and looks at `lookat`, for an
    /// image `image_width` pixels wide with `samples_per_pixel` rays cast for
    /// each pixel and followed through `max_depth` scatterings; `vfov` is the
    /// vertical angle of view and `defocus_angle` the angle of the cone of
    /// rays through each pixel, both in degrees, and `background` the colour
    /// that a ray brings back that hits nothing. With `w` the direction from `lookat` back to
    /// `lookfrom`, `u` the direction of `vup × w` and `v = w × u`, the
    /// image spans, at the distance `focus_dist` in front of the camera,
    /// a rectangle of height `2·tan(vfov/2)·focus_dist` and of width in
    /// proportion to the pixels. `pixel_delta_u` and `pixel_delta_v` lead
    /// from a pixel to the next one to the right and below, `pixel00_loc`
    /// is the middle of the upper left pixel, and the lens is a disk of
    /// radius `focus_dist·tan(defocus_angle/2)` around the camera.
    pub open spec fn spec_new(
        aspect_ratio: Fixed,
        image_width: u32,
        samples_per_pixel: i32,
        max_depth: i32,
        vfov: Fixed,
        lookfrom: Point3,
        lookat: Point3,
        vup: Vec3,
        defocus_angle: Fixed,
        focus_dist: Fixed,
        background: Color,
    ) -> Camera {
        let image_height = spec_image_height(image_width, aspect_ratio) as u32;
        let sqrt_spp = spec_sqrt_spp(samples_per_pixel) as i32;
        let root = Fixed::from_int(sqrt_spp);
        let center = lookfrom;
        let theta = degrees_to_radians(vfov);
        let h = tan(theta.div(Fixed::from_int(2)));
        let viewport_height = Fixed::from_int(2).mul(h).mul(focus_dist);
        let viewport_width = viewport_height.mul(
            Fixed::spec_from_count(image_width as nat).div(
                Fixed::spec_from_count(image_height as nat),
            ),
        );
        let w = unit_vector(lookfrom.sub(lookat));
        let u = unit_vector(cross(vup, w));
        let v = cross(w, u);
        let viewport_u = u.scale(viewport_width);
        let viewport_v = v.neg().scale(viewport_height);
        let pixel_delta_u = viewport_u.div(Fixed::spec_from_count(image_width as nat));
        let pixel_delta_v = viewport_v.div(Fixed::spec_from_count(image_height as nat));
        let viewport_upper_left = center.sub(w.scale(focus_dist)).sub(
            viewport_u.div(Fixed::from_int(2)),
        ).sub(viewport_v.div(Fixed::from_int(2)));
        let defocus_radius = focus_dist.mul(
            tan(degrees_to_radians(defocus_angle.div(Fixed::from_int(2)))),
        );
        Camera {
            image_width,
            image_height,
            center,
            pixel00_loc: viewport_upper_left.add(
                pixel_delta_u.add(pixel_delta_v).scale(Fixed { raw: HALF_RAW }),
            ),
            pixel_delta_u,
            pixel_delta_v,
            u,
            v,
            w,
            samples_per_pixel,
            sqrt_spp,
            recip_sqrt_spp: Fixed::one().div(root),
            pixel_samples_scale: Fixed::one().div(root.mul(root)),
            max_depth,
            background,
            defocus_angle,
            defocus_disk_u: u.scale(defocus_radius),
            defocus_disk_v: v.scale(defocus_radius),
        }
    }

    pub fn new(
        aspect_ratio: Fixed,
        image_width: u32,
        samples_per_pixel: i32,
        max_depth: i32,
        vfov: Fixed,
        lookfrom: Point3,
        lookat: Point3,
        vup: Vec3,
        defocus_angle: Fixed,
        focus_dist: Fixed,
        background: Color,
    ) -> (r: Camera)
        ensures
            r == Camera::spec_new(
                aspect_ratio,
                image_width,
                samples_per_pixel,
                max_depth,
                vfov,
                lookfrom,
                lookat,
                vup,
                defocus_angle,
                focus_dist,
                background,
            ),
            r.image_height >= 1,
            r.sqrt_spp >= 0,
    {
        let image_height = image_height(image_width, aspect_ratio);
        let sqrt_spp = sqrt_spp(samples_per_pixel);
        let root = Fixed::from_int(sqrt_spp);
        let center = lookfrom;
        let theta = degrees_to_radians(vfov);
        let h = tan(theta.div(Fixed::from_int(2)));
        let viewport_height = Fixed::from_int(2).mul(h).mul(focus_dist);
        let viewport_width = viewport_height.mul(
            Fixed::from_count(image_width as usize).div(
                Fixed::from_count(image_height as usize),
            ),
        );
        let w = unit_vector(lookfrom.sub(lookat));
        let u = unit_vector(cross(vup, w));
        let v = cross(w, u);
        let viewport_u = u.scale(viewport_width);
        let viewport_v = v.neg().scale(viewport_height);
        let pixel_delta_u = viewport_u.div(Fixed::from_count(image_width as usize));
        let pixel_delta_v = viewport_v.div(Fixed::from_count(image_height as usize));
        let viewport_upper_left = center.sub(w.scale(focus_dist)).sub(
            viewport_u.div(Fixed::from_int(2)),
        ).sub(viewport_v.div(Fixed::from_int(2)));
        let defocus_radius = focus_dist.mul(
            tan(degrees_to_radians(defocus_angle.div(Fixed::from_int(2)))),
        );
        Camera {
            image_width,
            image_height,
            center,
            pixel00_loc: viewport_upper_left.add(
                pixel_delta_u.add(pixel_delta_v).scale(Fixed { raw: HALF_RAW }),
            ),
            pixel_delta_u,
            pixel_delta_v,
            u,
            v,
            w,
            samples_per_pixel,
            sqrt_spp,
            recip_sqrt_spp: Fixed::one().div(root),
            pixel_samples_scale: Fixed::one().div(root.mul(root)),
            max_depth,
            background,
            defocus_angle,
            defocus_disk_u: u.scale(defocus_radius),
            defocus_disk_v: v.scale(defocus_radius),
        }
    }

    /// The ray through pixel `(i, j)` for the sample in cell `(s_i, s_j)`
    /// of the grid of the pixel: it aims at the place in the cell that the
    /// fractions `jitter_x`, `jitter_y` pick, starts at the camera, or for
    /// an open lens at the point of the lens that `lens` picks on the unit
    /// disk, and is cast at shutter time `time`.
    pub open spec fn spec_ray_through(
        &self,
        i: u32,
        j: u32,
        s_i: i32,
        s_j: i32,
        jitter_x: Fixed,
        jitter_y: Fixed,
        lens: Vec3,
        time: Fixed,
    ) -> Ray {
        let px = Fixed::from_int(s_i).add(jitter_x).mul(self.recip_sqrt_spp).sub(
            Fixed { raw: HALF_RAW },
        );
        let py = Fixed::from_int(s_j).add(jitter_y).mul(self.recip_sqrt_spp).sub(
            Fixed { raw: HALF_RAW },
        );
        let pixel_sample = self.pixel00_loc.add(
            self.pixel_delta_u.scale(Fixed::spec_from_count(i as nat).add(px)),
        ).add(self.pixel_delta_v.scale(Fixed::spec_from_count(j as nat).add(py)));
        let ray_origin = if self.defocus_angle@ <= 0 {
            self.center
        } else {
            self.center.add(self.defocus_disk_u.scale(lens.x)).add(
                self.defocus_disk_v.scale(lens.y),
            )
        };
        Ray { origin: ray_origin, direction: pixel_sample.sub(ray_origin), time }
    }

    pub fn ray_through(
        &self,
        i: u32,
        j: u32,
        s_i: i32,
        s_j: i32,
        jitter_x: Fixed,
        jitter_y: Fixed,
        lens: Vec3,
        time: Fixed,
    ) -> (r: Ray)
        ensures
            r == self.spec_ray_through(i, j, s_i, s_j, jitter_x, jitter_y, lens, time),
    {
        let px = Fixed::from_int(s_i).add(jitter_x).mul(self.recip_sqrt_spp).sub(
            Fixed { raw: HALF_RAW },
        );
        let py = Fixed::from_int(s_j).add(jitter_y).mul(self.recip_sqrt_spp).sub(
            Fixed { raw: HALF_RAW },
        );
        let pixel_sample = self.pixel00_loc.add(
            self.pixel_delta_u.scale(Fixed::from_count(i as usize).add(px)),
        ).add(self.pixel_delta_v.scale(Fixed::from_count(j as usize).add(py)));
        let ray_origin = if self.defocus_angle.raw <= 0 {
            self.center
        } else {
            self.center.add(self.defocus_disk_u.scale(lens.x)).add(
                self.defocus_disk_v.scale(lens.y),
            )
        };
        Ray::new(ray_origin, pixel_sample.sub(ray_origin), time)
    }

    /// Whether `r` is a ray that `get_ray` can return for the sample in
    /// cell `(s_i, s_j)` of pixel `(i, j)`.
    pub open spec fn could_cast(&self, i: u32, j: u32, s_i: i32, s_j: i32, r: Ray) -> bool {
        exists|jitter_x: Fixed, jitter_y: Fixed, lens: Vec3, time: Fixed|
            {
                &&& 0 <= jitter_x@ < ONE_RAW
                &&& 0 <= jitter_y@ < ONE_RAW
                &&& in_unit_disk(lens)
                &&& 0 <= time@ < ONE_RAW
                &&& r == self.spec_ray_through(i, j, s_i, s_j, jitter_x, jitter_y, lens, time)
            }
    }

    /// A ray through pixel `(i, j)` for the sample in cell `(s_i, s_j)` of
    /// the grid of the pixel, jittered within the cell, from a random
    /// point of the lens, at a random shutter time.
    pub fn get_ray(&self, i: u32, j: u32, s_i: i32, s_j: i32) -> (r: Ray)
        ensures
            self.could_cast(i, j, s_i, s_j, r),
    {
        let jitter_x = random_unit();
        let jitter_y = random_unit();
        let lens = random_in_unit_disk();
        let time = random_unit();
        let r = self.ray_through(i, j, s_i, s_j, jitter_x, jitter_y, lens, time);
        assert(0 <= jitter_x@ < ONE_RAW && 0 <= jitter_y@ < ONE_RAW && in_unit_disk(lens) && 0
            <= time@ < ONE_RAW && r == self.spec_ray_through(
            i,
            j,
            s_i,
            s_j,
            jitter_x,
            jitter_y,
            lens,
            time,
        ));
        r
    }

    /// The number of samples of a pixel: one for each cell of the grid.
    pub open spec fn spec_sample_count(&self) -> int {
        if self.sqrt_spp <= 0 {
            0
        } else {
            self.sqrt_spp * self.sqrt_spp
        }
    }

    /// Whether `c` is a colour that sample `k` of pixel `(i, j)` can have:
    /// the colour of a ray that can be cast through cell
    /// `(k mod sqrt_spp, k / sqrt_spp)` of the grid of the pixel.
    pub open spec fn could_sample(
        &self,
        i: u32,
        j: u32,
        k: int,
        world: &Hittable,
        lights: Option<&Hittable>,
        c: Color,
    ) -> bool {
        exists|r: Ray|
            self.could_cast(
                i,
                j,
                (k % (self.sqrt_spp as int)) as i32,
                (k / (self.sqrt_spp as int)) as i32,
                r,
            ) && #[trigger] could_color(r, self.max_depth as int, world, lights, self.background, c)
    }

    /// Whether `c` is a colour that `pixel_color` can return for pixel
    /// `(i, j)`: the sum of the colours of its samples, in the order of
    /// the cells row by row, divided by the number of cells.
    pub open spec fn could_be_pixel(
        &self,
        i: u32,
        j: u32,
        world: &Hittable,
        lights: Option<&Hittable>,
        c: Color,
    ) -> bool {
        exists|colors: Seq<Color>|
            {
                &&& colors.len() == self.spec_sample_count()
                &&& forall|k: int|
                    0 <= k < colors.len() ==> self.could_sample(
                        i,
                        j,
                        k,
                        world,
                        lights,
                        #[trigger] colors[k],
                    )
                &&& c == #[trigger] spec_sum_of_colors(colors, colors.len() as int).spec_scale(
                    self.pixel_samples_scale,
                )
            }
    }

    /// Whether `text` is a text that `render` can write for pixel
    /// `(i, j)`: the text of a colour that the pixel can have.
    pub open spec fn could_write_pixel(
        &self,
        i: u32,
        j: u32,
        world: &Hittable,
        lights: Option<&Hittable>,
        text: Seq<char>,
    ) -> bool {
        exists|c: Color|
            self.could_be_pixel(i, j, world, lights, c) && text == #[trigger] spec_write_color(c)
    }

    /// The colour of pixel `(i, j)`: the light of one ray for each cell of
    /// its grid of samples, added up and divided by the number of cells.
    pub fn pixel_color(&self, i: u32, j: u32, world: &Hittable, lights: Option<&Hittable>) -> (c:
        Color)
        ensures
            self.could_be_pixel(i, j, world, lights, c),
            self.sqrt_spp <= 0 ==> c == spec_black().spec_scale(self.pixel_samples_scale),
    {
        let mut pixel_color = Color::zero();
        let ghost mut colors = Seq::<Color>::empty();
        let mut s_j: i32 = 0;
        while s_j < self.sqrt_spp
            invariant
                0 <= s_j,
                self.sqrt_spp > 0 ==> s_j <= self.sqrt_spp,
                self.sqrt_spp <= 0 ==> colors.len() == 0,
                self.sqrt_spp > 0 ==> colors.len() == s_j * self.sqrt_spp,
                pixel_color == spec_sum_of_colors(colors, colors.len() as int),
                forall|k: int|
                    0 <= k < colors.len() ==> self.could_sample(
                        i,
                        j,
                        k,
                        world,
                        lights,
                        #[trigger] colors[k],
                    ),
            decreases self.sqrt_spp - s_j,
        {
            let mut s_i: i32 = 0;
            while s_i < self.sqrt_spp
                invariant
                    0 <= s_i <= self.sqrt_spp,
                    0 <= s_j < self.sqrt_spp,
                    colors.len() == s_j * self.sqrt_spp + s_i,
                    pixel_color == spec_sum_of_colors(colors, colors.len() as int),
                    forall|k: int|
                        0 <= k < colors.len() ==> self.could_sample(
                            i,
                            j,
                            k,
                            world,
                            lights,
                            #[trigger] colors[k],
                        ),
                decreases self.sqrt_spp - s_i,
            {
                let r = self.get_ray(i, j, s_i, s_j);
                let sample = ray_color(&r, self.max_depth, world, lights, self.background);
                proof {
                    let k = colors.len() as int;
                    let root = self.sqrt_spp as int;
                    assert(k == root * (s_j as int) + s_i) by (nonlinear_arith)
                        requires
                            k == s_j * root + s_i,
                    ;
                    vstd::arithmetic::div_mod::lemma_fundamental_div_mod_converse(
                        k,
                        root,
                        s_j as int,
                        s_i as int,
                    );
                    assert(self.could_sample(i, j, k, world, lights, sample));
                    let before = colors;
                    colors = colors.push(sample);
                    assert(colors.len() == s_j * self.sqrt_spp + (s_i + 1));
                    lemma_sum_of_colors_push(before, sample);
                    assert forall|m: int| 0 <= m < colors.len() implies self.could_sample(
                        i,
                        j,
                        m,
                        world,
                        lights,
                        #[trigger] colors[m],
                    ) by {
                        if m < before.len() {
                            assert(colors[m] == before[m]);
                        }
                    }
                }
                pixel_color.add_assign(sample);
                s_i += 1;
            }
            proof {
                assert((s_j + 1) * self.sqrt_spp == s_j * self.sqrt_spp + self.sqrt_spp)
                    by (nonlinear_arith);
            }
            s_j += 1;
        }
        let c = pixel_color.scale(self.pixel_samples_scale);
        proof {
            assert(colors.len() == self.spec_sample_count());
            assert(c == spec_sum_of_colors(colors, colors.len() as int).spec_scale(
                self.pixel_samples_scale,
            ));
        }
        c
    }

    /// Row `j` of the image, from left to right: the text of each pixel.
    pub fn render_row(&self, j: u32, world: &Hittable, lights: Option<&Hittable>) -> (row: Vec<
        String,
    >)
        ensures
            row@.len() == self.image_width,
            forall|i: int|
                0 <= i < row@.len() ==> self.could_write_pixel(
                    i as u32,
                    j,
                    world,
                    lights,
                    #[trigger] row@[i]@,
                ),
    {
        let mut row: Vec<String> = Vec::new();
        let mut i: u32 = 0;
        while i < self.image_width
            invariant
                i <= self.image_width,
                row@.len() == i,
                forall|k: int|
                    0 <= k < row@.len() ==> self.could_write_pixel(
                        k as u32,
                        j,
                        world,
                        lights,
                        #[trigger] row@[k]@,
                    ),
            decreases self.image_width - i,
        {
            let c = self.pixel_color(i, j, world, lights);
            let text = write_color(c);
            assert(self.could_write_pixel(i, j, world, lights, text@));
            row.push(text);
            i += 1;
        }
        row
    }

    /// The first three lines of the image file: the kind of file, the
    /// width and height of the image, and the greatest value of a channel.
    pub fn header(&self) -> (lines: Vec<String>)
        ensures
            lines@.len() == 3,
            lines@[0]@ == "P3"@,
            lines@[1]@ == spec_decimal(self.image_width as nat) + seq![' '] + spec_decimal(
                self.image_height as nat,
            ),
            lines@[2]@ == spec_decimal(255),
    {
        let mut lines: Vec<String> = Vec::new();
        lines.push("P3".to_owned());
        lines.push(join_words(&decimal(self.image_width), &decimal(self.image_height)));
        lines.push(decimal(255));
        lines
    }

    /// The image of `world` as the lines of a plain-text pixmap: the three
    /// lines of the header, then one line for each pixel, row by row from
    /// the top and from left to right in each row.
    pub fn render(&self, world: &Hittable, lights: Option<&Hittable>) -> (lines: Vec<String>)
        ensures
            lines@.len() == 3 + self.image_height * self.image_width,
            lines@[0]@ == "P3"@,
            lines@[1]@ == spec_decimal(self.image_width as nat) + seq![' '] + spec_decimal(
                self.image_height as nat,
            ),
            lines@[2]@ == spec_decimal(255),
            forall|j: int, i: int|
                0 <= j < self.image_height && 0 <= i < self.image_width
                    ==> self.could_write_pixel(
                    i as u32,
                    j as u32,
                    world,
                    lights,
                    #[trigger] lines@[spec_line_of(self.image_width, j, i)]@,
                ),
    {
        let mut lines = self.header();
        let mut j: u32 = 0;
        while j < self.image_height
            invariant
                j <= self.image_height,
                lines@.len() == 3 + j * self.image_width,
                lines@[0]@ == "P3"@,
                lines@[1]@ == spec_decimal(self.image_width as nat) + seq![' '] + spec_decimal(
                    self.image_height as nat,
                ),
                lines@[2]@ == spec_decimal(255),
                forall|jj: int, i: int|
                    0 <= jj < j && 0 <= i < self.image_width ==> self.could_write_pixel(
                        i as u32,
                        jj as u32,
                        world,
                        lights,
                        #[trigger] lines@[spec_line_of(self.image_width, jj, i)]@,
                    ),
            decreases self.image_height - j,
        {
            let mut row = self.render_row(j, world, lights);
            let ghost before = lines@;
            let ghost added = row@;
            lines.append(&mut row);
            proof {
                let w = self.image_width as int;
                assert(lines@ =~= before + added);
                assert((j + 1) * w == j * w + w) by (nonlinear_arith);
                assert forall|jj: int, i: int| 0 <= jj < j + 1 && 0 <= i < w implies
                    self.could_write_pixel(
                    i as u32,
                    jj as u32,
                    world,
                    lights,
                    #[trigger] lines@[spec_line_of(self.image_width, jj, i)]@,
                ) by {
                    if jj < j {
                        assert(jj * w + i < j * w) by (nonlinear_arith)
                            requires
                                0 <= jj < j,
                                0 <= i < w,
                        ;
                        assert(0 <= jj * w) by (nonlinear_arith)
                            requires
                                0 <= jj,
                                0 <= w,
                        ;
                        assert(lines@[spec_line_of(self.image_width, jj, i)] == before[spec_line_of(
                            self.image_width,
                            jj,
                            i,
                        )]);
                    } else {
                        assert(lines@[spec_line_of(self.image_width, jj, i)] == added[i]);
                    }
                }
            }
            j += 1;
        }
        lines
    }
}

/// The place among the lines of the image of the pixel in column `i` of
/// row `j`, behind the three lines of the header.
pub open spec fn spec_line_of(image_width: u32, j: int, i: int) -> int {
    3 + j * image_width + i
}

/// The sum of the first `n` of `colors`, added in order.
pub open spec fn spec_sum_of_colors(colors: Seq<Color>, n: int) -> Color
    decreases n,
{
    if n <= 0 || n > colors.len() {
        spec_black()
    } else {
        spec_sum_of_colors(colors, n - 1).spec_add(colors[n - 1])
    }
}

/// The sum of colours with one more behind them is the sum plus the one.
pub proof fn lemma_sum_of_colors_push(colors: Seq<Color>, c: Color)
    ensures
        spec_sum_of_colors(colors.push(c), colors.len() as int + 1) == spec_sum_of_colors(
            colors,
            colors.len() as int,
        ).spec_add(c),
{
    lemma_sum_of_colors_prefix(colors, c, colors.len() as int);
}

/// The sum of the first `n` colours does not depend on what is behind
/// them.
proof fn lemma_sum_of_colors_prefix(colors: Seq<Color>, c: Color, n: int)
    requires
        0 <= n <= colors.len(),
    ensures
        spec_sum_of_colors(colors.push(c), n) == spec_sum_of_colors(colors, n),
    decreases n,
{
    if n > 0 {
        lemma_sum_of_colors_prefix(colors, c, n - 1);
        assert(colors.push(c)[n - 1] == colors[n - 1]);
    }
}

} // verus!
