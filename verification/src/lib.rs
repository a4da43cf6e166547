//! A path tracer core on fixed-point numbers: geometry, materials,
//! probability densities, a bounding-volume hierarchy and the camera that
//! drives them.

pub mod aabb;
pub mod bvh;
pub mod camera;
pub mod color;
pub mod constant_medium;
pub mod drawn;
pub mod fixed;
pub mod hemisphere;
pub mod hit_record;
pub mod hittable;
pub mod hittable_list;
pub mod interval;
pub mod material;
pub mod nearest;
pub mod norm;
pub mod obj_loader;
pub mod onb;
pub mod pdf;
pub mod perlin;
pub mod quad;
pub mod ray;
pub mod reflection;
pub mod sampling;
pub mod shown;
pub mod sphere;
pub mod surface;
pub mod texture;
pub mod transform;
pub mod triangle;
pub mod trig;
pub mod turning;
pub mod vec3;
