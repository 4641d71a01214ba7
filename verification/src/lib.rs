//! A recursive Monte-Carlo ray tracer over exact scaled-integer
//! arithmetic.
//!
//! Every real quantity — coordinates, colors, angles — lives on a grid of
//! step `1/fixed::SCALE` as an `i64`, so the whole rendering pipeline is
//! deterministic integer computation with exact contracts: camera ray
//! generation with antialiasing and defocus blur, sphere intersection by
//! the half-discriminant quadratic, nearest-hit folding over a scene list,
//! and the recursive light transport over diffuse, specular and refractive
//! materials. Randomized steps take their draws from small uniform
//! primitives and are specified through deterministic laws applied to the
//! drawn values.

pub mod camera;
pub mod fixed;
pub mod hittable;
pub mod interval;
pub mod material;
pub mod ray;
pub mod rtweekend;
pub mod sphere;
pub mod vec3;
