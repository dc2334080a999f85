//! A Monte Carlo path tracer over spheres with diffuse, metallic and
//! refractive materials. All geometry and radiance arithmetic is carried
//! out in signed 64-bit fixed-point with 16 fractional bits, so that every
//! algorithm of the renderer is stated and verified exactly.

pub mod camera;
pub mod fixed;
pub mod hittable;
pub mod laws;
pub mod material;
pub mod ray;
pub mod render;
pub mod sphere;
pub mod vec3;
