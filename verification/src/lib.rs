//! A minimal offline ray tracer over fixed-point arithmetic.
//!
//! The renderer casts one ray per pixel through a pinhole camera into a
//! scene of spheres, resolves the nearest intersection, and shades each
//! pixel either from the surface normal or from a vertical background
//! gradient. All real-valued quantities are carried as integers scaled
//! by [`fixed::SCALE`], so every arithmetic step has an exact contract.

pub mod fixed;
pub mod vec3;
pub mod ray;
pub mod hit;
pub mod sphere;
pub mod scene;
pub mod color;
pub mod camera;
