//! The computational core of a toy ray tracer: one sphere over a sky gradient,
//! one view ray per pixel.
//!
//! Geometry lives on an integer grid (`Vec3` holds `i64` components, quadratic
//! coefficients are `i128`), so that vector algebra, the ray-sphere test and the
//! decision of what each pixel shows are exact. A scene with fractional lengths is
//! scaled to the grid first; such a uniform scale changes neither which rays hit the
//! sphere nor any normalized direction. Turning a `Shade` into a color needs square
//! roots and is left to the caller.

pub mod error;
pub mod ray;
pub mod render;
pub mod sphere;
pub mod vector;

pub use error::RenderError;
pub use ray::Ray;
pub use render::{pixel_ray, render, shade, sky_bytes, Camera, Shade};
pub use sphere::{hit_sphere, Hit, Quadratic, Sphere, COORD_LIMIT};
pub use vector::Vec3;
