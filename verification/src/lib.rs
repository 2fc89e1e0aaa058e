//! A small recursive path tracer over fixed-point arithmetic.
//!
//! Geometry, colours and parametric distances are carried as `i64` values
//! with sixteen fractional bits, so every operation of the renderer is exact
//! integer arithmetic with a truncating rescale, and every contract states
//! the result as a closed-form integer expression.

pub mod camera;
pub mod fixed;
pub mod hit;
pub mod material;
pub mod ray;
pub mod render;
pub mod rng;
pub mod vec3;
