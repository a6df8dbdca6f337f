//! A Monte-Carlo path tracer over exact fixed-point arithmetic.
//!
//! The tracer intersects camera rays against a scene of spheres, samples a
//! scattering event at the closest hit, and recurses until the ray escapes
//! to the background gradient or exhausts its depth budget.  All geometry
//! and color arithmetic is fixed-point integer arithmetic (see
//! [`common::fx`]), so every computation here carries an exact contract.

pub mod camera;
pub mod common;
pub mod hittable;
pub mod material;
pub mod renderer;
