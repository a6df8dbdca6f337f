//! Shared leaf modules: fixed-point scalars, vectors, rays, randomness.

pub mod fx;
pub mod random;
pub mod ray;
pub mod vec3;
