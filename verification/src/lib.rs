//! A Monte-Carlo path tracer over fixed-point arithmetic.
//!
//! Scalars are `i64` raw values counting 1/65536ths; every arithmetic
//! operation is mirrored by a spec function, so the geometry, the material
//! model and the radiance recursion carry exact contracts.

pub mod camera;
pub mod fx;
pub mod material;
pub mod object;
pub mod ray;
pub mod render;
pub mod rng;
pub mod vector;
