//! Diffusion-limited aggregation over a fixed-point 3-D coordinate grid.
//!
//! Particles are released one at a time far from the existing cluster,
//! random-walk until they touch it, and adhere after a configurable number
//! of contact attempts. The whole growth process is deterministic for a
//! given seed and configuration.

pub mod index;
pub mod math;
pub mod model;
pub mod rng;
pub mod vec3;
