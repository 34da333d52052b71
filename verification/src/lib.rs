//! A Monte Carlo path-tracing renderer over fixed-point arithmetic.
//!
//! Every quantity of the renderer (a coordinate, a color channel, a time
//! sample) is an `i64` holding `value * SCALE`, so that the whole pipeline --
//! camera ray generation, sphere intersection, material scattering and the
//! bounce loop -- is exact integer arithmetic with contracts proved by Verus.
//! The only unverified parts are the thin wrappers around the `rand` crate's
//! generator; image encoding and parallel dispatch live outside the library.

pub mod fixed;
pub mod rng;
pub mod math;
pub mod object;
pub mod material;
pub mod camera;
pub mod scene;

pub use camera::Camera;
pub use scene::Scene;
