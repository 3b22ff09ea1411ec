//! Point clouds sampled from a circle, a sphere surface, a solid ball and a
//! torus, with optional uniform noise on every coordinate.
//!
//! Numbers cross this library as binary64 encodings. `binary64` decides sign
//! and order on them, `noise` holds the noise interval and the step that
//! perturbs a cloud, and `shapes` holds the four samplers.

pub mod binary64;
pub mod noise;
pub mod shapes;

pub use noise::{add_noise, NoiseError, NoiseInterval};
pub use shapes::{torus, unit_ball, unit_circle, unit_sphere_surface};
