//! A Monte Carlo path tracer whose light-transport core is verified.
//!
//! All radiometric quantities are carried in signed fixed-point arithmetic
//! (`fixed`); the scattering models, the Fresnel/refraction model, the
//! per-pixel bounce loop and the renderer driver are verified against
//! contracts phrased over that arithmetic.

pub mod fixed;
pub mod vec3;
pub mod color;
pub mod ray;
pub mod optics;
pub mod sampling;
pub mod scene;
pub mod integrator;
pub mod renderer;
