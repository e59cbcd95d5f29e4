//! Deterministic particle-trail art engine.
//!
//! A fixed number of particles each steer toward a point projected along the
//! line between two randomly assigned partner particles, leaving soft
//! alpha-accumulating traces on a persistent raster surface. The recorded
//! trajectory history can be replayed as a vector (SVG) drawing.
//!
//! All coordinates and color intermediates are Q16.16 fixed-point values, so
//! every arithmetic step has an exact, machine-checkable meaning.

pub mod fixed;
pub mod math;
pub mod color;
pub mod image;
pub mod history;
pub mod rng;
pub mod seed;
pub mod text;
pub mod world;
