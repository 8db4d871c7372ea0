//! Quantitative visual-appearance metrics for raster images: perceptual
//! colorfulness, block-wise noise, edge strength, and the two Tamura texture
//! descriptors (coarseness and directionality).
//!
//! Every quantity the engines compute here is an exact integer or an exact
//! rational: pixel channels are 8-bit integers, kernels have integer entries,
//! and averages are carried as numerator/denominator pairs.  The only steps a
//! caller still has to take in floating point are the irrational ones (square
//! roots of variances, the arc tangent that turns a gradient into an angle);
//! each function documents the exact value it hands back so that such a
//! finishing step is a single library call on the caller's side.

pub mod coarseness;
pub mod colorfulness;
pub mod colorspace;
pub mod direction;
pub mod gradient;
pub mod grid;
pub mod intmath;
pub mod noise;
pub mod peaks;
pub mod ratio;
pub mod stats;
