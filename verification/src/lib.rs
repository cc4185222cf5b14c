//! Raster distortion by random displacement.
//!
//! Every pixel of the output raster is taken from a displaced position of
//! the input raster, and a selection style decides whether the displaced
//! pixel replaces the pixel that was there. The displacements are supplied
//! by the caller as a stream of integer draws, so that the library itself is
//! a pure function of its arguments.

pub mod boundary;
pub mod draws;
pub mod engine;
pub mod pixel;
pub mod raster;
pub mod style;
