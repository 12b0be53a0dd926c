//! Escape-time fractal rendering core: the affine pixel-to-plane mapping
//! scheme, the escape-iteration decision logic, the grayscale intensity
//! encoding, and the partitioning of the output raster into disjoint
//! horizontal bands for parallel rendering, together with the supporting
//! container and utility code.

pub mod bands;
pub mod bytes;
pub mod cities;
pub mod cmp_util;
pub mod escape;
pub mod extrema;
pub mod iter;
pub mod misc;
pub mod parse;
pub mod queue;
pub mod raster;
pub mod text;
pub mod tree;
pub mod votes;
