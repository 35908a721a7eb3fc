//! Block-averaged image comparison.
//!
//! A decoded image is reduced to a coarse grid of averaged colour blocks,
//! and two such grids are compared with an (unnormalized) chi-square style
//! divergence. The score of a comparison is kept as an exact rational:
//! the sum of squared channel differences over the number of comparisons.
//! All channel values are 8-bit, so the sum is an exact integer; a caller
//! that wants the floating-point score divides the two parts.

pub mod average;
pub mod compare;
pub mod error;
pub mod raster;

pub use average::average_gb_blocks;
pub use compare::Score;
pub use compare::compare_images_chisquare;
pub use compare::compare_images_chisquare_glam;
pub use error::CoreError;
pub use raster::Raster;
pub use raster::Rgb;
pub use raster::smallest_dimensions;
