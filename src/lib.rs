//! Pixel-by-pixel comparison of two equal-geometry raster images, producing a
//! single-channel difference map and a count of differing pixels.
//!
//! The pieces, leaves first: [`format`] resolves bytes per pixel and checks
//! that two images can be compared; [`compare`] compares two rows pixel by
//! pixel; [`accumulate`] owns the difference map and the count; and
//! [`orchestrate`] runs them over two decoded images. [`laws`] holds the
//! properties proved of the whole.

pub mod format;
pub mod compare;
pub mod accumulate;
pub mod orchestrate;
pub mod laws;

pub use accumulate::DiffAccumulator;
pub use compare::{compare_rows, diff_avg, diff_bw};
pub use format::{get_bytes_per_pixel, validate_pair, ColorFormat, DiffError, ImageInfo};
pub use orchestrate::{diff_images, DiffReport};
