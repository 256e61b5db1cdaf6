//! Decoding of uncompressed 24- and 32-bit BMP images into a buffer of packed
//! pixels, with the pixel and image operations built on it.
//!
//! - `cursor`: little-endian integers read from a byte buffer.
//! - `color`: a pixel's four channels and their packing into a `u32`.
//! - `bmp`: the two headers, the checks a file must pass, and the decoder.
//! - `image`: a row-major pixel buffer and its flip along an axis.
//! - `point`: coordinates and axes.
use vstd::prelude::*;

pub mod bmp;
pub mod color;
pub mod cursor;
pub mod image;
pub mod point;

verus! {

} // verus!
