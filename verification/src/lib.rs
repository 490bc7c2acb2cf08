//! Integer bookkeeping for a raster mask generator.
//!
//! A mask generator evaluates an analytic shadow formula once per pixel of a
//! row-major, single-channel, 8-bit raster. The numeric formula itself is
//! floating point and lives outside this crate; everything around it is
//! integer arithmetic and is verified here:
//!
//! - [`raster`]: the output buffer, its `width * height` length invariant,
//!   its row-major pixel addressing, and the generator's per-pixel pass,
//!   which evaluates a callback once per pixel and is proved to fill every
//!   slot with a byte the callback's contract admits — including a variant
//!   that hands the callback only the magnitudes of the pixel's centred
//!   coordinates, so that a flip of the raster cannot change what the
//!   callback sees;
//! - [`coord`]: pixel-centre coordinates relative to the raster centre, kept
//!   exact by doubling, and their mirror symmetry;
//! - [`quant`]: the final clamp of a rounded intensity to the 8-bit range.

pub mod coord;
pub mod quant;
pub mod raster;
