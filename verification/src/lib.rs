//! Procedural scalar noise fields: dense 2D/3D buffers with row-major
//! indexing, axis-aligned slicing of volumes, and a compact binary
//! file format with exact round-trip guarantees.
//!
//! Scalar samples are carried as `u32` values holding the bit pattern of
//! an IEEE-754 binary32 number. The library never interprets a sample
//! arithmetically; it stores, indexes, slices and serializes samples
//! bit-exactly, so every contract speaks of samples as plain 32-bit words.
//! Synthesizing the samples themselves (fractal sums over point sources,
//! weighted blending) is floating-point work that belongs to the host
//! program feeding these buffers.
//!
//! - [`map2d`] and [`map3d`]: the dense buffers, with row-major indexed
//!   access and axis-aligned slicing of volumes.
//! - [`indexing`]: the canonical linear-index functions and their bounds.
//! - [`codec`]: the `.noise2d` / `.noise3d` byte layouts, their encoders
//!   and decoders, and the round-trip proofs.
//! - [`pathext`]: file-extension validation.
//! - [`weights`]: validation of a combined generator's weight set.
//! - [`errors`]: the failure taxonomy.

use vstd::prelude::*;

pub mod codec;
pub mod errors;
pub mod indexing;
pub mod pathext;
pub mod weights;
pub mod map2d;
pub mod map3d;

pub use errors::NoiseError;
pub use map2d::NoiseMap2D;
pub use map3d::NoiseMap3D;
pub use weights::validate_weights;
