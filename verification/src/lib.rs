//! A fast non-cryptographic pseudo-random number generator.
//!
//! The generator owns a single 128-bit state that is never the all-zero bit
//! pattern. Every operation is a pure transformation of that value:
//! construction from a raw state, a 16-byte seed, or a 64-bit integer;
//! scalar draws of 64-bit values; splitting off an independent generator;
//! and bulk filling of byte buffers.

pub mod fill;
pub mod laws;
pub mod rng;
pub mod words;

pub use rng::Rng;
