//! Encoder for the Mapbox Vector Tile (MVT) geometry command stream.
//!
//! Coordinates are tile-local 16-bit signed integers. The encoder turns
//! sequences of points into the packed `u32` command/parameter words that a
//! vector-tile feature's geometry field carries: each command word packs an
//! operation id (move-to, line-to, close-path) with a parameter-pair count,
//! and every coordinate is written as the zig-zag-encoded delta from the
//! previously written point.

pub mod geometry;
pub mod zigzag;
