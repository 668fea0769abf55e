//! Core logic of a fractal planet renderer.
//!
//! A render assigns every pixel of a raster image a palette index; this crate
//! holds the parts of that pipeline that are plain data work, each with a
//! proved contract: the palette loader with its gap interpolation, the
//! partition of image rows into worker slices, the shade smoothing pass, the
//! longest-edge rotation table of the subdivision step, a CRC-32 engine, and
//! the encoders that turn a finished canvas into bitmap, PPM, XPM, PNG and
//! raw heightfield bytes.

pub mod color;
pub mod crc;
pub mod file;
pub mod geometry;
pub mod math;
pub mod projection;
pub mod render;
