//! Decoder library for a legacy 4-bit EGA raster format: a fixed-size
//! full-screen planar bitmap and a sprite-sheet container of interleaved
//! nibble-packed frames, both expanded against a fixed 16-color palette
//! into RGBA pixel buffers, plus a fixed-factor nearest-neighbor upscale.

pub mod decode;
pub mod dispatch;
pub mod frame;
pub mod palette;
pub mod sheet;
pub mod upscale;
