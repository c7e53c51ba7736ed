//! A decoded raster frame: an owned row-major RGBA pixel buffer together
//! with its geometry.

use vstd::prelude::*;

verus! {

/// One decoded frame. The buffer is row-major, top-to-bottom,
/// left-to-right, 4 bytes (R, G, B, A) per pixel.
pub struct Frame {
    pub width: usize,
    pub height: usize,
    pub rgba: Vec<u8>,
}

impl Frame {
    /// The buffer holds exactly width * height pixels.
    pub open spec fn wf(&self) -> bool {
        self.rgba@.len() == 4 * self.width * self.height
    }
}

} // verus!
