//! The part of a scene that the library reads: the resolution of the
//! image and what bounds a trace.

use vstd::prelude::*;
use crate::utils::rgb::RGB;

verus! {

/// The resolution of the image: `width` columns by `height` rows.
#[derive(Clone, Copy, Debug, PartialEq, Eq, Structural)]
pub struct Canvas {
    pub width: usize,
    pub height: usize,
}

impl Canvas {
    /// An image buffer can hold this canvas: both sides fit in 32 bits and
    /// the three samples of every pixel fit in one vector.
    pub open spec fn fits_buffer(&self) -> bool {
        &&& self.width <= u32::MAX
        &&& self.height <= u32::MAX
        &&& 3 * self.width * self.height <= isize::MAX
    }

    /// Whether an image buffer can hold this canvas.
    pub fn can_buffer(&self) -> (ok: bool)
        ensures
            ok == self.fits_buffer(),
    {
        if self.width > u32::MAX as usize || self.height > u32::MAX as usize {
            return false;
        }
        assert(3 * self.width * self.height <= 3 * 0xffff_ffff * 0xffff_ffff) by (nonlinear_arith)
            requires
                self.width <= 0xffff_ffff,
                self.height <= 0xffff_ffff,
        ;
        let samples: u128 = 3 * (self.width as u128) * (self.height as u128);
        samples <= isize::MAX as u128
    }
}

/// What bounds a trace: how deep reflections may nest, and the colour of
/// everything a ray does not reach.
#[derive(Clone, Copy, Debug, PartialEq, Eq, Structural)]
pub struct SceneOptions {
    pub reflections_limit: usize,
    pub background_color: RGB,
}

} // verus!
