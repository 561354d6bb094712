use vstd::prelude::*;

use crate::data::layer::LayerData;

verus! {

/// The number of bytes that a `width` by `height` buffer of four-channel pixels holds.
pub open spec fn pixel_buffer_len(width: u32, height: u32) -> int {
    width as int * height as int * 4
}

/// A raster layer's pixels: four bytes per pixel, row by row.
pub struct PixelData {
    pub pixels: Vec<u8>,
    pub color_space: String,
    pub x: i32,
    pub y: i32,
    pub width: u32,
    pub height: u32,
}

impl LayerData for PixelData {}

impl PixelData {
    /// Pixel data at the canvas origin.
    pub fn new(pixels: Vec<u8>, color_space: String, width: u32, height: u32) -> (r: Self)
        ensures
            r.pixels == pixels,
            r.color_space == color_space,
            r.x == 0,
            r.y == 0,
            r.width == width,
            r.height == height,
    {
        Self { pixels, color_space, x: 0, y: 0, width, height }
    }

    /// Makes the buffer hold exactly `width * height` pixels: what lies beyond is cut off,
    /// new pixels are zero.
    pub fn resize(&mut self, width: u32, height: u32)
        requires
            pixel_buffer_len(width, height) <= u32::MAX,
        ensures
            final(self).pixels@.len() == pixel_buffer_len(width, height),
            forall|i: int|
                0 <= i < final(self).pixels@.len() ==> #[trigger] final(self).pixels@[i] == (
                if i < old(self).pixels@.len() {
                    old(self).pixels@[i]
                } else {
                    0u8
                }),
            final(self).color_space == old(self).color_space,
            final(self).x == old(self).x,
            final(self).y == old(self).y,
            final(self).width == old(self).width,
            final(self).height == old(self).height,
    {
        assert(width as int * height as int * 4 <= u32::MAX);
        assert(width * height <= u32::MAX) by (nonlinear_arith)
            requires width as int * height as int * 4 <= u32::MAX;
        let len = (width * height * 4) as usize;
        self.pixels.resize(len, 0u8);
    }
}

} // verus!
