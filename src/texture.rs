//! Image textures: a bitmap looked up by pixel, with coordinates past the
//! edge clamped to the last row or column.

use crate::raster::{canvas_pixels, canvas_size, pixel_rect, raw_pixels, rgb_len, Canvas};
use vstd::prelude::*;

verus! {

/// What an image texture holds: its size and its pixels.
pub struct TextureView {
    pub width: u32,
    pub height: u32,
    pub pixels: Map<(u32, u32), [u8; 3]>,
}

/// A bitmap texture.
pub struct ImageTexture {
    width: u32,
    height: u32,
    rgb_image: Canvas,
}

impl View for ImageTexture {
    type V = TextureView;

    closed spec fn view(&self) -> TextureView {
        TextureView { width: self.width, height: self.height, pixels: canvas_pixels(self.rgb_image) }
    }
}

/// `i` moved back inside `0 .. n`.
pub open spec fn clamp_index(i: u32, n: u32) -> u32 {
    if i >= n {
        (n - 1) as u32
    } else {
        i
    }
}

impl ImageTexture {
    /// The texture's size agrees with its bitmap.
    pub closed spec fn wf(&self) -> bool {
        &&& canvas_size(self.rgb_image) == (self.width, self.height)
        &&& canvas_pixels(self.rgb_image).dom() == pixel_rect(self.width, self.height)
    }

    /// A texture over a row-major RGB buffer of a `width` by `height` image;
    /// `None` when the buffer is too short for it or a row's bytes overflow
    /// `usize`.
    pub fn from_raw(width: u32, height: u32, bytes: Vec<u8>) -> (r: Option<ImageTexture>)
        ensures
            r is Some <==> (3 * (width as int) <= usize::MAX && rgb_len(width, height) <= bytes@.len()),
            r is Some ==> r->Some_0.wf(),
            r is Some ==> r->Some_0@.width == width && r->Some_0@.height == height,
            r is Some ==> r->Some_0@.pixels == raw_pixels(width, height, bytes@),
    {
        match Canvas::from_raw(width, height, bytes) {
            None => None,
            Some(rgb_image) => {
                let (w, h) = rgb_image.dimensions();
                Some(ImageTexture { width: w, height: h, rgb_image })
            },
        }
    }

    /// The width of the bitmap.
    pub fn width(&self) -> (r: u32)
        ensures
            r == self@.width,
    {
        self.width
    }

    /// The height of the bitmap.
    pub fn height(&self) -> (r: u32)
        ensures
            r == self@.height,
    {
        self.height
    }

    /// The pixel at column `i` and row `j`, each clamped to the last one of
    /// the bitmap.
    pub fn texel(&self, i: u32, j: u32) -> (r: [u8; 3])
        requires
            self.wf(),
            self@.width > 0,
            self@.height > 0,
        ensures
            r == self@.pixels[(clamp_index(i, self@.width), clamp_index(j, self@.height))],
    {
        let mut i = i;
        let mut j = j;
        if i >= self.width {
            i = self.width - 1;
        }
        if j >= self.height {
            j = self.height - 1;
        }
        self.rgb_image.get_pixel(i, j)
    }
}

} // verus!
