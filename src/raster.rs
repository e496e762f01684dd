//! RGB images of the `image` crate, as the library sees them: a rectangle of
//! pixels, each three bytes, stored row by row.

use image::RgbImage;
use vstd::prelude::*;

verus! {

/// An RGB image with one byte per channel, held as an `image::RgbImage`:
/// a `canvas_size` rectangle of `canvas_pixels`, stored row by row.
#[verifier::external_body]
pub struct Canvas {
    img: RgbImage,
}

/// The pixels of a canvas, keyed by `(x, y)`.
pub uninterp spec fn canvas_pixels(c: Canvas) -> Map<(u32, u32), [u8; 3]>;

/// The width and height of a canvas.
pub uninterp spec fn canvas_size(c: Canvas) -> (u32, u32);

/// The coordinates of a `width` by `height` image.
pub open spec fn pixel_rect(width: u32, height: u32) -> Set<(u32, u32)> {
    Set::new(|p: (u32, u32)| p.0 < width && p.1 < height)
}

/// An all-black `width` by `height` image.
pub open spec fn black_pixels(width: u32, height: u32) -> Map<(u32, u32), [u8; 3]> {
    Map::new(|p: (u32, u32)| p.0 < width && p.1 < height, |p: (u32, u32)| [0u8, 0u8, 0u8])
}

/// The number of bytes of a `width` by `height` RGB image.
pub open spec fn rgb_len(width: u32, height: u32) -> int {
    3 * (width as int) * (height as int)
}

/// Whether an RGB image of this size can be allocated: its bytes, and the
/// bytes of one row counted before the height, fit in `usize`.
pub open spec fn rgb_fits(width: u32, height: u32) -> bool {
    3 * (width as int) <= usize::MAX && rgb_len(width, height) <= usize::MAX
}

/// Where the first byte of pixel `(x, y)` stands in a row-major RGB buffer.
pub open spec fn rgb_offset(width: u32, x: u32, y: u32) -> int {
    3 * ((y as int) * (width as int) + (x as int))
}

/// The pixels that a row-major RGB buffer holds for a `width` by `height` image.
pub open spec fn raw_pixels(width: u32, height: u32, buf: Seq<u8>) -> Map<(u32, u32), [u8; 3]> {
    Map::new(
        |p: (u32, u32)| p.0 < width && p.1 < height,
        |p: (u32, u32)|
            [
                buf[rgb_offset(width, p.0, p.1)],
                buf[rgb_offset(width, p.0, p.1) + 1],
                buf[rgb_offset(width, p.0, p.1) + 2],
            ],
    )
}

impl Canvas {
    /// Relies on `ImageBuffer::new`: a zero-filled image of the given size; it
    /// panics when three bytes times the width, or that times the height,
    /// overflow `usize`.
    #[verifier::external_body]
    pub(crate) fn new(width: u32, height: u32) -> (r: Canvas)
        requires
            rgb_fits(width, height),
        ensures
            canvas_size(r) == (width, height),
            canvas_pixels(r) == black_pixels(width, height),
    {
        Canvas { img: RgbImage::new(width, height) }
    }

    /// Relies on `ImageBuffer::from_raw`: an image over a row-major buffer,
    /// refused when the buffer is shorter than the image or when three bytes
    /// times the width overflow `usize`.
    #[verifier::external_body]
    pub(crate) fn from_raw(width: u32, height: u32, buf: Vec<u8>) -> (r: Option<Canvas>)
        ensures
            r is Some <==> (3 * (width as int) <= usize::MAX && rgb_len(width, height) <= buf@.len()),
            r is Some ==> canvas_size(r->Some_0) == (width, height),
            r is Some ==> canvas_pixels(r->Some_0) == raw_pixels(width, height, buf@),
    {
        RgbImage::from_raw(width, height, buf).map(|img| Canvas { img })
    }

    /// Relies on `ImageBuffer::into_raw`: the row-major buffer under the image.
    #[verifier::external_body]
    pub(crate) fn into_raw(self) -> (r: Vec<u8>)
        ensures
            rgb_len(canvas_size(self).0, canvas_size(self).1) <= r@.len(),
            raw_pixels(canvas_size(self).0, canvas_size(self).1, r@) == canvas_pixels(self),
    {
        self.img.into_raw()
    }

    /// Relies on `ImageBuffer::dimensions`: the width and height of the
    /// image, each of whose coordinates holds a pixel.
    #[verifier::external_body]
    pub(crate) fn dimensions(&self) -> (r: (u32, u32))
        ensures
            r == canvas_size(*self),
            canvas_pixels(*self).dom() == pixel_rect(r.0, r.1),
            rgb_len(r.0, r.1) <= usize::MAX,
    {
        self.img.dimensions()
    }

    /// Relies on `ImageBuffer::put_pixel`: overwrites the pixel at `(x, y)`;
    /// it panics outside the image.
    #[verifier::external_body]
    pub(crate) fn put_pixel(&mut self, x: u32, y: u32, rgb: [u8; 3])
        requires
            x < canvas_size(*old(self)).0,
            y < canvas_size(*old(self)).1,
        ensures
            canvas_size(*final(self)) == canvas_size(*old(self)),
            canvas_pixels(*final(self)) == canvas_pixels(*old(self)).insert((x, y), rgb),
    {
        self.img.put_pixel(x, y, image::Rgb(rgb))
    }

    /// Relies on `ImageBuffer::get_pixel`: the pixel at `(x, y)`; it panics
    /// outside the image.
    #[verifier::external_body]
    pub(crate) fn get_pixel(&self, x: u32, y: u32) -> (r: [u8; 3])
        requires
            x < canvas_size(*self).0,
            y < canvas_size(*self).1,
        ensures
            r == canvas_pixels(*self)[(x, y)],
    {
        self.img.get_pixel(x, y).0
    }
}

} // verus!
