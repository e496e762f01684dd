//! A sequential image stream: quantized pixels written one after the other,
//! row by row, and handed on only once the image is full.

use crate::raster::rgb_len;
use vstd::prelude::*;
use vstd::string::StringExecFns;
use vstd::string::StringSliceAdditionalSpecFns;

verus! {

/// Why a stream refused a pixel or its contents.
#[derive(Debug, Clone, Copy, PartialEq, Eq, Structural)]
pub enum StreamError {
    /// A pixel written after the image was full.
    Full,
    /// The contents were asked for before every pixel was written.
    Incomplete { written: usize, expected: usize },
}

/// What a stream holds: its size, its sample count and the bytes written.
pub struct StreamView {
    pub width: u32,
    pub height: u32,
    pub samples_per_pixel: u32,
    pub data: Seq<u8>,
}

/// A row-major RGB image filled one pixel at a time.
pub struct ImageStream {
    width: u32,
    height: u32,
    data: Vec<u8>,
    spp: u32,
}

impl View for ImageStream {
    type V = StreamView;

    closed spec fn view(&self) -> StreamView {
        StreamView { width: self.width, height: self.height, samples_per_pixel: self.spp, data: self.data@ }
    }
}

/// Whether the bytes hold `.png` somewhere.
pub open spec fn names_png(b: Seq<u8>) -> bool {
    exists|i: int| 0 <= i && i + 4 <= b.len() && #[trigger] b.subrange(i, i + 4) == seq![46u8, 112u8, 110u8, 103u8]
}

impl ImageStream {
    /// The stream never holds more bytes than its image.
    pub closed spec fn wf(&self) -> bool {
        &&& rgb_len(self.width, self.height) <= usize::MAX
        &&& self.data@.len() <= rgb_len(self.width, self.height)
    }

    /// An empty stream for a `width` by `height` image rendered with
    /// `samples_per_pixel` samples each.
    pub fn new(width: u32, height: u32, samples_per_pixel: u32) -> (r: ImageStream)
        requires
            rgb_len(width, height) <= usize::MAX,
        ensures
            r.wf(),
            r@.width == width,
            r@.height == height,
            r@.samples_per_pixel == samples_per_pixel,
            r@.data == Seq::<u8>::empty(),
    {
        ImageStream { width, height, data: Vec::new(), spp: samples_per_pixel }
    }

    /// The width of the image.
    pub fn width(&self) -> (r: u32)
        ensures
            r == self@.width,
    {
        self.width
    }

    /// The height of the image.
    pub fn height(&self) -> (r: u32)
        ensures
            r == self@.height,
    {
        self.height
    }

    /// The number of samples each pixel was rendered with.
    pub fn samples_per_pixel(&self) -> (r: u32)
        ensures
            r == self@.samples_per_pixel,
    {
        self.spp
    }

    /// The number of bytes of the full image.
    pub fn expected_len(&self) -> (r: usize)
        requires
            self.wf(),
        ensures
            r == rgb_len(self@.width, self@.height),
    {
        assert(0 <= (self.width as int) * (self.height as int)) by (nonlinear_arith);
        assert(3 * (self.width as int) * (self.height as int) == 3 * ((self.width as int) * (self.height as int)))
            by (nonlinear_arith);
        3 * ((self.width as usize) * (self.height as usize))
    }

    /// Appends the next pixel; refused, with nothing written, once the image
    /// is full.
    pub fn push_rgb(&mut self, rgb: [u8; 3]) -> (r: Result<(), StreamError>)
        requires
            old(self).wf(),
        ensures
            final(self).wf(),
            final(self)@.width == old(self)@.width,
            final(self)@.height == old(self)@.height,
            final(self)@.samples_per_pixel == old(self)@.samples_per_pixel,
            r is Err <==> old(self)@.data.len() + 3 > rgb_len(old(self)@.width, old(self)@.height),
            r is Err ==> r == Err::<(), StreamError>(StreamError::Full) && final(self)@.data == old(self)@.data,
            r is Ok ==> final(self)@.data == old(self)@.data + seq![rgb[0], rgb[1], rgb[2]],
    {
        let expected = self.expected_len();
        if self.data.len() >= expected || expected - self.data.len() < 3 {
            return Err(StreamError::Full);
        }
        let ghost before = self.data@;
        self.data.push(rgb[0]);
        self.data.push(rgb[1]);
        self.data.push(rgb[2]);
        assert(self.data@ =~= before + seq![rgb[0], rgb[1], rgb[2]]);
        Ok(())
    }

    /// Whether every pixel has been written.
    pub fn is_complete(&self) -> (r: bool)
        requires
            self.wf(),
        ensures
            r == (self@.data.len() == rgb_len(self@.width, self@.height)),
    {
        self.data.len() == self.expected_len()
    }

    /// The full image's bytes, refused until every pixel has been written.
    pub fn finished_bytes(&self) -> (r: Result<&Vec<u8>, StreamError>)
        requires
            self.wf(),
        ensures
            r is Ok <==> self@.data.len() == rgb_len(self@.width, self@.height),
            r is Ok ==> r->Ok_0@ == self@.data,
            r is Err ==> r == Err::<&Vec<u8>, StreamError>(
                StreamError::Incomplete {
                    written: self@.data.len() as usize,
                    expected: rgb_len(self@.width, self@.height) as usize,
                },
            ),
    {
        let expected = self.expected_len();
        if self.data.len() != expected {
            return Err(StreamError::Incomplete { written: self.data.len(), expected });
        }
        Ok(&self.data)
    }
}

/// The path a PNG is written to: `path` itself when it holds `.png`, else
/// `path` with `.png` appended.
pub fn png_path(path: &str) -> (r: String)
    ensures
        names_png(path.spec_bytes()) ==> r@ == path@,
        !names_png(path.spec_bytes()) ==> r@ == path@ + ".png"@,
{
    let b = path.as_bytes();
    let n = b.len();
    let mut found = false;
    let mut i: usize = 0;
    while n >= 4 && i <= n - 4
        invariant
            b@ == path.spec_bytes(),
            n == b@.len(),
            found <==> exists|k: int| 0 <= k < i && k + 4 <= n && #[trigger] b@.subrange(k, k + 4) == seq![
                46u8,
                112u8,
                110u8,
                103u8,
            ],
        decreases n - i,
    {
        if b[i] == 46u8 && b[i + 1] == 112u8 && b[i + 2] == 110u8 && b[i + 3] == 103u8 {
            assert(b@.subrange(i as int, i + 4) =~= seq![46u8, 112u8, 110u8, 103u8]);
            found = true;
        } else {
            assert(b@.subrange(i as int, i + 4) != seq![46u8, 112u8, 110u8, 103u8]) by {
                let s = b@.subrange(i as int, i + 4);
                assert(s[0] == b@[i as int] && s[1] == b@[i + 1] && s[2] == b@[i + 2] && s[3] == b@[i + 3]);
            }
        }
        i = i + 1;
    }
    let mut out = path.to_owned();
    if !found {
        out.append(".png");
    }
    out
}

} // verus!
