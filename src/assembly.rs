//! Assembly of a rendered image from per-pixel results that arrive in any
//! order, each tagged with its coordinates.

use crate::raster::{
    black_pixels, canvas_pixels, canvas_size, pixel_rect, raw_pixels, rgb_fits, rgb_len, Canvas,
};
use vstd::arithmetic::div_mod::{lemma_fundamental_div_mod, lemma_fundamental_div_mod_converse};
use vstd::prelude::*;

verus! {

/// A finished pixel: its column, its row and its color.
pub type PixelMessage = (u32, u32, [u8; 3]);

/// Why a pixel or the image was refused.
#[derive(Debug, Clone, Copy, PartialEq, Eq, Structural)]
pub enum AssemblyError {
    /// A pixel outside the image.
    OutOfBounds { x: u32, y: u32 },
    /// A pixel after as many as the image has.
    TooManyPixels,
    /// The image was asked for before every pixel arrived.
    Incomplete { received: u64, expected: u64 },
}

/// What an assembly has seen: the size of the image and the pixels accepted
/// so far, in order of arrival.
pub struct FrameState {
    pub width: u32,
    pub height: u32,
    pub received: Seq<PixelMessage>,
}

/// The number of pixels of a `width` by `height` image.
pub open spec fn pixel_count(width: u32, height: u32) -> int {
    (width as int) * (height as int)
}

/// Whether a message lies inside a `width` by `height` image.
pub open spec fn message_in_bounds(width: u32, height: u32, m: PixelMessage) -> bool {
    m.0 < width && m.1 < height
}

/// The image after writing `msgs` one after the other into a black image:
/// each message overwrites the pixel at its coordinates.
pub open spec fn painted(width: u32, height: u32, msgs: Seq<PixelMessage>) -> Map<(u32, u32), [u8; 3]>
    decreases msgs.len(),
{
    if msgs.len() == 0 {
        black_pixels(width, height)
    } else {
        painted(width, height, msgs.drop_last()).insert((msgs.last().0, msgs.last().1), msgs.last().2)
    }
}

/// No two messages name the same pixel.
pub open spec fn distinct_pixels(msgs: Seq<PixelMessage>) -> bool {
    forall|i: int, j: int|
        0 <= i < msgs.len() && 0 <= j < msgs.len() && i != j ==> (#[trigger] msgs[i]).0 != (#[trigger] msgs[j]).0
            || msgs[i].1 != msgs[j].1
}

/// Collects the pixels of one image as they are finished.
pub struct ImageAssembly {
    canvas: Canvas,
    width: u32,
    height: u32,
    received: u64,
    log: Ghost<Seq<PixelMessage>>,
}

impl View for ImageAssembly {
    type V = FrameState;

    closed spec fn view(&self) -> FrameState {
        FrameState { width: self.width, height: self.height, received: self.log@ }
    }
}

impl ImageAssembly {
    /// The assembly's own bookkeeping agrees with its image.
    pub closed spec fn wf(&self) -> bool {
        &&& canvas_size(self.canvas) == (self.width, self.height)
        &&& rgb_len(self.width, self.height) <= usize::MAX
        &&& self.received as int == self.log@.len()
        &&& self.log@.len() <= pixel_count(self.width, self.height)
        &&& forall|i: int| 0 <= i < self.log@.len() ==> message_in_bounds(self.width, self.height, #[trigger] self.log@[i])
        &&& canvas_pixels(self.canvas) == painted(self.width, self.height, self.log@)
    }

    /// An empty assembly for a black `width` by `height` image.
    pub fn new(width: u32, height: u32) -> (r: ImageAssembly)
        requires
            rgb_fits(width, height),
        ensures
            r.wf(),
            r@.width == width,
            r@.height == height,
            r@.received == Seq::<PixelMessage>::empty(),
    {
        ImageAssembly {
            canvas: Canvas::new(width, height),
            width,
            height,
            received: 0,
            log: Ghost(Seq::empty()),
        }
    }

    /// The number of pixels the image has.
    pub fn expected(&self) -> (r: u64)
        requires
            self.wf(),
        ensures
            r == pixel_count(self@.width, self@.height),
    {
        proof {
            lemma_pixel_count_fits(self.width, self.height);
        }
        (self.width as u64) * (self.height as u64)
    }

    /// The number of pixels accepted so far.
    pub fn received_count(&self) -> (r: u64)
        requires
            self.wf(),
        ensures
            r == self@.received.len(),
    {
        self.received
    }

    /// Whether every pixel has arrived.
    pub fn is_complete(&self) -> (r: bool)
        requires
            self.wf(),
        ensures
            r == (self@.received.len() == pixel_count(self@.width, self@.height)),
    {
        self.received == self.expected()
    }

    /// Accepts the finished pixel `(x, y)`: it overwrites that pixel of the
    /// image. A pixel outside the image, or one more than the image has, is
    /// refused and changes nothing.
    pub fn receive(&mut self, x: u32, y: u32, rgb: [u8; 3]) -> (r: Result<(), AssemblyError>)
        requires
            old(self).wf(),
        ensures
            final(self).wf(),
            final(self)@.width == old(self)@.width,
            final(self)@.height == old(self)@.height,
            !(x < old(self)@.width && y < old(self)@.height) ==> r == Err::<(), AssemblyError>(
                AssemblyError::OutOfBounds { x, y },
            ),
            x < old(self)@.width && y < old(self)@.height && old(self)@.received.len() == pixel_count(
                old(self)@.width,
                old(self)@.height,
            ) ==> r == Err::<(), AssemblyError>(AssemblyError::TooManyPixels),
            r is Ok <==> x < old(self)@.width && y < old(self)@.height && old(self)@.received.len()
                < pixel_count(old(self)@.width, old(self)@.height),
            r is Ok ==> final(self)@.received == old(self)@.received.push((x, y, rgb)),
            r is Err ==> final(self)@.received == old(self)@.received,
    {
        if x >= self.width || y >= self.height {
            return Err(AssemblyError::OutOfBounds { x, y });
        }
        if self.received == self.expected() {
            return Err(AssemblyError::TooManyPixels);
        }
        self.canvas.put_pixel(x, y, rgb);
        self.received = self.received + 1;
        let ghost before = self.log@;
        self.log = Ghost(before.push((x, y, rgb)));
        proof {
            assert(self.log@.drop_last() =~= before);
        }
        Ok(())
    }

    /// The finished image as a row-major RGB buffer, once every pixel has
    /// arrived.
    pub fn finish(self) -> (r: Result<Vec<u8>, AssemblyError>)
        requires
            self.wf(),
        ensures
            self@.received.len() < pixel_count(self@.width, self@.height) ==> r == Err::<Vec<u8>, AssemblyError>(
                AssemblyError::Incomplete {
                    received: self@.received.len() as u64,
                    expected: pixel_count(self@.width, self@.height) as u64,
                },
            ),
            r is Ok <==> self@.received.len() == pixel_count(self@.width, self@.height),
            r is Ok ==> rgb_len(self@.width, self@.height) <= r->Ok_0@.len(),
            r is Ok ==> raw_pixels(self@.width, self@.height, r->Ok_0@) == painted(
                self@.width,
                self@.height,
                self@.received,
            ),
    {
        let expected = self.expected();
        if self.received < expected {
            return Err(AssemblyError::Incomplete { received: self.received, expected });
        }
        Ok(self.canvas.into_raw())
    }
}

/// The pixels of `painted` are those of the black image and those that some
/// message names.
proof fn lemma_painted_domain(width: u32, height: u32, msgs: Seq<PixelMessage>, p: (u32, u32))
    ensures
        painted(width, height, msgs).contains_key(p) <==> (p.0 < width && p.1 < height) || exists|i: int|
            0 <= i < msgs.len() && (#[trigger] msgs[i]).0 == p.0 && msgs[i].1 == p.1,
    decreases msgs.len(),
{
    if msgs.len() > 0 {
        let init = msgs.drop_last();
        lemma_painted_domain(width, height, init, p);
        if exists|i: int| 0 <= i < init.len() && (#[trigger] init[i]).0 == p.0 && init[i].1 == p.1 {
            let i = choose|i: int| 0 <= i < init.len() && (#[trigger] init[i]).0 == p.0 && init[i].1 == p.1;
            assert(msgs[i] == init[i]);
        }
        if exists|i: int| 0 <= i < msgs.len() && (#[trigger] msgs[i]).0 == p.0 && msgs[i].1 == p.1 {
            let i = choose|i: int| 0 <= i < msgs.len() && (#[trigger] msgs[i]).0 == p.0 && msgs[i].1 == p.1;
            if i < msgs.len() - 1 {
                assert(init[i] == msgs[i]);
            }
        }
    }
}

/// With no two messages on one pixel, each message's color is what the
/// image holds at its pixel.
proof fn lemma_painted_message(width: u32, height: u32, msgs: Seq<PixelMessage>, i: int)
    requires
        distinct_pixels(msgs),
        0 <= i < msgs.len(),
    ensures
        painted(width, height, msgs)[(msgs[i].0, msgs[i].1)] == msgs[i].2,
    decreases msgs.len(),
{
    let init = msgs.drop_last();
    if i < msgs.len() - 1 {
        assert(init[i] == msgs[i]);
        assert(distinct_pixels(init)) by {
            assert forall|a: int, b: int|
                0 <= a < init.len() && 0 <= b < init.len() && a != b implies (#[trigger] init[a]).0 != (#[trigger] init[b]).0
                || init[a].1 != init[b].1 by {
                assert(init[a] == msgs[a] && init[b] == msgs[b]);
            }
        }
        lemma_painted_message(width, height, init, i);
        assert(msgs[i].0 != msgs[msgs.len() - 1].0 || msgs[i].1 != msgs[msgs.len() - 1].1);
    }
}

/// A pixel that no message names keeps its black.
proof fn lemma_painted_untouched(width: u32, height: u32, msgs: Seq<PixelMessage>, p: (u32, u32))
    requires
        p.0 < width,
        p.1 < height,
        forall|i: int| 0 <= i < msgs.len() ==> (#[trigger] msgs[i]).0 != p.0 || msgs[i].1 != p.1,
    ensures
        painted(width, height, msgs)[p] == [0u8, 0u8, 0u8],
    decreases msgs.len(),
{
    if msgs.len() > 0 {
        let init = msgs.drop_last();
        assert forall|i: int| 0 <= i < init.len() implies (#[trigger] init[i]).0 != p.0 || init[i].1 != p.1 by {
            assert(init[i] == msgs[i]);
        }
        lemma_painted_untouched(width, height, init, p);
        assert(msgs[msgs.len() - 1].0 != p.0 || msgs[msgs.len() - 1].1 != p.1);
    }
}

/// The order in which finished pixels arrive does not change the image:
/// two arrival orders of the same messages, no two of which name one pixel,
/// paint the same image.
pub proof fn lemma_arrival_order_irrelevant(
    width: u32,
    height: u32,
    a: Seq<PixelMessage>,
    b: Seq<PixelMessage>,
)
    requires
        distinct_pixels(a),
        distinct_pixels(b),
        forall|m: PixelMessage| a.contains(m) <==> b.contains(m),
    ensures
        painted(width, height, a) == painted(width, height, b),
{
    let pa = painted(width, height, a);
    let pb = painted(width, height, b);
    assert forall|p: (u32, u32)| #[trigger] pa.contains_key(p) <==> pb.contains_key(p) by {
        lemma_painted_domain(width, height, a, p);
        lemma_painted_domain(width, height, b, p);
        if exists|i: int| 0 <= i < a.len() && (#[trigger] a[i]).0 == p.0 && a[i].1 == p.1 {
            let i = choose|i: int| 0 <= i < a.len() && (#[trigger] a[i]).0 == p.0 && a[i].1 == p.1;
            assert(a.contains(a[i]));
            let j = choose|j: int| 0 <= j < b.len() && b[j] == a[i];
            assert(b[j].0 == p.0 && b[j].1 == p.1);
        }
        if exists|j: int| 0 <= j < b.len() && (#[trigger] b[j]).0 == p.0 && b[j].1 == p.1 {
            let j = choose|j: int| 0 <= j < b.len() && (#[trigger] b[j]).0 == p.0 && b[j].1 == p.1;
            assert(b.contains(b[j]));
            let i = choose|i: int| 0 <= i < a.len() && a[i] == b[j];
            assert(a[i].0 == p.0 && a[i].1 == p.1);
        }
    }
    assert forall|p: (u32, u32)| pa.contains_key(p) implies #[trigger] pa[p] == pb[p] by {
        lemma_painted_domain(width, height, a, p);
        if exists|i: int| 0 <= i < a.len() && (#[trigger] a[i]).0 == p.0 && a[i].1 == p.1 {
            let i = choose|i: int| 0 <= i < a.len() && (#[trigger] a[i]).0 == p.0 && a[i].1 == p.1;
            assert(a.contains(a[i]));
            let j = choose|j: int| 0 <= j < b.len() && b[j] == a[i];
            lemma_painted_message(width, height, a, i);
            lemma_painted_message(width, height, b, j);
        } else {
            assert forall|j: int| 0 <= j < b.len() implies (#[trigger] b[j]).0 != p.0 || b[j].1 != p.1 by {
                assert(b.contains(b[j]));
                if b[j].0 == p.0 && b[j].1 == p.1 {
                    let i = choose|i: int| 0 <= i < a.len() && a[i] == b[j];
                    assert(a[i].0 == p.0 && a[i].1 == p.1);
                }
            }
            lemma_painted_untouched(width, height, a, p);
            lemma_painted_untouched(width, height, b, p);
        }
    }
    assert(pa =~= pb);
}

/// The `k`-th pixel handed out for rendering: rows from the bottom one up,
/// each row from left to right.
pub open spec fn job_at(width: u32, height: u32, k: int) -> (u32, u32) {
    ((k % (width as int)) as u32, ((height as int) - 1 - k / (width as int)) as u32)
}

/// The pixels of a `width` by `height` image in the order they are handed
/// out for rendering.
pub fn pixel_jobs(width: u32, height: u32) -> (r: Vec<(u32, u32)>)
    requires
        pixel_count(width, height) <= usize::MAX,
    ensures
        r@.len() == pixel_count(width, height),
        forall|k: int| 0 <= k < r@.len() ==> #[trigger] r@[k] == job_at(width, height, k),
{
    let mut jobs: Vec<(u32, u32)> = Vec::new();
    let mut row: u32 = 0;
    while row < height
        invariant
            pixel_count(width, height) <= usize::MAX,
            row <= height,
            jobs@.len() == (row as int) * (width as int),
            forall|k: int| 0 <= k < jobs@.len() ==> #[trigger] jobs@[k] == job_at(width, height, k),
        decreases height - row,
    {
        let y = height - 1 - row;
        let mut x: u32 = 0;
        while x < width
            invariant
                pixel_count(width, height) <= usize::MAX,
                row < height,
                y == height - 1 - row,
                x <= width,
                jobs@.len() == (row as int) * (width as int) + (x as int),
                forall|k: int| 0 <= k < jobs@.len() ==> #[trigger] jobs@[k] == job_at(width, height, k),
            decreases width - x,
        {
            proof {
                let k = (row as int) * (width as int) + (x as int);
                lemma_fundamental_div_mod_converse(k, width as int, row as int, x as int);
                assert(k < pixel_count(width, height)) by (nonlinear_arith)
                    requires
                        k == (row as int) * (width as int) + (x as int),
                        x < width,
                        row < height,
                        pixel_count(width, height) == (width as int) * (height as int),
                ;
            }
            jobs.push((x, y));
            x = x + 1;
        }
        row = row + 1;
        assert(jobs@.len() == (row as int) * (width as int)) by (nonlinear_arith)
            requires
                jobs@.len() == ((row - 1) as int) * (width as int) + (width as int),
        ;
    }
    assert((height as int) * (width as int) == pixel_count(width, height)) by (nonlinear_arith);
    jobs
}

/// Handing out pixels in `pixel_jobs` order gives every pixel of the image
/// exactly one job.
pub proof fn lemma_jobs_cover_image(width: u32, height: u32)
    ensures
        forall|k: int| 0 <= k < pixel_count(width, height) ==> pixel_rect(width, height).contains(
            #[trigger] job_at(width, height, k),
        ),
        forall|k1: int, k2: int|
            0 <= k1 < pixel_count(width, height) && 0 <= k2 < pixel_count(width, height) && k1 != k2
                ==> #[trigger] job_at(width, height, k1) != #[trigger] job_at(width, height, k2),
        forall|p: (u32, u32)| #[trigger] pixel_rect(width, height).contains(p) ==> exists|k: int|
            0 <= k < pixel_count(width, height) && job_at(width, height, k) == p,
{
    let w = width as int;
    let h = height as int;
    assert forall|k: int| 0 <= k < pixel_count(width, height) implies pixel_rect(width, height).contains(
        #[trigger] job_at(width, height, k),
    ) by {
        assert(w > 0) by (nonlinear_arith)
            requires
                0 <= k < w * h,
                h >= 0,
        ;
        lemma_fundamental_div_mod(k, w);
        assert(0 <= k % w < w);
        assert(0 <= k / w < h) by (nonlinear_arith)
            requires
                0 <= k < w * h,
                k == w * (k / w) + k % w,
                0 <= k % w < w,
        ;
    }
    assert forall|k1: int, k2: int|
        0 <= k1 < pixel_count(width, height) && 0 <= k2 < pixel_count(width, height) && k1 != k2
            implies #[trigger] job_at(width, height, k1) != #[trigger] job_at(width, height, k2) by {
        assert(w > 0) by (nonlinear_arith)
            requires
                0 <= k1 < w * h,
                h >= 0,
        ;
        lemma_fundamental_div_mod(k1, w);
        lemma_fundamental_div_mod(k2, w);
        assert(0 <= k1 / w < h) by (nonlinear_arith)
            requires
                0 <= k1 < w * h,
                k1 == w * (k1 / w) + k1 % w,
                0 <= k1 % w < w,
        ;
        assert(0 <= k2 / w < h) by (nonlinear_arith)
            requires
                0 <= k2 < w * h,
                k2 == w * (k2 / w) + k2 % w,
                0 <= k2 % w < w,
        ;
        if job_at(width, height, k1) == job_at(width, height, k2) {
            assert(k1 % w == k2 % w);
            assert(k1 / w == k2 / w);
        }
    }
    assert forall|p: (u32, u32)| #[trigger] pixel_rect(width, height).contains(p) implies exists|k: int|
        0 <= k < pixel_count(width, height) && job_at(width, height, k) == p by {
        let q = h - 1 - p.1 as int;
        let k = q * w + p.0 as int;
        lemma_fundamental_div_mod_converse(k, w, q, p.0 as int);
        assert(0 <= k < w * h) by (nonlinear_arith)
            requires
                k == q * w + p.0 as int,
                0 <= q < h,
                0 <= p.0 < w,
        ;
        assert(job_at(width, height, k) == p);
    }
}

proof fn lemma_pixel_count_fits(width: u32, height: u32)
    requires
        rgb_len(width, height) <= usize::MAX,
    ensures
        0 <= pixel_count(width, height) <= rgb_len(width, height),
        pixel_count(width, height) <= u64::MAX,
{
    assert(0 <= (width as int) * (height as int)) by (nonlinear_arith);
    assert(3 * (width as int) * (height as int) == 3 * ((width as int) * (height as int))) by (nonlinear_arith);
}

} // verus!
