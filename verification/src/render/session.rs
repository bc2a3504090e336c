//! The session of a render: buffer, count and progress.

use crate::render::paint::{
    lemma_offset_parts, lemma_paint_all_len, paint, paint_all, pixel_fits, pixel_offset, Pixel,
};
use crate::render::picture::{picture_bytes, picture_from_vec, picture_size, Picture};
use crate::render::workers::{clamped_workers, logical_cpus, worker_count};
use vstd::prelude::*;

verus! {

/// What a render session holds, as plain values.
pub struct RenderState {
    pub width: nat,
    pub height: nat,
    /// The RGBA buffer, row after row, four bytes to the pixel.
    pub pixels: Seq<u8>,
    /// Workers have been started and not yet been seen to be done.
    pub in_progress: bool,
    /// How many pixels have been taken in since the render began.
    pub received: nat,
    pub threads_to_use: usize,
}

/// The session of one render: the pixel buffer that workers fill, the count
/// of pixels that have arrived, and whether workers are running.
pub struct ThreadedRenderer {
    image_width: usize,
    image_height: usize,
    pixels: Vec<u8>,
    rendering: bool,
    pixel_counter: usize,
    pub threads_to_use: usize,
}

impl View for ThreadedRenderer {
    type V = RenderState;

    closed spec fn view(&self) -> RenderState {
        RenderState {
            width: self.image_width as nat,
            height: self.image_height as nat,
            pixels: self.pixels@,
            in_progress: self.rendering,
            received: self.pixel_counter as nat,
            threads_to_use: self.threads_to_use,
        }
    }
}

impl Default for ThreadedRenderer {
    /// A session that has not rendered anything: an empty image, no workers,
    /// one thread asked for.
    fn default() -> (renderer: Self)
        ensures
            renderer.wf(),
            renderer@ == (RenderState {
                width: 0,
                height: 0,
                pixels: Seq::empty(),
                in_progress: false,
                received: 0,
                threads_to_use: 1,
            }),
    {
        Self {
            image_width: 0,
            image_height: 0,
            pixels: Vec::new(),
            rendering: false,
            pixel_counter: 0,
            threads_to_use: 1,
        }
    }
}

impl ThreadedRenderer {
    /// The buffer holds four bytes for each pixel of the image, and the image
    /// is no larger than image sizes go.
    pub open spec fn wf(&self) -> bool {
        &&& self@.pixels.len() == self@.width * self@.height * 4
        &&& self@.pixels.len() <= usize::MAX
        &&& self@.width <= u32::MAX
        &&& self@.height <= u32::MAX
    }

    /// Every pixel of the image has arrived.
    pub open spec fn finished(&self) -> bool {
        self@.received >= self@.height * self@.width
    }

    /// Begins a render of an image `image_width` by `image_height`.
    ///
    /// While a render is in progress the call is refused, whatever the size
    /// asked for: nothing changes and `None` comes back. Otherwise the buffer
    /// must fit the machine; it is cleared to the new size, the
    /// count of pixels starts again at zero, and the number of workers to
    /// start is returned: `threads_to_use`, limited to what the machine has.
    pub fn start_render(&mut self, image_width: u32, image_height: u32) -> (workers: Option<usize>)
        requires
            old(self).wf(),
            !old(self)@.in_progress ==> image_width * image_height * 4 <= usize::MAX,
        ensures
            final(self).wf(),
            old(self)@.in_progress ==> workers is None && final(self)@ == old(self)@,
            !old(self)@.in_progress ==> {
                &&& final(self)@ == (RenderState {
                    width: image_width as nat,
                    height: image_height as nat,
                    pixels: Seq::new((image_width * image_height * 4) as nat, |i: int| 0u8),
                    in_progress: true,
                    received: 0,
                    threads_to_use: old(self)@.threads_to_use,
                })
                &&& workers matches Some(n)
                &&& exists|available: usize|
                    available >= 1 && n == #[trigger] clamped_workers(
                        old(self)@.threads_to_use,
                        available,
                    )
            },
    {
        if self.rendering {
            return None;
        }
        self.pixel_counter = 0;
        self.init_pixels(image_width as usize, image_height as usize);

        let available = logical_cpus();
        let num_threads = worker_count(self.threads_to_use, available);
        self.rendering = true;
        Some(num_threads)
    }

    /// Takes in the pixels that have arrived since the last call.
    ///
    /// A render that was in progress and whose pixels had all arrived before
    /// this call is no longer in progress. Each new pixel is written to the
    /// buffer, in the order given, and counted. Returns whether any came.
    pub fn check_progress(&mut self, new_pixels: &[Pixel]) -> (progress: bool)
        requires
            old(self).wf(),
            old(self)@.received + new_pixels.len() <= usize::MAX,
            forall|i: int|
                0 <= i < new_pixels.len() ==> pixel_fits(
                    #[trigger] new_pixels[i],
                    old(self)@.width,
                    old(self)@.pixels.len(),
                ),
        ensures
            final(self).wf(),
            progress == (new_pixels.len() > 0),
            final(self)@ == (RenderState {
                pixels: paint_all(old(self)@.pixels, new_pixels@, old(self)@.width),
                in_progress: old(self)@.in_progress && !old(self).finished(),
                received: old(self)@.received + new_pixels.len() as nat,
                ..old(self)@
            }),
    {
        if self.rendering && self.is_render_finished() {
            self.rendering = false;
        }
        let mut i: usize = 0;
        while i < new_pixels.len()
            invariant
                i <= new_pixels.len(),
                self.wf(),
                old(self)@.received + new_pixels.len() <= usize::MAX,
                forall|k: int|
                    0 <= k < new_pixels.len() ==> pixel_fits(
                        #[trigger] new_pixels[k],
                        old(self)@.width,
                        old(self)@.pixels.len(),
                    ),
                self@ == (RenderState {
                    pixels: paint_all(old(self)@.pixels, new_pixels@.take(i as int), old(self)@.width),
                    in_progress: old(self)@.in_progress && !old(self).finished(),
                    received: old(self)@.received + i as nat,
                    ..old(self)@
                }),
            decreases new_pixels.len() - i,
        {
            proof {
                lemma_paint_all_len(old(self)@.pixels, new_pixels@.take(i as int), old(self)@.width);
                assert(new_pixels@.take(i + 1).drop_last() == new_pixels@.take(i as int));
            }
            self.set_pixel(&new_pixels[i]);
            self.pixel_counter += 1;
            i += 1;
        }
        assert(new_pixels@.take(i as int) == new_pixels@);
        new_pixels.len() > 0
    }

    /// The RGBA buffer, row after row.
    pub fn get_pixels(&self) -> (pixels: &[u8])
        ensures
            pixels@ == self@.pixels,
    {
        self.pixels.as_slice()
    }

    /// A copy of the buffer as an image: the bytes as they stand, finished
    /// or not, with the size of the render. There is no image where four
    /// bytes for each pixel of a single row are more than a `usize` counts;
    /// only an image without rows can be that wide.
    pub fn get_image(&self) -> (image: Option<Picture>)
        requires
            self.wf(),
        ensures
            image is Some <==> 4 * self@.width <= usize::MAX,
            image matches Some(picture) ==> picture_bytes(picture) == self@.pixels && picture_size(
                picture,
            ) == (self@.width as u32, self@.height as u32),
    {
        let mut image_vec: Vec<u8> = Vec::new();
        image_vec.extend_from_slice(self.pixels.as_slice());
        assert(image_vec@ =~= self.pixels@);
        assert(4 * self.image_width * self.image_height == self.image_width * self.image_height
            * 4) by (nonlinear_arith);
        picture_from_vec(self.image_width as u32, self.image_height as u32, image_vec)
    }

    /// Whether workers have been started and not yet been seen to be done.
    pub fn is_render_in_progress(&self) -> (in_progress: bool)
        ensures
            in_progress == self@.in_progress,
    {
        self.rendering
    }

    /// Width and height of the image, in this order.
    pub fn get_image_size(&self) -> (size: [usize; 2])
        ensures
            size[0] == self@.width,
            size[1] == self@.height,
    {
        [self.image_width, self.image_height]
    }

    /// Whether every pixel of the image has arrived.
    pub fn is_render_finished(&self) -> (finished: bool)
        requires
            self.wf(),
        ensures
            finished == self.finished(),
    {
        assert(self.image_height * self.image_width == self.image_width * self.image_height)
            by (nonlinear_arith);
        assert(0 <= self.image_width * self.image_height) by (nonlinear_arith);
        self.pixel_counter >= self.image_height * self.image_width
    }

    /// How many pixels have been taken in since the render began.
    pub fn pixels_received(&self) -> (received: usize)
        ensures
            received == self@.received,
    {
        self.pixel_counter
    }

    /// Whether the four bytes of `pixel` lie inside the buffer.
    pub fn holds(&self, pixel: &Pixel) -> (inside: bool)
        ensures
            inside == pixel_fits(*pixel, self@.width, self@.pixels.len()),
    {
        assert(pixel.1 * self.image_width <= 0xFFFF_FFFF * 0xFFFF_FFFF_FFFF_FFFF) by (nonlinear_arith)
            requires
                0 <= pixel.1 <= 0xFFFF_FFFF,
                0 <= self.image_width <= 0xFFFF_FFFF_FFFF_FFFF,
        ;
        let len: u128 = self.pixels.len() as u128;
        let offset: u128 = pixel.0 as u128 * 4 + pixel.1 as u128 * self.image_width as u128 * 4;
        offset + 3 < len
    }

    /// Sets the image size and clears the buffer to transparent black.
    fn init_pixels(&mut self, width: usize, height: usize)
        requires
            width <= u32::MAX,
            height <= u32::MAX,
            width * height * 4 <= usize::MAX,
        ensures
            final(self).wf(),
            final(self)@ == (RenderState {
                width: width as nat,
                height: height as nat,
                pixels: Seq::new((width * height * 4) as nat, |i: int| 0u8),
                ..old(self)@
            }),
    {
        self.image_width = width;
        self.image_height = height;
        assert(0 <= width * height) by (nonlinear_arith);
        let vec_size = width * height * 4;
        self.pixels = vec![0u8; vec_size];
        assert(self.pixels@ =~= Seq::new((width * height * 4) as nat, |i: int| 0u8));
    }

    /// Writes one pixel into the buffer.
    pub fn set_pixel(&mut self, pixel: &Pixel)
        requires
            old(self).wf(),
            pixel_fits(*pixel, old(self)@.width, old(self)@.pixels.len()),
        ensures
            final(self).wf(),
            final(self)@ == (RenderState {
                pixels: paint(old(self)@.pixels, *pixel, old(self)@.width),
                ..old(self)@
            }),
    {
        proof {
            lemma_offset_parts(*pixel, self@.width);
        }
        let index = pixel.0 as usize * 4 + (pixel.1 as usize * self.image_width * 4);
        let mut i: usize = 0;
        while i < 3
            invariant
                i <= 3,
                index == pixel_offset(*pixel, old(self)@.width),
                index + 3 < self.pixels.len(),
                self.pixels.len() == old(self)@.pixels.len(),
                self.image_width == old(self).image_width,
                self.image_height == old(self).image_height,
                self.rendering == old(self).rendering,
                self.pixel_counter == old(self).pixel_counter,
                self.threads_to_use == old(self).threads_to_use,
                forall|k: int|
                    0 <= k < self.pixels.len() ==> self.pixels[k] == if index <= k < index + i {
                        pixel.2[k - index]
                    } else {
                        old(self).pixels[k]
                    },
            decreases 3 - i,
        {
            self.pixels[index + i] = pixel.2[i];
            i += 1;
        }
        self.pixels[index + 3] = 0xFF;
        assert(self.pixels@ =~= paint(old(self)@.pixels, *pixel, old(self)@.width));
    }
}

/// What to report of the scan lines when pixel number `received`, counted
/// from zero, has arrived. With the first pixel of each line one line more
/// counts as begun, and the number of lines not yet begun is reported;
/// between the first pixels of two lines there is nothing to report.
pub fn scanlines_remaining(image_width: u32, image_height: u32, received: u32) -> (remaining:
    Option<u32>)
    requires
        received < image_width * image_height,
    ensures
        received % image_width == 0 ==> remaining == Some(
            (image_height - received / image_width - 1) as u32,
        ) && received / image_width < image_height,
        received % image_width != 0 ==> remaining is None,
{
    assert(image_width > 0 && received / image_width < image_height) by (nonlinear_arith)
        requires
            0 <= received < image_width * image_height,
            0 <= image_width,
            0 <= image_height,
    ;
    if received % image_width == 0 {
        let lines_done = received / image_width + 1;
        Some(image_height - lines_done)
    } else {
        None
    }
}

} // verus!
