use vstd::prelude::*;

verus! {

/// What an image texture holds, as plain values: its size in pixels, its
/// bytes, row after row, three to the pixel, and the length of a row in bytes.
pub struct ImageData {
    pub width: nat,
    pub height: nat,
    pub data: Seq<u8>,
    pub bytes_per_scanline: nat,
}

impl ImageData {
    /// Where the three bytes of the pixel in column `i` of row `j` begin.
    pub open spec fn offset(self, i: int, j: int) -> int {
        j * self.bytes_per_scanline + i * 3
    }

    /// The colour of the pixel in column `i` of row `j`.
    pub open spec fn pixel(self, i: int, j: int) -> (u8, u8, u8) {
        let at = self.offset(i, j);
        (self.data[at], self.data[at + 1], self.data[at + 2])
    }

    /// The column or row that index `k` stands for when there are `count` of
    /// them: itself, or the last one if it lies beyond.
    pub open spec fn clamp(k: int, count: nat) -> int {
        if k >= count {
            count - 1
        } else {
            k
        }
    }
}

/// A texture that is looked up in a decoded RGB image.
pub struct ImageTexture {
    data: Vec<u8>,
    width: u32,
    height: u32,
    bytes_per_scanline: u32,
}

impl View for ImageTexture {
    type V = ImageData;

    closed spec fn view(&self) -> ImageData {
        ImageData {
            width: self.width as nat,
            height: self.height as nat,
            data: self.data@,
            bytes_per_scanline: self.bytes_per_scanline as nat,
        }
    }
}

impl ImageTexture {
    pub const BYTES_PER_PIXEL: u32 = 3;

    /// The bytes are exactly the pixels, three for each, and a row is three
    /// bytes for each of its pixels long.
    pub open spec fn wf(&self) -> bool {
        &&& self@.data.len() == 3 * self@.width * self@.height
        &&& self@.data.len() <= usize::MAX
        &&& self@.bytes_per_scanline == 3 * self@.width
        &&& self@.bytes_per_scanline <= u32::MAX
    }

    /// A texture over the decoded image `data`, `width` by `height` pixels.
    /// An image that could not be loaded is passed as no bytes of size 0 by 0.
    pub fn new(width: u32, height: u32, data: Vec<u8>) -> (texture: ImageTexture)
        requires
            data.len() == 3 * width * height,
            3 * width <= u32::MAX,
        ensures
            texture.wf(),
            texture@ == (ImageData {
                width: width as nat,
                height: height as nat,
                data: data@,
                bytes_per_scanline: (3 * width) as nat,
            }),
    {
        let bytes_per_scanline = Self::BYTES_PER_PIXEL * width;
        ImageTexture { data, width, height, bytes_per_scanline }
    }

    pub fn width(&self) -> (width: u32)
        ensures
            width == self@.width,
    {
        self.width
    }

    pub fn height(&self) -> (height: u32)
        ensures
            height == self@.height,
    {
        self.height
    }

    /// The colour at column `i` of row `j`, counted from the top left.
    ///
    /// A column or row beyond the image stands for the last one. A texture
    /// without data has no colour to give.
    pub fn texel(&self, i: u32, j: u32) -> (rgb: Option<(u8, u8, u8)>)
        requires
            self.wf(),
        ensures
            rgb is None <==> self@.data.len() == 0,
            rgb matches Some(colour) ==> colour == self@.pixel(
                ImageData::clamp(i as int, self@.width),
                ImageData::clamp(j as int, self@.height),
            ),
    {
        if self.data.is_empty() {
            return None;
        }
        let mut i = i;
        let mut j = j;
        assert(self.width > 0 && self.height > 0) by (nonlinear_arith)
            requires
                3 * self.width * self.height > 0,
                self.width >= 0,
                self.height >= 0,
        ;
        if i >= self.width {
            i = self.width - 1;
        }
        if j >= self.height {
            j = self.height - 1;
        }
        proof {
            let w = self.width as int;
            let h = self.height as int;
            let (ci, cj) = (i as int, j as int);
            assert(cj * (3 * w) + ci * 3 + 3 <= 3 * w * h) by (nonlinear_arith)
                requires
                    0 <= ci < w,
                    0 <= cj < h,
            ;
            assert(0 <= cj * (3 * w)) by (nonlinear_arith)
                requires
                    0 <= cj,
                    0 <= w,
            ;
        }
        let pixel_index = j as usize * self.bytes_per_scanline as usize + i as usize
            * Self::BYTES_PER_PIXEL as usize;
        Some((self.data[pixel_index], self.data[pixel_index + 1], self.data[pixel_index + 2]))
    }
}

} // verus!
