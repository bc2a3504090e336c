//! The finished buffer as an image of the `image` crate.

use vstd::prelude::*;

verus! {

/// An RGBA image of the `image` crate, which keeps width, height and bytes to
/// itself. It is held here as it is, and spoken of through `picture_bytes`
/// and `picture_size`.
#[verifier::external_body]
pub struct Picture {
    pub image: image::RgbaImage,
}

/// The bytes of the image, row after row, four to the pixel.
pub uninterp spec fn picture_bytes(picture: Picture) -> Seq<u8>;

/// Width and height of the image, in pixels.
pub uninterp spec fn picture_size(picture: Picture) -> (u32, u32);

/// `ImageBuffer::from_vec` for RGBA images: an image of the given size that
/// holds `buf`. The outside function works out the bytes it needs as four
/// times the width, times the height, in `usize`, and gives nothing if
/// either product does not fit or if `buf` is shorter than that.
#[verifier::external_body]
pub(crate) fn picture_from_vec(width: u32, height: u32, buf: Vec<u8>) -> (made: Option<Picture>)
    ensures
        made is Some <==> (4 * width <= usize::MAX && 4 * width * height <= buf.len()),
        made matches Some(picture) ==> picture_bytes(picture) == buf@ && picture_size(picture) == (
            width,
            height,
        ),
{
    image::RgbaImage::from_vec(width, height, buf).map(|image| Picture { image })
}

} // verus!
