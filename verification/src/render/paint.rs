//! What finished pixels do to the RGBA buffer.

use vstd::prelude::*;

verus! {

/// One finished pixel: its column, its row, and its red, green and blue.
pub type Pixel = (u32, u32, [u8; 3]);

/// Where the four bytes of `pixel` begin in a buffer of rows `width` wide.
pub open spec fn pixel_offset(pixel: Pixel, width: nat) -> int {
    pixel.0 * 4 + pixel.1 * width * 4
}

/// The four bytes of `pixel` lie inside a buffer of `len` bytes.
pub open spec fn pixel_fits(pixel: Pixel, width: nat, len: nat) -> bool {
    pixel_offset(pixel, width) + 3 < len
}

/// The buffer after `pixel` is written: its colour, then full opacity.
pub open spec fn paint(buffer: Seq<u8>, pixel: Pixel, width: nat) -> Seq<u8> {
    let at = pixel_offset(pixel, width);
    buffer.update(at, pixel.2[0]).update(at + 1, pixel.2[1]).update(at + 2, pixel.2[2]).update(
        at + 3,
        0xFFu8,
    )
}

/// The buffer after `pixels` are written one after the other.
pub open spec fn paint_all(buffer: Seq<u8>, pixels: Seq<Pixel>, width: nat) -> Seq<u8>
    decreases pixels.len(),
{
    if pixels.len() == 0 {
        buffer
    } else {
        paint(paint_all(buffer, pixels.drop_last(), width), pixels.last(), width)
    }
}

/// The byte that `pixel` puts at place `c` of its four: red, green, blue,
/// then full opacity.
pub open spec fn pixel_byte(pixel: Pixel, c: int) -> u8 {
    if c == 3 {
        0xFFu8
    } else {
        pixel.2[c]
    }
}

/// Byte `k` of the buffer is one of the four bytes of `pixel`.
pub open spec fn covers(pixel: Pixel, width: nat, k: int) -> bool {
    pixel_offset(pixel, width) <= k < pixel_offset(pixel, width) + 4
}

/// The index of the last of `pixels` that covers byte `k`, or -1 if none does.
pub open spec fn last_cover(pixels: Seq<Pixel>, width: nat, k: int) -> int
    decreases pixels.len(),
{
    if pixels.len() == 0 {
        -1
    } else if covers(pixels.last(), width, k) {
        pixels.len() - 1
    } else {
        last_cover(pixels.drop_last(), width, k)
    }
}

/// No two of `pixels` lie at the same place of the buffer.
pub open spec fn distinct_places(pixels: Seq<Pixel>, width: nat) -> bool {
    forall|i: int, j: int|
        0 <= i < j < pixels.len() ==> pixel_offset(#[trigger] pixels[i], width) != pixel_offset(
            #[trigger] pixels[j],
            width,
        )
}

/// Painting pixels that fit keeps the length of the buffer.
pub proof fn lemma_paint_all_len(buffer: Seq<u8>, pixels: Seq<Pixel>, width: nat)
    requires
        forall|i: int| 0 <= i < pixels.len() ==> pixel_fits(#[trigger] pixels[i], width, buffer.len()),
    ensures
        paint_all(buffer, pixels, width).len() == buffer.len(),
    decreases pixels.len(),
{
    if pixels.len() > 0 {
        lemma_paint_all_len(buffer, pixels.drop_last(), width);
        assert(pixel_fits(pixels[pixels.len() - 1], width, buffer.len()));
        lemma_offset_parts(pixels.last(), width);
    }
}

/// What `last_cover` finds: the last pixel that covers byte `k`, if any does.
pub proof fn lemma_last_cover(pixels: Seq<Pixel>, width: nat, k: int)
    ensures
        -1 <= last_cover(pixels, width, k) < pixels.len(),
        last_cover(pixels, width, k) >= 0 ==> covers(
            pixels[last_cover(pixels, width, k)],
            width,
            k,
        ),
        forall|i: int|
            last_cover(pixels, width, k) < i < pixels.len() ==> !covers(
                #[trigger] pixels[i],
                width,
                k,
            ),
    decreases pixels.len(),
{
    if pixels.len() > 0 && !covers(pixels.last(), width, k) {
        lemma_last_cover(pixels.drop_last(), width, k);
        assert forall|i: int| last_cover(pixels, width, k) < i < pixels.len() implies !covers(
            #[trigger] pixels[i],
            width,
            k,
        ) by {
            if i < pixels.len() - 1 {
                assert(pixels.drop_last()[i] == pixels[i]);
            }
        }
    }
}

/// After pixels are painted, each byte of the buffer is what the last pixel
/// that covers it put there, or what it was if no pixel covers it.
pub proof fn lemma_painted_byte(buffer: Seq<u8>, pixels: Seq<Pixel>, width: nat, k: int)
    requires
        forall|i: int| 0 <= i < pixels.len() ==> pixel_fits(#[trigger] pixels[i], width, buffer.len()),
        0 <= k < buffer.len(),
    ensures
        paint_all(buffer, pixels, width)[k] == if last_cover(pixels, width, k) >= 0 {
            let last = pixels[last_cover(pixels, width, k)];
            pixel_byte(last, k - pixel_offset(last, width))
        } else {
            buffer[k]
        },
    decreases pixels.len(),
{
    lemma_last_cover(pixels, width, k);
    if pixels.len() > 0 {
        let before = pixels.drop_last();
        lemma_paint_all_len(buffer, before, width);
        lemma_painted_byte(buffer, before, width, k);
        lemma_last_cover(before, width, k);
        assert(pixel_fits(pixels[pixels.len() - 1], width, buffer.len()));
        lemma_offset_parts(pixels.last(), width);
        if !covers(pixels.last(), width, k) && last_cover(before, width, k) >= 0 {
            assert(before[last_cover(before, width, k)] == pixels[last_cover(pixels, width, k)]);
        }
    }
}

/// Taking pixels in by parts gives the same buffer as taking them in at once.
pub proof fn lemma_paint_all_concat(
    buffer: Seq<u8>,
    first: Seq<Pixel>,
    second: Seq<Pixel>,
    width: nat,
)
    ensures
        paint_all(buffer, first + second, width) == paint_all(
            paint_all(buffer, first, width),
            second,
            width,
        ),
    decreases second.len(),
{
    if second.len() == 0 {
        assert(first + second == first);
    } else {
        lemma_paint_all_concat(buffer, first, second.drop_last(), width);
        assert((first + second).drop_last() == first + second.drop_last());
        assert((first + second).last() == second.last());
    }
}

/// The order in which pixels arrive does not show in the buffer, as long as
/// no two of them lie at the same place: two sequences of the same pixels
/// paint the same buffer.
pub proof fn lemma_paint_all_order_free(
    buffer: Seq<u8>,
    first: Seq<Pixel>,
    second: Seq<Pixel>,
    width: nat,
)
    requires
        forall|i: int| 0 <= i < first.len() ==> pixel_fits(#[trigger] first[i], width, buffer.len()),
        distinct_places(first, width),
        distinct_places(second, width),
        forall|pixel: Pixel| first.contains(pixel) <==> second.contains(pixel),
    ensures
        paint_all(buffer, first, width) == paint_all(buffer, second, width),
{
    assert forall|i: int| 0 <= i < second.len() implies pixel_fits(
        #[trigger] second[i],
        width,
        buffer.len(),
    ) by {
        assert(second.contains(second[i]));
        let j = choose|j: int| 0 <= j < first.len() && first[j] == second[i];
        assert(pixel_fits(first[j], width, buffer.len()));
    }
    lemma_paint_all_len(buffer, first, width);
    lemma_paint_all_len(buffer, second, width);
    assert forall|k: int| 0 <= k < buffer.len() implies paint_all(buffer, first, width)[k]
        == paint_all(buffer, second, width)[k] by {
        lemma_painted_byte(buffer, first, width, k);
        lemma_painted_byte(buffer, second, width, k);
        lemma_last_cover(first, width, k);
        lemma_last_cover(second, width, k);
        let a = last_cover(first, width, k);
        let b = last_cover(second, width, k);
        if a >= 0 {
            lemma_one_cover(first, second, width, k, a);
        }
        if b >= 0 {
            lemma_one_cover(second, first, width, k, b);
        }
    }
    assert(paint_all(buffer, first, width) =~= paint_all(buffer, second, width));
}

/// If `from[at]` covers byte `k` and is also in `to`, whose pixels lie at
/// distinct places, then it is the last pixel of `to` that covers `k`.
proof fn lemma_one_cover(from: Seq<Pixel>, to: Seq<Pixel>, width: nat, k: int, at: int)
    requires
        0 <= at < from.len(),
        covers(from[at], width, k),
        to.contains(from[at]),
        distinct_places(to, width),
    ensures
        last_cover(to, width, k) >= 0,
        to[last_cover(to, width, k)] == from[at],
{
    lemma_last_cover(to, width, k);
    let j = choose|j: int| 0 <= j < to.len() && to[j] == from[at];
    let b = last_cover(to, width, k);
    assert(covers(to[j], width, k));
    assert(b >= j);
    if b != j {
        // two pixels that cover one byte and begin at multiples of four
        // begin at the same place
        let p = to[j];
        let q = to[b];
        lemma_offset_is_fourfold(p, width);
        lemma_offset_is_fourfold(q, width);
        assert(pixel_offset(p, width) == pixel_offset(q, width));
        assert(false);
    }
}

/// The offset of a pixel is a multiple of four.
proof fn lemma_offset_is_fourfold(pixel: Pixel, width: nat)
    ensures
        pixel_offset(pixel, width) % 4 == 0,
{
    let x = pixel.0 as int;
    let yw = pixel.1 * width;
    assert((x * 4 + yw * 4) % 4 == 0) by (nonlinear_arith);
}

/// A pixel inside an image `width` by `height` fits the buffer of that image.
pub proof fn lemma_image_pixel_fits(pixel: Pixel, width: nat, height: nat)
    requires
        pixel.0 < width,
        pixel.1 < height,
    ensures
        pixel_fits(pixel, width, width * height * 4),
{
    let x = pixel.0 as int;
    let y = pixel.1 as int;
    let w = width as int;
    let h = height as int;
    assert(x * 4 + y * w * 4 + 3 < w * h * 4) by (nonlinear_arith)
        requires
            0 <= x < w,
            0 <= y < h,
    ;
}

/// Both terms of a pixel's offset are non-negative.
pub proof fn lemma_offset_parts(pixel: Pixel, width: nat)
    ensures
        0 <= pixel.0 * 4 <= pixel_offset(pixel, width),
        0 <= pixel.1 * width <= pixel.1 * width * 4 <= pixel_offset(pixel, width),
{
    let y = pixel.1 as int;
    let w = width as int;
    assert(0 <= y * w) by (nonlinear_arith)
        requires
            0 <= y,
            0 <= w,
    ;
}

} // verus!
