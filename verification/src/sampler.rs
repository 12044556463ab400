//! Reading one luma sample of a frame by pixel coordinate.

use crate::format::{in_bounds, luma_offset, pixel_index, Frame, BUF_SIZE, HEIGHT, PIXELS, WIDTH};
use vstd::prelude::*;

verus! {

/// The luma sample at `(x, y)`: the byte that the pixel's cell starts with,
/// and zero for every coordinate that lies outside the image.
pub open spec fn sample(frame: Seq<u8>, x: int, y: int) -> u8 {
    if in_bounds(x, y) {
        frame[luma_offset(x, y)]
    } else {
        0
    }
}

/// The chroma pair that the pixel at `(x, y)` shares with its horizontal
/// neighbour: the second and the fourth byte of the four-byte group that
/// holds both pixels. Outside the image both bytes are zero, as every
/// sample there is.
pub open spec fn chroma(frame: Seq<u8>, x: int, y: int) -> (u8, u8) {
    if in_bounds(x, y) {
        (frame[chroma_offset(x, y)], frame[chroma_offset(x, y) + 2])
    } else {
        (0u8, 0u8)
    }
}

/// Byte offset of the first chroma byte of the pair of pixels to which
/// `(x, y)` belongs.
pub open spec fn chroma_offset(x: int, y: int) -> int {
    4 * (pixel_index(x, y) / 2) + 1
}

/// Where the bytes of a pixel lie. Its luma is inside the frame, at the
/// start of its own two-byte cell: at the first byte of its group of four
/// for an even `x`, at the third for an odd one. Its chroma pair takes the
/// other two bytes of that group, whatever the parity of `x`.
pub proof fn lemma_pixel_layout(x: int, y: int)
    requires
        in_bounds(x, y),
    ensures
        0 <= pixel_index(x, y) < PIXELS,
        0 <= luma_offset(x, y) < BUF_SIZE,
        0 <= chroma_offset(x, y) < chroma_offset(x, y) + 2 < BUF_SIZE,
        x % 2 == 0 ==> luma_offset(x, y) == chroma_offset(x, y) - 1,
        x % 2 == 1 ==> luma_offset(x, y) == chroma_offset(x, y) + 1,
{
}

/// The two pixels of a pair have their own luma and the same chroma.
pub proof fn lemma_pair_shares_chroma(frame: Seq<u8>, x: int, y: int)
    requires
        in_bounds(x, y),
        x % 2 == 0,
    ensures
        in_bounds(x + 1, y),
        chroma(frame, x + 1, y) == chroma(frame, x, y),
        luma_offset(x + 1, y) == luma_offset(x, y) + 2,
{
}

/// Returns the luma sample of the pixel at `pos`, which is `(x, y)`.
/// The image is padded with zeros: outside of it every sample is 0, and
/// no byte of the frame is read.
pub fn get_pix(pos: (i64, i64), frame: &Frame) -> (luma: u8)
    ensures
        luma == sample(frame@, pos.0 as int, pos.1 as int),
        !in_bounds(pos.0 as int, pos.1 as int) ==> luma == 0,
{
    let x: i64 = pos.0;
    let y: i64 = pos.1;
    if x < 0 || y < 0 || x >= WIDTH as i64 || y >= HEIGHT as i64 {
        0
    } else {
        let bytes = frame.as_bytes();
        let idx: usize = ((x + y * (WIDTH as i64)) * 2) as usize;
        bytes[idx]
    }
}

/// Returns the chroma pair of the pixel at `pos`: the two colour bytes that
/// it shares with the other pixel of its pair. Outside the image both are
/// zero, and no byte of the frame is read.
pub fn get_chroma(pos: (i64, i64), frame: &Frame) -> (pair: (u8, u8))
    ensures
        pair == chroma(frame@, pos.0 as int, pos.1 as int),
{
    let x: i64 = pos.0;
    let y: i64 = pos.1;
    if x < 0 || y < 0 || x >= WIDTH as i64 || y >= HEIGHT as i64 {
        (0, 0)
    } else {
        let bytes = frame.as_bytes();
        let first: usize = (((x + y * (WIDTH as i64)) / 2) * 4 + 1) as usize;
        (bytes[first], bytes[first + 2])
    }
}

} // verus!
