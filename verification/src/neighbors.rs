//! The 3x3 windows of a frame, one per pixel, in raster order.

use crate::format::{Frame, HEIGHT, PIXELS, WIDTH};
use crate::sampler::{get_pix, sample};
use vstd::prelude::*;

verus! {

/// The window around `(x, y)`: nine samples in row-major order, from the
/// top-left neighbour to the bottom-right one, the pixel itself at index 4.
pub open spec fn neighborhood(frame: Seq<u8>, x: int, y: int) -> Seq<u8> {
    Seq::new(9, |k: int| sample(frame, x - 1 + k % 3, y - 1 + k / 3))
}

/// The window of the pixel with raster index `i`.
pub open spec fn window_at(frame: Seq<u8>, i: int) -> Seq<u8> {
    neighborhood(frame, i % (WIDTH as int), i / (WIDTH as int))
}

/// Builds the window around `(x, y)` from nine samples. The centre may lie
/// anywhere: far from the image the window is all padding.
pub fn neighborhood_at(x: i64, y: i64, frame: &Frame) -> (window: [u8; 9])
    ensures
        window@ == neighborhood(frame@, x as int, y as int),
{
    if x < -1 || x > WIDTH as i64 || y < -1 || y > HEIGHT as i64 {
        let window: [u8; 9] = [0, 0, 0, 0, 0, 0, 0, 0, 0];
        assert(window@ =~= neighborhood(frame@, x as int, y as int));
        window
    } else {
        let window: [u8; 9] = [
            get_pix((x - 1, y - 1), frame),
            get_pix((x, y - 1), frame),
            get_pix((x + 1, y - 1), frame),
            get_pix((x - 1, y), frame),
            get_pix((x, y), frame),
            get_pix((x + 1, y), frame),
            get_pix((x - 1, y + 1), frame),
            get_pix((x, y + 1), frame),
            get_pix((x + 1, y + 1), frame),
        ];
        assert(window@ =~= neighborhood(frame@, x as int, y as int));
        window
    }
}

/// Walks over the pixels of one frame and hands out their windows.
///
/// A producer is bound to the frame it was made for and is used up by one
/// pass; `convolve` makes a fresh one.
pub struct Neighbors<'a> {
    frame: &'a Frame<'a>,
    idx: i64,
}

impl<'a> Neighbors<'a> {
    /// The walk never gets past the last pixel.
    #[verifier::type_invariant]
    spec fn position_in_frame(self) -> bool {
        0 <= self.idx <= PIXELS
    }

    /// The bytes of the frame that is being walked.
    pub closed spec fn frame(&self) -> Seq<u8> {
        self.frame@
    }

    /// How many windows have been handed out.
    pub closed spec fn position(&self) -> int {
        self.idx as int
    }

    /// Hands out the window of the next pixel in raster order, or `None`
    /// once every pixel of the frame has had its turn.
    pub fn next(&mut self) -> (item: Option<[u8; 9]>)
        ensures
            final(self).frame() == old(self).frame(),
            0 <= old(self).position() <= PIXELS,
            old(self).position() == PIXELS ==> item is None && final(self).position() == PIXELS,
            old(self).position() < PIXELS ==> final(self).position() == old(self).position() + 1,
            old(self).position() < PIXELS ==> (item matches Some(window) && window@ == window_at(
                old(self).frame(),
                old(self).position(),
            )),
    {
        proof {
            use_type_invariant(&*self);
        }
        if self.idx == PIXELS as i64 {
            None
        } else {
            let x: i64 = self.idx % (WIDTH as i64);
            let y: i64 = self.idx / (WIDTH as i64);
            self.idx += 1;
            Some(neighborhood_at(x, y, self.frame))
        }
    }
}

/// Starts a pass over `frame` at its first pixel.
pub fn convolve<'a>(frame: &'a Frame<'a>) -> (neighbors: Neighbors<'a>)
    ensures
        neighbors.frame() == frame@,
        neighbors.position() == 0,
{
    Neighbors { frame: frame, idx: 0 }
}

} // verus!
