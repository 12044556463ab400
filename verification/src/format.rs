//! The fixed frame geometry and the two buffer types built on it.
//!
//! A frame is `WIDTH` x `HEIGHT` pixels in packed 4:2:2 layout: every pixel
//! owns two bytes, the first of which is its luma sample. The second byte
//! of a pixel carries one half of the chroma pair it shares with its
//! horizontal neighbour.

use vstd::prelude::*;

verus! {

/// Pixels per row.
pub const WIDTH: u32 = 640;

/// Rows per frame.
pub const HEIGHT: u32 = 480;

/// Pixels per frame.
pub const PIXELS: usize = 307_200;

/// Bytes per frame: two for every pixel.
pub const BUF_SIZE: usize = 614_400;

/// The chroma byte that stands for "no colour".
pub const NEUTRAL_CHROMA: u8 = 0x80;

/// Whether `(x, y)` names a pixel of the image.
pub open spec fn in_bounds(x: int, y: int) -> bool {
    0 <= x < WIDTH && 0 <= y < HEIGHT
}

/// Raster index of the pixel at `(x, y)`.
pub open spec fn pixel_index(x: int, y: int) -> int {
    x + y * WIDTH
}

/// Byte offset of the luma sample of the pixel at `(x, y)`.
pub open spec fn luma_offset(x: int, y: int) -> int {
    2 * pixel_index(x, y)
}

/// One captured image, borrowed from whoever captured it.
pub struct Frame<'a> {
    bytes: &'a [u8],
}

impl<'a> Frame<'a> {
    /// A value of this type always holds exactly `BUF_SIZE` bytes.
    #[verifier::type_invariant]
    pub open spec fn well_formed(&self) -> bool {
        self@.len() == BUF_SIZE
    }

    /// The bytes of the frame.
    pub closed spec fn view(&self) -> Seq<u8> {
        self.bytes@
    }

    /// Accepts `bytes` as a frame if and only if it has the frame length.
    pub fn new(bytes: &'a [u8]) -> (frame: Option<Frame<'a>>)
        ensures
            frame is Some <==> bytes@.len() == BUF_SIZE,
            frame matches Some(f) ==> f@ == bytes@,
    {
        if bytes.len() == BUF_SIZE {
            Some(Frame { bytes })
        } else {
            None
        }
    }

    /// The bytes of the frame, all `BUF_SIZE` of them.
    pub fn as_bytes(&self) -> (bytes: &'a [u8])
        ensures
            bytes@ == self@,
            bytes@.len() == BUF_SIZE,
    {
        proof {
            use_type_invariant(self);
        }
        self.bytes
    }
}

/// One filtered image: a buffer of the frame length that a filtering pass
/// overwrites from its first byte to its last.
pub struct OutputFrame {
    bytes: Vec<u8>,
}

impl OutputFrame {
    /// A value of this type always holds exactly `BUF_SIZE` bytes.
    #[verifier::type_invariant]
    pub open spec fn well_formed(&self) -> bool {
        self@.len() == BUF_SIZE
    }

    /// The bytes of the buffer.
    pub closed spec fn view(&self) -> Seq<u8> {
        self.bytes@
    }

    /// A buffer of zeros.
    pub fn new() -> (out: OutputFrame)
        ensures
            out@ == Seq::new(BUF_SIZE as nat, |i: int| 0u8),
    {
        let bytes: Vec<u8> = vec![0u8; BUF_SIZE];
        assert(bytes@ =~= Seq::new(BUF_SIZE as nat, |i: int| 0u8));
        OutputFrame { bytes }
    }

    /// The bytes of the buffer, all `BUF_SIZE` of them.
    pub fn as_bytes(&self) -> (bytes: &[u8])
        ensures
            bytes@ == self@,
            bytes@.len() == BUF_SIZE,
    {
        proof {
            use_type_invariant(self);
        }
        self.bytes.as_slice()
    }

    /// Overwrites the byte at offset `i`.
    pub(crate) fn put(&mut self, i: usize, value: u8)
        requires
            i < BUF_SIZE,
        ensures
            final(self)@ == old(self)@.update(i as int, value),
    {
        proof {
            use_type_invariant(&*self);
        }
        self.bytes[i] = value;
    }
}

} // verus!
