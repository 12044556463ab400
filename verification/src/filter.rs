//! Filtering a whole frame: one kernel application per pixel.

use crate::format::{
    in_bounds, luma_offset, pixel_index, Frame, OutputFrame, BUF_SIZE, HEIGHT, NEUTRAL_CHROMA,
    PIXELS, WIDTH,
};
use crate::kernel::{
    clip, gradient_x, gradient_y, kernel_output, lemma_nearest_root_by_products,
    lemma_nearest_root_is, lemma_nearest_root_monotonic, nearest_root, squared_magnitude,
    FilterMode,
};
use crate::neighbors::{convolve, neighborhood, window_at};
use crate::sampler::sample;
use vstd::prelude::*;

verus! {

/// The filtered image of `frame`: in every pixel's cell the kernel's output
/// for the window of that pixel, followed by the neutral chroma byte.
pub open spec fn filtered(frame: Seq<u8>, mode: FilterMode) -> Seq<u8> {
    Seq::new(
        BUF_SIZE as nat,
        |i: int|
            if i % 2 == 0 {
                kernel_output(mode, window_at(frame, i / 2))
            } else {
                NEUTRAL_CHROMA
            },
    )
}

/// `frame` with its luma samples kept and every chroma byte made neutral.
pub open spec fn with_neutral_chroma(frame: Seq<u8>) -> Seq<u8> {
    Seq::new(
        BUF_SIZE as nat,
        |i: int|
            if i % 2 == 0 {
                frame[i]
            } else {
                NEUTRAL_CHROMA
            },
    )
}

/// The identity kernel gives every pixel its own luma back: filtering with
/// it changes nothing but the chroma bytes.
pub proof fn lemma_passthrough_keeps_luma(frame: Seq<u8>)
    requires
        frame.len() == BUF_SIZE,
    ensures
        filtered(frame, FilterMode::Passthrough) == with_neutral_chroma(frame),
{
    assert forall|i: int| 0 <= i < BUF_SIZE implies filtered(frame, FilterMode::Passthrough)[i]
        == with_neutral_chroma(frame)[i] by {
        if i % 2 == 0 {
            let p = i / 2;
            assert(window_at(frame, p)[4] == frame[i]);
        }
    }
    assert(filtered(frame, FilterMode::Passthrough) =~= with_neutral_chroma(frame));
}

/// Whether `frame` has the luma `v` in every pixel.
pub open spec fn is_flat(frame: Seq<u8>, v: u8) -> bool {
    &&& frame.len() == BUF_SIZE
    &&& forall|i: int| 0 <= i < BUF_SIZE && i % 2 == 0 ==> #[trigger] frame[i] == v
}

/// Whether `(x, y)` is a pixel whose whole window lies inside the image.
pub open spec fn is_interior(x: int, y: int) -> bool {
    1 <= x < WIDTH - 1 && 1 <= y < HEIGHT - 1
}

/// Whether `(x, y)` is one of the four corner pixels.
pub open spec fn is_corner(x: int, y: int) -> bool {
    (x == 0 || x == WIDTH - 1) && (y == 0 || y == HEIGHT - 1)
}

/// What the edge kernel makes of a frame of luma `v` at the pixel `(x, y)`.
/// Inside, the field is flat and the gradient vanishes. On the outermost
/// ring the window takes in the zero padding: along an edge three of its
/// samples are padding, which gives a gradient of length `4 * v`, and in a
/// corner five are, which gives one of length `sqrt(18) * v`.
pub open spec fn flat_field_level(v: u8, x: int, y: int) -> u8 {
    if is_interior(x, y) {
        0
    } else if is_corner(x, y) {
        clip(nearest_root((18 * v * v) as nat))
    } else {
        clip((4 * v) as nat)
    }
}

/// The luma that a filtered image holds at a pixel is the kernel's output
/// for the window around that pixel.
pub proof fn lemma_filtered_pixel(frame: Seq<u8>, mode: FilterMode, x: int, y: int)
    requires
        in_bounds(x, y),
    ensures
        sample(filtered(frame, mode), x, y) == kernel_output(mode, neighborhood(frame, x, y)),
        filtered(frame, mode)[luma_offset(x, y) + 1] == NEUTRAL_CHROMA,
{
    let p = pixel_index(x, y);
    assert(p % (WIDTH as int) == x && p / (WIDTH as int) == y);
    assert(luma_offset(x, y) / 2 == p);
}

/// In a flat frame every sample is the one luma, and the padding is zero.
proof fn lemma_flat_sample(frame: Seq<u8>, v: u8, x: int, y: int)
    requires
        is_flat(frame, v),
    ensures
        sample(frame, x, y) == (if in_bounds(x, y) {
            v
        } else {
            0u8
        }),
{
    if in_bounds(x, y) {
        assert(frame[luma_offset(x, y)] == v);
    }
}

/// A frame of one luma everywhere comes out of the edge kernel black
/// inside and, unless it is black itself, with a ring of edge exactly one
/// pixel deep along the border of the image, where the field meets the
/// zero padding.
pub proof fn lemma_flat_field(frame: Seq<u8>, v: u8, x: int, y: int)
    requires
        is_flat(frame, v),
        in_bounds(x, y),
    ensures
        sample(filtered(frame, FilterMode::EdgeMagnitude), x, y) == flat_field_level(v, x, y),
        is_interior(x, y) || v == 0 ==> sample(filtered(frame, FilterMode::EdgeMagnitude), x, y)
            == 0,
        !is_interior(x, y) && v > 0 ==> sample(filtered(frame, FilterMode::EdgeMagnitude), x, y)
            > 0,
{
    lemma_filtered_pixel(frame, FilterMode::EdgeMagnitude, x, y);
    let w = neighborhood(frame, x, y);
    lemma_flat_sample(frame, v, x - 1, y - 1);
    lemma_flat_sample(frame, v, x, y - 1);
    lemma_flat_sample(frame, v, x + 1, y - 1);
    lemma_flat_sample(frame, v, x - 1, y);
    lemma_flat_sample(frame, v, x, y);
    lemma_flat_sample(frame, v, x + 1, y);
    lemma_flat_sample(frame, v, x - 1, y + 1);
    lemma_flat_sample(frame, v, x, y + 1);
    lemma_flat_sample(frame, v, x + 1, y + 1);
    let gx = gradient_x(w);
    let gy = gradient_y(w);
    let n = squared_magnitude(w);
    let vv: int = v as int;
    if is_interior(x, y) {
        assert(gx == 0 && gy == 0);
        assert(n == 0) by (nonlinear_arith)
            requires
                n == gx * gx + gy * gy,
                gx == 0,
                gy == 0,
        ;
        lemma_nearest_root_by_products(0, 0);
        lemma_nearest_root_is(0, 0);
    } else if is_corner(x, y) {
        assert((gx == 3 * vv || gx == -3 * vv) && (gy == 3 * vv || gy == -3 * vv));
        assert(n == 18 * vv * vv) by (nonlinear_arith)
            requires
                n == gx * gx + gy * gy,
                gx == 3 * vv || gx == -3 * vv,
                gy == 3 * vv || gy == -3 * vv,
        ;
        lemma_root_of_sixteen_squares(vv);
        assert(16 * vv * vv <= 18 * vv * vv) by (nonlinear_arith);
        assert(0 <= 16 * vv * vv) by (nonlinear_arith);
        lemma_nearest_root_monotonic((16 * vv * vv) as nat, (18 * vv * vv) as nat);
        if v == 0 {
            assert(18 * vv * vv == 0) by (nonlinear_arith)
                requires
                    vv == 0,
            ;
            lemma_nearest_root_by_products(0, 0);
            lemma_nearest_root_is(0, 0);
        }
    } else {
        assert((gx == 0 && (gy == 4 * vv || gy == -4 * vv)) || (gy == 0 && (gx == 4 * vv || gx == -4
            * vv)));
        assert(n == 16 * vv * vv) by (nonlinear_arith)
            requires
                n == gx * gx + gy * gy,
                (gx == 0 && (gy == 4 * vv || gy == -4 * vv)) || (gy == 0 && (gx == 4 * vv || gx
                    == -4 * vv)),
        ;
        lemma_root_of_sixteen_squares(vv);
    }
}

/// The root of `(4 * v)` squared is `4 * v`, with nothing to round.
proof fn lemma_root_of_sixteen_squares(v: int)
    requires
        0 <= v,
    ensures
        0 <= 16 * v * v,
        nearest_root((16 * v * v) as nat) == 4 * v,
{
    assert(0 <= 16 * v * v) by (nonlinear_arith)
        requires
            0 <= v,
    ;
    let r = 4 * v;
    lemma_nearest_root_by_products(16 * v * v, r);
    assert(16 * v * v <= r * (r + 1) && (r == 0 || (r - 1) * r < 16 * v * v)) by (nonlinear_arith)
        requires
            0 <= v,
            r == 4 * v,
    ;
    lemma_nearest_root_is((16 * v * v) as nat, r as nat);
}

/// Filters `input` with the kernel that `mode` selects and writes the
/// result over all of `output`. Nothing of what `output` held before is
/// left, so one buffer can serve frame after frame.
pub fn run(input: &Frame, mode: FilterMode, output: &mut OutputFrame)
    ensures
        final(output)@ == filtered(input@, mode),
        mode == FilterMode::Passthrough ==> final(output)@ == with_neutral_chroma(input@),
{
    let mut neighbors = convolve(input);
    let mut i: usize = 0;
    proof {
        use_type_invariant(&*output);
        use_type_invariant(input);
    }
    loop
        invariant
            neighbors.frame() == input@,
            i == 2 * neighbors.position(),
            0 <= neighbors.position() <= PIXELS,
            output@.len() == BUF_SIZE,
            forall|j: int| 0 <= j < i ==> output@[j] == filtered(input@, mode)[j],
        ensures
            i == BUF_SIZE,
            output@.len() == BUF_SIZE,
            forall|j: int| 0 <= j < i ==> output@[j] == filtered(input@, mode)[j],
        decreases PIXELS - neighbors.position(),
    {
        match neighbors.next() {
            None => {
                break ;
            },
            Some(window) => {
                let luma = mode.apply(&window);
                output.put(i, luma);
                output.put(i + 1, NEUTRAL_CHROMA);
                i += 2;
            },
        }
    }
    assert(output@ =~= filtered(input@, mode));
    proof {
        if mode == FilterMode::Passthrough {
            lemma_passthrough_keeps_luma(input@);
        }
    }
}

/// Edge detection on one frame: `run` with the edge kernel.
pub fn sobel(input: &Frame, output: &mut OutputFrame)
    ensures
        final(output)@ == filtered(input@, FilterMode::EdgeMagnitude),
{
    run(input, FilterMode::EdgeMagnitude, output)
}

} // verus!
