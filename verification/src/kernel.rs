//! The two kernels that turn one 3x3 window into one output luma sample.

use vstd::prelude::*;

verus! {

/// Which kernel a filtering pass applies to every window.
#[derive(Clone, Copy, Debug, PartialEq, Eq, Structural)]
pub enum FilterMode {
    /// Strength of the luma gradient, clipped to the range of a byte.
    EdgeMagnitude,
    /// The centre sample as it is.
    Passthrough,
}

/// Horizontal gradient of a window: its left column against its right
/// column, the middle row counted twice.
pub open spec fn gradient_x(w: Seq<u8>) -> int {
    (w[0] + 2 * w[3] + w[6]) - (w[2] + 2 * w[5] + w[8])
}

/// Vertical gradient of a window: its top row against its bottom row, the
/// middle column counted twice.
pub open spec fn gradient_y(w: Seq<u8>) -> int {
    (w[0] + 2 * w[1] + w[2]) - (w[6] + 2 * w[7] + w[8])
}

/// Square of the gradient's length.
pub open spec fn squared_magnitude(w: Seq<u8>) -> int {
    gradient_x(w) * gradient_x(w) + gradient_y(w) * gradient_y(w)
}

/// Whether `r` is the integer nearest to the square root of `n`, that is
/// `r - 1/2 < sqrt(n) < r + 1/2`, written without fractions. A square root
/// of an integer never lies exactly halfway between two integers, so no
/// tie has to be broken.
pub open spec fn is_nearest_root(n: int, r: int) -> bool {
    &&& 0 <= r
    &&& 4 * n < (2 * r + 1) * (2 * r + 1)
    &&& (r == 0 || (2 * r - 1) * (2 * r - 1) < 4 * n)
}

/// The square root of `n`, rounded to the nearest integer.
pub open spec fn nearest_root(n: nat) -> nat {
    choose|r: nat| is_nearest_root(n as int, r as int)
}

/// `v` as a byte, and 255 for every `v` above that: what is too bright
/// for a byte is clipped, and never wraps around to a dark value.
pub open spec fn clip(v: nat) -> u8 {
    if v > 255 {
        255u8
    } else {
        v as u8
    }
}

/// Output of the edge kernel: the rounded length of the gradient, clipped.
pub open spec fn edge_level(w: Seq<u8>) -> u8 {
    clip(nearest_root(squared_magnitude(w) as nat))
}

/// Output of the kernel that `mode` selects.
pub open spec fn kernel_output(mode: FilterMode, w: Seq<u8>) -> u8 {
    match mode {
        FilterMode::EdgeMagnitude => edge_level(w),
        FilterMode::Passthrough => w[4],
    }
}

/// The same predicate in the form that the search uses: `r` is the least
/// number whose product with its successor reaches `n`.
pub proof fn lemma_nearest_root_by_products(n: int, r: int)
    requires
        0 <= r,
    ensures
        is_nearest_root(n, r) <==> (n <= r * (r + 1) && (r == 0 || (r - 1) * r < n)),
{
    assert((2 * r + 1) * (2 * r + 1) == 4 * (r * (r + 1)) + 1) by (nonlinear_arith);
    assert((2 * r - 1) * (2 * r - 1) == 4 * ((r - 1) * r) + 1) by (nonlinear_arith);
}

/// At most one number is the nearest root of `n`.
pub proof fn lemma_nearest_root_unique(n: int, r1: int, r2: int)
    requires
        is_nearest_root(n, r1),
        is_nearest_root(n, r2),
    ensures
        r1 == r2,
{
    lemma_nearest_root_by_products(n, r1);
    lemma_nearest_root_by_products(n, r2);
    if r1 < r2 {
        assert(r1 * (r1 + 1) <= (r2 - 1) * r2) by (nonlinear_arith)
            requires
                0 <= r1 < r2,
        ;
    } else if r2 < r1 {
        assert(r2 * (r2 + 1) <= (r1 - 1) * r1) by (nonlinear_arith)
            requires
                0 <= r2 < r1,
        ;
    }
}

/// Every natural number has a nearest root.
pub proof fn lemma_nearest_root_exists(n: nat)
    ensures
        is_nearest_root(n as int, nearest_root(n) as int),
    decreases n,
{
    if n == 0 {
        lemma_nearest_root_by_products(0, 0);
        assert(is_nearest_root(n as int, 0nat as int));
    } else {
        lemma_nearest_root_exists((n - 1) as nat);
        let r: int = nearest_root((n - 1) as nat) as int;
        lemma_nearest_root_by_products(n - 1, r);
        lemma_nearest_root_by_products(n as int, r);
        lemma_nearest_root_by_products(n as int, r + 1);
        if n <= r * (r + 1) {
            assert(is_nearest_root(n as int, r));
        } else {
            assert((r + 1) * (r + 2) >= r * (r + 1) + 1) by (nonlinear_arith)
                requires
                    0 <= r,
            ;
            assert((r + 1 - 1) * (r + 1) == r * (r + 1)) by (nonlinear_arith);
            assert(is_nearest_root(n as int, r + 1));
            assert(is_nearest_root(n as int, ((r + 1) as nat) as int));
        }
    }
}

/// A number that passes the test is the nearest root.
pub proof fn lemma_nearest_root_is(n: nat, r: nat)
    requires
        is_nearest_root(n as int, r as int),
    ensures
        nearest_root(n) == r,
{
    lemma_nearest_root_exists(n);
    lemma_nearest_root_unique(n as int, r as int, nearest_root(n) as int);
}

/// The nearest root grows with its argument.
pub proof fn lemma_nearest_root_monotonic(m: nat, n: nat)
    requires
        m <= n,
    ensures
        nearest_root(m) <= nearest_root(n),
{
    lemma_nearest_root_exists(m);
    lemma_nearest_root_exists(n);
    let a = nearest_root(m) as int;
    let b = nearest_root(n) as int;
    lemma_nearest_root_by_products(m as int, a);
    lemma_nearest_root_by_products(n as int, b);
    if b < a {
        assert(b * (b + 1) <= (a - 1) * a) by (nonlinear_arith)
            requires
                0 <= b < a,
        ;
    }
}

/// Where clipping sets in: the rounded root is cut down to 255 exactly for
/// the numbers above `254 * 255`, whose roots lie above 254.5. Up to there
/// the output is the rounded root itself.
pub proof fn lemma_clip_threshold(n: nat)
    ensures
        n > 254 * 255 <==> clip(nearest_root(n)) == 255,
        n <= 254 * 255 ==> clip(nearest_root(n)) == nearest_root(n),
{
    lemma_nearest_root_by_products(64770, 254);
    lemma_nearest_root_is(64770, 254);
    lemma_nearest_root_by_products(64771, 255);
    lemma_nearest_root_is(64771, 255);
    if n > 254 * 255 {
        lemma_nearest_root_monotonic(64771, n);
    } else {
        lemma_nearest_root_monotonic(n, 64770);
    }
}

/// The edge kernel saturates: a window whose gradient is longer than 254.5
/// comes out as 255, however long the gradient is.
pub proof fn lemma_edge_level_saturates(w: Seq<u8>)
    requires
        squared_magnitude(w) > 254 * 255,
    ensures
        edge_level(w) == 255,
{
    lemma_clip_threshold(squared_magnitude(w) as nat);
}

/// Square root of `n`, rounded to the nearest integer.
pub fn rounded_sqrt(n: u32) -> (r: u32)
    ensures
        r == nearest_root(n as nat),
        is_nearest_root(n as int, r as int),
{
    let mut lo: u64 = 0;
    let mut hi: u64 = 65536;
    assert(n <= hi * (hi + 1)) by (nonlinear_arith)
        requires
            hi == 65536,
            n <= u32::MAX,
    ;
    while lo < hi
        invariant
            lo <= hi <= 65536,
            n <= hi * (hi + 1),
            lo == 0 || (lo - 1) * lo < n,
        decreases hi - lo,
    {
        let mid: u64 = lo + (hi - lo) / 2;
        assert(mid * (mid + 1) <= 65536 * 65537) by (nonlinear_arith)
            requires
                mid <= 65536,
        ;
        if n as u64 <= mid * (mid + 1) {
            hi = mid;
        } else {
            lo = mid + 1;
        }
    }
    proof {
        lemma_nearest_root_by_products(n as int, lo as int);
        lemma_nearest_root_is(n as nat, lo as nat);
    }
    lo as u32
}

/// The edge kernel: rounded length of the window's gradient, and 255 where
/// the length is greater than that.
pub fn edge_magnitude(window: &[u8; 9]) -> (luma: u8)
    ensures
        luma == edge_level(window@),
{
    let left: i32 = window[0] as i32 + 2 * (window[3] as i32) + window[6] as i32;
    let right: i32 = window[2] as i32 + 2 * (window[5] as i32) + window[8] as i32;
    let top: i32 = window[0] as i32 + 2 * (window[1] as i32) + window[2] as i32;
    let bottom: i32 = window[6] as i32 + 2 * (window[7] as i32) + window[8] as i32;
    let dx: i32 = left - right;
    let dy: i32 = top - bottom;
    assert(0 <= dx * dx <= 1020 * 1020) by (nonlinear_arith)
        requires
            -1020 <= dx <= 1020,
    ;
    assert(0 <= dy * dy <= 1020 * 1020) by (nonlinear_arith)
        requires
            -1020 <= dy <= 1020,
    ;
    let squared: u32 = (dx * dx + dy * dy) as u32;
    let root: u32 = rounded_sqrt(squared);
    if root > 255 {
        255
    } else {
        root as u8
    }
}

/// The identity kernel: the sample in the middle of the window.
pub fn passthrough(window: &[u8; 9]) -> (luma: u8)
    ensures
        luma == window@[4],
{
    window[4]
}

impl FilterMode {
    /// Applies the kernel that this mode selects to one window.
    pub fn apply(self, window: &[u8; 9]) -> (luma: u8)
        ensures
            luma == kernel_output(self, window@),
    {
        match self {
            FilterMode::EdgeMagnitude => edge_magnitude(window),
            FilterMode::Passthrough => passthrough(window),
        }
    }
}

} // verus!
