//! Fixed-point numeric base of the library. A coordinate `c: i64` stands for
//! the real number `c / FP_ONE`, so the unit sphere has radius `FP_ONE` and
//! the parser's resolution is one millionth.

use vstd::prelude::*;

verus! {

/// One unit, in fixed-point coordinates.
pub const FP_ONE: i64 = 1_000_000;

/// Largest coordinate magnitude the library carries; parsing saturates here.
/// Kept low enough that the sum of three squared coordinates fits the
/// integer square root's domain.
pub const COORD_LIMIT: i64 = 1_000_000_000_000_000_000;

/// Upper end of [`isqrt`]'s domain: the square of [`ISQRT_MAX_ROOT`].
pub const ISQRT_MAX_INPUT: u128 = 4_000_000_000_000_000_000_000_000_000_000_000_000;

/// The square root of [`ISQRT_MAX_INPUT`].
pub const ISQRT_MAX_ROOT: u64 = 2_000_000_000_000_000_000;

/// `r` is the integer square root of `n`: the largest integer whose square
/// does not exceed `n`.
pub open spec fn is_isqrt(n: int, r: int) -> bool {
    &&& 0 <= r
    &&& r * r <= n
    &&& n < (r + 1) * (r + 1)
}

/// Integer square root by binary search.
pub fn isqrt(n: u128) -> (r: u64)
    requires
        n <= ISQRT_MAX_INPUT,
    ensures
        is_isqrt(n as int, r as int),
{
    let mut lo: u64 = 0;
    let mut hi: u64 = ISQRT_MAX_ROOT;
    assert((ISQRT_MAX_ROOT as int + 1) * (ISQRT_MAX_ROOT as int + 1) > ISQRT_MAX_INPUT as int)
        by (nonlinear_arith);
    while lo < hi
        invariant
            lo <= hi <= ISQRT_MAX_ROOT,
            (lo as int) * (lo as int) <= n as int,
            (hi as int + 1) * (hi as int + 1) > n as int,
        decreases hi - lo,
    {
        let mid: u64 = lo + (hi - lo + 1) / 2;
        proof {
            assert((mid as int) * (mid as int) <= (ISQRT_MAX_ROOT as int) * (ISQRT_MAX_ROOT
                as int) < u128::MAX) by (nonlinear_arith)
                requires
                    0 <= mid <= ISQRT_MAX_ROOT,
            ;
        }
        if (mid as u128) * (mid as u128) <= n {
            lo = mid;
        } else {
            hi = mid - 1;
        }
    }
    lo
}

} // verus!
