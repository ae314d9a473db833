//! Integer square roots.

use vstd::prelude::*;

verus! {

/// `r` is the square root of `n`, rounded down: the one natural number whose
/// square does not exceed `n` while the square of its successor does.
pub open spec fn is_floor_sqrt(n: int, r: int) -> bool {
    &&& 0 <= r
    &&& r * r <= n
    &&& n < (r + 1) * (r + 1)
}

/// Squaring keeps the order of natural numbers.
pub proof fn lemma_square_monotone(a: int, b: int)
    by (nonlinear_arith)
    requires
        0 <= a <= b,
    ensures
        a * a <= b * b,
{
}

/// Squaring keeps the strict order of natural numbers.
pub proof fn lemma_square_strictly_monotone(a: int, b: int)
    by (nonlinear_arith)
    requires
        0 <= a < b,
    ensures
        a * a < b * b,
{
}

/// A number has at most one rounded-down square root.
pub proof fn lemma_floor_sqrt_unique(n: int, r1: int, r2: int)
    requires
        is_floor_sqrt(n, r1),
        is_floor_sqrt(n, r2),
    ensures
        r1 == r2,
{
    if r1 < r2 {
        lemma_square_monotone(r1 + 1, r2);
    }
    if r2 < r1 {
        lemma_square_monotone(r2 + 1, r1);
    }
}

/// Every natural number has a rounded-down square root.
pub proof fn lemma_floor_sqrt_exists(n: nat) -> (r: int)
    ensures
        is_floor_sqrt(n as int, r),
    decreases n,
{
    if n == 0 {
        assert(is_floor_sqrt(0, 0)) by (nonlinear_arith);
        0
    } else {
        let below = lemma_floor_sqrt_exists((n - 1) as nat);
        if (below + 1) * (below + 1) <= n {
            lemma_square_strictly_monotone(below + 1, below + 2);
            below + 1
        } else {
            below
        }
    }
}

/// The square root of `n`, rounded down, found by bisection in at most
/// sixteen steps.
pub fn floor_sqrt(n: u32) -> (r: u16)
    ensures
        is_floor_sqrt(n as int, r as int),
{
    let mut lo: u64 = 0;
    let mut hi: u64 = 0x1_0000;
    while hi - lo > 1
        invariant
            lo < hi <= 0x1_0000,
            lo * lo <= n,
            n < hi * hi,
        decreases hi - lo,
    {
        let mid: u64 = lo + (hi - lo) / 2;
        proof {
            lemma_square_monotone(mid as int, 0x1_0000);
        }
        if mid * mid <= n as u64 {
            lo = mid;
        } else {
            hi = mid;
        }
    }
    lo as u16
}

} // verus!
