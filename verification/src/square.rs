//! Exact integer square roots.

use vstd::prelude::*;

verus! {

/// `r` is the square root of `n` rounded down.
pub open spec fn is_floor_sqrt(n: nat, r: nat) -> bool {
    r * r <= n < (r + 1) * (r + 1)
}

/// `n` is the square of some natural number.
pub open spec fn is_perfect_square(n: nat) -> bool {
    exists|r: nat| #[trigger] (r * r) == n
}

/// Squaring is monotone on the naturals.
pub proof fn lemma_square_monotone(a: nat, b: nat)
    requires
        a <= b,
    ensures
        a * a <= b * b,
{
    assert(a * a <= b * b) by (nonlinear_arith)
        requires
            a <= b,
    ;
}

/// A number strictly between two consecutive squares is no square, and a
/// number that is a square is the square of its rounded-down root.
pub proof fn lemma_perfect_square_root(n: nat, r: nat)
    requires
        is_floor_sqrt(n, r),
    ensures
        is_perfect_square(n) <==> r * r == n,
{
    if is_perfect_square(n) {
        let s = choose|s: nat| #[trigger] (s * s) == n;
        if s < r {
            lemma_square_monotone(s + 1, r);
            assert((s + 1) * (s + 1) == s * s + 2 * s + 1) by (nonlinear_arith);
        } else if s > r {
            lemma_square_monotone(r + 1, s);
        }
    }
}

/// The square root of `n`, rounded down.
pub fn sqrt_u64(n: u64) -> (r: u64)
    ensures
        is_floor_sqrt(n as nat, r as nat),
{
    let mut lo: u64 = 0;
    let mut hi: u64 = 0x1_0000_0000;
    assert(0x1_0000_0000int * 0x1_0000_0000int > u64::MAX) by (nonlinear_arith);
    while hi - lo > 1
        invariant
            lo < hi <= 0x1_0000_0000,
            lo * lo <= n,
            n < hi * hi,
        decreases hi - lo,
    {
        let mid: u64 = lo + (hi - lo) / 2;
        assert(mid * mid <= 0xFFFF_FFFF * 0xFFFF_FFFF) by (nonlinear_arith)
            requires
                mid <= 0xFFFF_FFFF,
        ;
        if mid * mid <= n {
            lo = mid;
        } else {
            hi = mid;
        }
    }
    lo
}

/// Whether `n` is a perfect square.
pub fn is_square(n: u64) -> (b: bool)
    ensures
        b <==> is_perfect_square(n as nat),
{
    let r: u64 = sqrt_u64(n);
    proof {
        lemma_perfect_square_root(n as nat, r as nat);
    }
    r * r == n
}

} // verus!
