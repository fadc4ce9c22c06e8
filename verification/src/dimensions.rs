//! The shape of the grid for a given number of characters.

use crate::primality::{is_prime_number, lemma_cofactor};
use crate::square::{
    is_floor_sqrt, is_perfect_square, is_square, lemma_perfect_square_root, lemma_square_monotone,
    sqrt_u64,
};
use vstd::arithmetic::div_mod::{lemma_fundamental_div_mod, lemma_fundamental_div_mod_converse};
use vstd::prelude::*;

verus! {

/// `d` is a divisor of `n` that does not exceed the square root of `n`.
pub open spec fn is_low_divisor(n: nat, d: nat) -> bool {
    d > 0 && d * d <= n && n % d == 0
}

/// The largest low divisor of `n` among the numbers up to `bound`, or 0 where
/// there is none.
pub open spec fn low_divisor_upto(n: nat, bound: nat) -> nat
    decreases bound,
{
    if bound == 0 {
        0
    } else if is_low_divisor(n, bound) {
        bound
    } else {
        low_divisor_upto(n, (bound - 1) as nat)
    }
}

/// The height of the grid for `len` characters: the largest divisor of `len`
/// that does not exceed its square root (0 for no characters).
pub open spec fn grid_height(len: nat) -> nat {
    low_divisor_upto(len, len)
}

/// The width of the grid for `len` characters: `len` divided by the height.
pub open spec fn grid_width(len: nat) -> nat {
    if len == 0 {
        0
    } else {
        len / grid_height(len)
    }
}

/// What `low_divisor_upto` finds: a low divisor within the bound (or 0), with
/// no low divisor between it and the bound.
pub proof fn lemma_low_divisor_upto(n: nat, bound: nat)
    ensures
        low_divisor_upto(n, bound) <= bound,
        low_divisor_upto(n, bound) > 0 ==> is_low_divisor(n, low_divisor_upto(n, bound)),
        forall|d: nat|
            low_divisor_upto(n, bound) < d <= bound ==> !#[trigger] is_low_divisor(n, d),
    decreases bound,
{
    if bound > 0 && !is_low_divisor(n, bound) {
        lemma_low_divisor_upto(n, (bound - 1) as nat);
    }
}

/// No low divisor of `n` exceeds `n`.
pub proof fn lemma_low_divisor_bounded(n: nat, d: nat)
    requires
        is_low_divisor(n, d),
    ensures
        d <= n,
{
    assert(d <= d * d) by (nonlinear_arith)
        requires
            d > 0,
    ;
}

/// The height is the one low divisor of `len` that no other exceeds.
pub proof fn lemma_grid_height_is(len: nat, h: nat)
    requires
        is_low_divisor(len, h),
        forall|d: nat| h < d ==> !#[trigger] is_low_divisor(len, d),
    ensures
        grid_height(len) == h,
        grid_width(len) == len / h,
{
    lemma_low_divisor_upto(len, len);
    lemma_low_divisor_bounded(len, h);
    let g = grid_height(len);
    if g < h {
        assert(!is_low_divisor(len, h));
    }
}

/// The height of a non-empty grid is a low divisor of `len`, and the largest.
pub proof fn lemma_grid_height_largest(len: nat)
    requires
        len > 0,
    ensures
        is_low_divisor(len, grid_height(len)),
        forall|d: nat| grid_height(len) < d ==> !#[trigger] is_low_divisor(len, d),
{
    lemma_low_divisor_upto(len, len);
    assert(is_low_divisor(len, 1));
    assert forall|d: nat| grid_height(len) < d implies !#[trigger] is_low_divisor(len, d) by {
        if is_low_divisor(len, d) {
            lemma_low_divisor_bounded(len, d);
        }
    }
}

/// Width times height gives back the number of characters, and the width is
/// not less than the height.
pub proof fn lemma_shape_covers(len: nat)
    ensures
        grid_width(len) * grid_height(len) == len,
        grid_width(len) >= grid_height(len),
{
    if len > 0 {
        lemma_grid_height_largest(len);
        let h = grid_height(len);
        let w = grid_width(len);
        lemma_cofactor(len, h);
        assert(w == len / h);
        assert(h * w == len);
        assert(w * h == h * w) by (nonlinear_arith);
        assert(w >= h) by (nonlinear_arith)
            requires
                h * w == len,
                h * h <= len,
                h > 0,
        ;
    } else {
        assert(low_divisor_upto(0, 0) == 0);
        assert(grid_width(len) == 0 && grid_height(len) == 0);
        assert(0nat * 0nat == 0);
    }
}

/// The grid for a square number of characters is square.
pub proof fn lemma_shape_of_square(s: nat)
    ensures
        grid_height(s * s) == s,
        grid_width(s * s) == s,
{
    let len = s * s;
    if s == 0 {
        assert(len == 0) by (nonlinear_arith)
            requires
                len == s * s,
                s == 0,
        ;
        assert(low_divisor_upto(0, 0) == 0);
    } else {
        lemma_fundamental_div_mod_converse(len as int, s as int, s as int, 0);
        assert forall|d: nat| s < d implies !#[trigger] is_low_divisor(len, d) by {
            lemma_square_monotone(s + 1, d);
            assert((s + 1) * (s + 1) > s * s) by (nonlinear_arith);
        }
        lemma_grid_height_is(len, s);
    }
}

/// A number that has a divisor other than 1 and itself has one that does not
/// exceed its square root, so the height of its grid is at least 2.
pub proof fn lemma_composite_height(len: nat)
    requires
        len >= 2,
        !is_prime_number(len),
    ensures
        grid_height(len) >= 2,
{
    let d = choose|d: nat| 2 <= d < len && #[trigger] (len % d) == 0;
    lemma_cofactor(len, d);
    let q = len / d;
    assert(q >= 2) by (nonlinear_arith)
        requires
            len == d * q,
            d < len,
            q > 0,
    ;
    let low = if d <= q {
        d
    } else {
        q
    };
    assert(low * low <= len) by (nonlinear_arith)
        requires
            len == d * q,
            low == d && d <= q || low == q && q < d,
    ;
    assert(is_low_divisor(len, low));
    lemma_grid_height_largest(len);
}

/// The shape of the grid for `len` characters, as (width, height).
///
/// A perfect square gives a square grid. Any other length gives, of all the
/// ways to write it as a product of two numbers from 2 upwards, the one whose
/// smaller factor is largest; the larger factor is the width. A prime length
/// has no such product and is not accepted.
pub fn find_dimensions(len: u64) -> (dims: (u64, u64))
    requires
        !is_prime_number(len as nat),
    ensures
        dims.0 == grid_width(len as nat),
        dims.1 == grid_height(len as nat),
        dims.0 * dims.1 == len,
        dims.0 >= dims.1,
        is_perfect_square(len as nat) ==> dims.0 == dims.1 && is_floor_sqrt(len as nat, dims.0 as nat),
        len >= 4 ==> dims.1 >= 2,
{
    proof {
        lemma_shape_covers(len as nat);
        if len >= 4 {
            lemma_composite_height(len as nat);
        }
    }
    if is_square(len) {
        let side: u64 = sqrt_u64(len);
        proof {
            lemma_perfect_square_root(len as nat, side as nat);
            lemma_shape_of_square(side as nat);
        }
        (side, side)
    } else {
        assert(len >= 2) by {
            assert(0nat * 0nat == 0 && 1nat * 1nat == 1);
        }
        let mut height: u64 = 1;
        let mut i: u64 = 2;
        // `i <= len / i` says `i * i <= len` and cannot overflow.
        while i <= len / i
            invariant
                len >= 2,
                2 <= i,
                height < i,
                is_low_divisor(len as nat, height as nat),
                forall|d: nat| height < d < i ==> !#[trigger] is_low_divisor(len as nat, d),
            decreases len - i,
        {
            proof {
                lemma_fundamental_div_mod(len as int, i as int);
                assert(i * i <= len) by (nonlinear_arith)
                    requires
                        i <= len / i,
                        len == i * (len / i) + len % i,
                        len % i >= 0,
                        i > 0,
                ;
                assert(2 * i <= i * i) by (nonlinear_arith)
                    requires
                        2 <= i,
                ;
            }
            if len % i == 0 {
                height = i;
            }
            i = i + 1;
        }
        proof {
            lemma_fundamental_div_mod(len as int, i as int);
            assert(i * i > len) by (nonlinear_arith)
                requires
                    i > len / i,
                    len == i * (len / i) + len % i,
                    len % i < i,
                    i > 0,
            ;
            assert forall|d: nat| height < d implies !#[trigger] is_low_divisor(len as nat, d) by {
                if d >= i {
                    lemma_square_monotone(i as nat, d);
                }
            }
            lemma_grid_height_is(len as nat, height as nat);
        }
        (len / height, height)
    }
}

} // verus!
