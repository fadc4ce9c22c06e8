//! Primality of a length.

use vstd::arithmetic::div_mod::{lemma_fundamental_div_mod, lemma_mod_multiples_basic};
use vstd::prelude::*;

verus! {

/// `n` is a prime number: at least 2, and divisible by no number from 2 up
/// to `n - 1`.
pub open spec fn is_prime_number(n: nat) -> bool {
    n >= 2 && forall|d: nat| 2 <= d < n ==> #[trigger] (n % d) != 0
}

/// Divisibility is transitive.
pub proof fn lemma_divides_transitive(n: nat, d: nat, e: nat)
    requires
        d > 0,
        e > 0,
        n % d == 0,
        d % e == 0,
    ensures
        n % e == 0,
{
    lemma_fundamental_div_mod(n as int, d as int);
    lemma_fundamental_div_mod(d as int, e as int);
    let q = (d / e) * (n / d);
    assert(n == q * e) by (nonlinear_arith)
        requires
            n == d * (n / d),
            d == e * (d / e),
            q == (d / e) * (n / d),
    ;
    lemma_mod_multiples_basic(q as int, e as int);
}

/// A divisor `d` of `n` comes with the divisor `n / d`.
pub proof fn lemma_cofactor(n: nat, d: nat)
    requires
        d > 0,
        n % d == 0,
    ensures
        n == d * (n / d),
        n > 0 ==> n / d > 0 && n % (n / d) == 0,
{
    lemma_fundamental_div_mod(n as int, d as int);
    if n > 0 {
        let q = n / d;
        assert(q > 0) by (nonlinear_arith)
            requires
                n == d * q,
                n > 0,
                d > 0,
                q >= 0,
        ;
        assert(n == d * q);
        assert(d * q == q * d) by (nonlinear_arith);
        lemma_mod_multiples_basic(d as int, q as int);
    }
}

/// A number above 1 with no divisor from 2 up to its square root is prime.
pub proof fn lemma_prime_by_small_divisors(n: nat, bound: nat)
    requires
        n >= 2,
        bound * bound > n,
        forall|d: nat| 2 <= d < bound ==> #[trigger] (n % d) != 0,
    ensures
        is_prime_number(n),
{
    assert forall|d: nat| 2 <= d < n implies #[trigger] (n % d) != 0 by {
        if d >= bound && n % d == 0 {
            lemma_cofactor(n, d);
            let q = n / d;
            assert(q < bound) by (nonlinear_arith)
                requires
                    n == d * q,
                    d >= bound,
                    bound * bound > n,
                    q >= 0,
            ;
            assert(q >= 2) by (nonlinear_arith)
                requires
                    n == d * q,
                    d < n,
                    q > 0,
            ;
            assert(n % q == 0);
        }
    }
}

/// Whether `n` is a prime number.
///
/// Numbers up to 3 and multiples of 2 or 3 are settled at once; the others
/// are tried against the candidates 5, 7, 11, 13, ... (each number next to a
/// multiple of 6) up to the square root of `n`.
pub fn is_prime(n: u64) -> (b: bool)
    ensures
        b == is_prime_number(n as nat),
{
    if n <= 3 {
        assert(n == 3 ==> 3nat % 2 != 0);
        return n > 1;
    }
    if n % 2 == 0 || n % 3 == 0 {
        return false;
    }
    assert forall|d: nat| 2 <= d < 5 implies #[trigger] ((n as nat) % d) != 0 by {
        if d == 4 {
            assert(n % 4 == 0 ==> n % 2 == 0);
        }
    }
    let mut i: u64 = 5;
    // `i <= n / i` says `i * i <= n` and cannot overflow.
    while i <= n / i
        invariant
            n > 3,
            n % 2 != 0,
            n % 3 != 0,
            5 <= i,
            i % 6 == 5,
            forall|d: nat| 2 <= d < i ==> #[trigger] ((n as nat) % d) != 0,
        decreases n - i,
    {
        proof {
            lemma_fundamental_div_mod(n as int, i as int);
            assert(i * i <= n) by (nonlinear_arith)
                requires
                    i <= n / i,
                    n == i * (n / i) + n % i,
                    n % i >= 0,
                    i > 0,
            ;
            assert(5 * i <= i * i) by (nonlinear_arith)
                requires
                    5 <= i,
            ;
        }
        if n % i == 0 || n % (i + 2) == 0 {
            return false;
        }
        proof {
            let m = n as nat;
            let k = i as nat;
            if m % (k + 1) == 0 {
                lemma_divides_transitive(m, k + 1, 2);
            }
            if m % (k + 3) == 0 {
                lemma_divides_transitive(m, k + 3, 2);
            }
            if m % (k + 4) == 0 {
                lemma_divides_transitive(m, k + 4, 3);
            }
            if m % (k + 5) == 0 {
                lemma_divides_transitive(m, k + 5, 2);
            }
        }
        i = i + 6;
    }
    proof {
        lemma_fundamental_div_mod(n as int, i as int);
        assert(i * i > n) by (nonlinear_arith)
            requires
                i > n / i,
                n == i * (n / i) + n % i,
                n % i < i,
                i > 0,
        ;
        lemma_prime_by_small_divisors(n as nat, i as nat);
    }
    true
}

} // verus!
