//! Numeric primitives: the unbounded integer square root.
//!
//! `integer_sqrt` computes the largest `r` with `r * r <= n` by Newton's
//! method on unbounded integers, the leaf dependency of the liquidity
//! bootstrap formula.

use vstd::prelude::*;

verus! {

use num_bigint::BigUint;
use vstd::arithmetic::div_mod::{
    lemma_div_is_ordered,
    lemma_div_multiples_vanish,
    lemma_fundamental_div_mod,
};
use crate::bignat::{big_add, big_div, big_from_u64, big_is_zero, big_lt, big_val};

/// The product of a sequence of numbers; one by convention when it is empty.
pub open spec fn seq_prod(s: Seq<nat>) -> nat
    decreases s.len(),
{
    if s.len() == 0 {
        1
    } else {
        seq_prod(s.drop_last()) * s.last()
    }
}

/// The sum of a sequence of numbers.
pub open spec fn seq_sum(s: Seq<nat>) -> nat
    decreases s.len(),
{
    if s.len() == 0 {
        0
    } else {
        seq_sum(s.drop_last()) + s.last()
    }
}

/// The least element of a non-empty sequence of numbers.
pub open spec fn seq_min(s: Seq<nat>) -> nat
    recommends
        s.len() > 0,
    decreases s.len(),
{
    if s.len() <= 1 {
        s.last()
    } else {
        let m = seq_min(s.drop_last());
        if s.last() < m {
            s.last()
        } else {
            m
        }
    }
}

/// `r` is the integer square root of `n`.
pub open spec fn is_isqrt(r: nat, n: nat) -> bool {
    r * r <= n < (r + 1) * (r + 1)
}

/// The integer square root of `n`, defined by counting up.
pub open spec fn spec_isqrt(n: nat) -> nat
    decreases n,
{
    if n == 0 {
        0
    } else {
        let p = spec_isqrt((n - 1) as nat);
        if (p + 1) * (p + 1) <= n {
            p + 1
        } else {
            p
        }
    }
}

/// The defining property of `spec_isqrt`: its square is at most `n` and the
/// next square is beyond `n`.
pub proof fn lemma_isqrt_bounds(n: nat)
    ensures
        is_isqrt(spec_isqrt(n), n),
    decreases n,
{
    if n == 0 {
        reveal_with_fuel(spec_isqrt, 1);
        assert(spec_isqrt(n) == 0);
        assert(0 * 0 <= n);
        assert(n < (0 + 1) * (0 + 1)) by (nonlinear_arith)
            requires n == 0 {};
        assert(is_isqrt(spec_isqrt(n), n));
    } else {
        lemma_isqrt_bounds((n - 1) as nat);
        let p = spec_isqrt((n - 1) as nat);
        assert(p * p <= n - 1 && n - 1 < (p + 1) * (p + 1));
        assert(spec_isqrt(n) == if (p + 1) * (p + 1) <= n { p + 1 } else { p });
        if (p + 1) * (p + 1) <= n {
            assert(n < (p + 2) * (p + 2)) by (nonlinear_arith)
                requires
                    n <= (p + 1) * (p + 1),
            {};
            assert(is_isqrt(p + 1, n));
        } else {
            assert(is_isqrt(p, n));
        }
        assert(is_isqrt(spec_isqrt(n), n));
    }
}

/// No two distinct numbers satisfy the square root property for the same `n`.
pub proof fn lemma_isqrt_unique(a: nat, b: nat, n: nat)
    requires
        is_isqrt(a, n),
        is_isqrt(b, n),
    ensures
        a == b,
{
    if a < b {
        assert(b * b <= n) by (nonlinear_arith)
            requires b * b <= n {};
        assert((a + 1) * (a + 1) <= b * b) by (nonlinear_arith)
            requires a + 1 <= b {};
    }
    if b < a {
        assert((b + 1) * (b + 1) <= a * a) by (nonlinear_arith)
            requires b + 1 <= a {};
    }
}

/// The square root of a perfect square `k * k` is `k` itself.
pub proof fn lemma_isqrt_of_square(k: nat)
    ensures
        spec_isqrt(k * k) == k,
{
    lemma_isqrt_bounds(k * k);
    assert(is_isqrt(k, k * k)) by (nonlinear_arith) {};
    lemma_isqrt_unique(spec_isqrt(k * k), k, k * k);
}

/// One Newton step from any `x >= 1` stays at or above the true root `s`.
proof fn lemma_newton_step_above_root(x: nat, n: nat, s: nat)
    requires
        x >= 1,
        s * s <= n,
    ensures
        (x + n / x) / 2 >= s,
{
    let q = n / x;
    lemma_fundamental_div_mod(n as int, x as int);
    assert(x + q >= 2 * s) by (nonlinear_arith)
        requires
            x >= 1,
            s * s <= n,
            n == x * q + n % (x as nat),
            n % (x as nat) < x,
    {};
    lemma_div_is_ordered(2 * s as int, (x + q) as int, 2);
    lemma_div_multiples_vanish(s as int, 2);
}

/// If one Newton step from `x >= 1` does not decrease, then `x * x <= n`.
proof fn lemma_newton_stop(x: nat, n: nat)
    requires
        x >= 1,
        (x + n / x) / 2 >= x,
    ensures
        x * x <= n,
{
    let q = n / x;
    assert((x + q) / 2 >= x);
    lemma_fundamental_div_mod((x + q) as int, 2);
    assert(q >= x);
    lemma_fundamental_div_mod(n as int, x as int);
    assert(x * q <= n) by (nonlinear_arith)
        requires
            n == x * q + n % (x as nat),
            0 <= n % (x as nat),
    {};
    assert(x * x <= x * q) by (nonlinear_arith)
        requires
            x >= 1,
            q >= x,
    {};
}

/// The largest integer whose square does not exceed `n`, by Newton's method:
/// starting from `x = n`, `y = (n + 1) / 2`, iterate `y = (x + n/x) / 2`
/// until `y >= x`.  Each step strictly decreases `x`, so the loop always
/// terminates.
pub fn integer_sqrt(n: &BigUint) -> (r: BigUint)
    ensures
        big_val(r) == spec_isqrt(big_val(*n)),
        is_isqrt(big_val(r), big_val(*n)),
{
    proof {
        lemma_isqrt_bounds(big_val(*n));
    }
    let ghost s = spec_isqrt(big_val(*n));
    if big_is_zero(n) {
        return big_from_u64(0);
    }
    proof {
        // With n >= 1, the root is at least 1 and at most n.
        assert(s >= 1) by (nonlinear_arith)
            requires
                is_isqrt(s, big_val(*n)),
                big_val(*n) >= 1,
        {};
        assert(s <= big_val(*n)) by (nonlinear_arith)
            requires
                s >= 1,
                s * s <= big_val(*n),
        {};
    }
    let one = big_from_u64(1);
    let two = big_from_u64(2);
    let mut x = n.clone();
    let mut y = big_div(&big_add(n, &one), &two);
    proof {
        // (n + 1) / 2 >= s because 2 * s <= s * s + 1 <= n + 1.
        assert(2 * s <= big_val(*n) + 1) by (nonlinear_arith)
            requires
                s * s <= big_val(*n),
        {};
        lemma_div_is_ordered(2 * s as int, (big_val(*n) + 1) as int, 2);
        lemma_div_multiples_vanish(s as int, 2);
    }
    loop
        invariant
            big_val(*n) >= 1,
            s >= 1,
            is_isqrt(s, big_val(*n)),
            big_val(two) == 2,
            big_val(x) >= s,
            big_val(y) >= s,
            big_val(y) >= big_val(x) ==> big_val(x) * big_val(x) <= big_val(*n),
        ensures
            big_val(x) == s,
        decreases big_val(x),
    {
        if !big_lt(&y, &x) {
            // y >= x, so x * x <= n; together with x >= s this pins x == s.
            proof {
                assert(big_val(x) <= s) by (nonlinear_arith)
                    requires
                        big_val(x) * big_val(x) <= big_val(*n),
                        big_val(*n) < (s + 1) * (s + 1),
                        s >= 0,
                {};
            }
            break;
        }
        x = y;
        y = big_div(&big_add(&x, &big_div(n, &x)), &two);
        proof {
            lemma_newton_step_above_root(big_val(x), big_val(*n), s);
            if big_val(y) >= big_val(x) {
                lemma_newton_stop(big_val(x), big_val(*n));
            }
        }
    }
    x
}

} // verus!
