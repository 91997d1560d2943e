//! The stable-swap engine: a Curve-style invariant for `n` correlated assets
//! with a fixed amplification coefficient.
//!
//! The conserved quantity `D` and the post-trade balance `Y` are found by
//! Newton's-method fixed-point iterations capped at 255 steps, stopping when
//! two successive values differ by at most one.  The iterations are modelled
//! exactly by spec functions (`solve_d`, `solve_y`); a request whose
//! iteration meets a vanishing denominator or fails to converge within the
//! cap is rejected instead of returning an unconverged value.

use vstd::prelude::*;

verus! {

use num_bigint::BigUint;
use vstd::arithmetic::power::{lemma_pow_positive, pow};
use crate::bignat::{big_add, big_div, big_from_u64, big_is_zero, big_le, big_lt, big_mul, big_sub, big_val, big_vals};
use crate::errors::SwapError;
use crate::math::seq_sum;
use crate::pool::Pool;

/// The fixed amplification coefficient of the stable-swap curve.
pub const AMPLIFICATION: u64 = 100;

/// The absolute difference of two numbers.
pub open spec fn abs_diff(a: nat, b: nat) -> nat {
    if a >= b {
        (a - b) as nat
    } else {
        (b - a) as nat
    }
}

/// `A * n^n`, the amplification term of the invariant.
pub open spec fn stable_ann(n: nat, a: nat) -> nat {
    (a * pow(n as int, n)) as nat
}

/// The tail of the `D_P` helper fold from position `k`: repeatedly
/// `dp = dp * d / (n * balance_k)`, truncating.
pub open spec fn d_p_fold(bal: Seq<nat>, d: nat, dp: nat, k: int) -> nat
    decreases bal.len() - k,
{
    if k < 0 || k >= bal.len() {
        dp
    } else {
        d_p_fold(bal, d, dp * d / (bal.len() * bal[k]), k + 1)
    }
}

/// One Newton update for `D`, or nothing when its denominator vanishes.
pub open spec fn d_step(bal: Seq<nat>, ann: nat, d: nat) -> Option<nat>
    recommends
        ann >= 1,
{
    let n = bal.len();
    let s = seq_sum(bal);
    let dp = d_p_fold(bal, d, d, 0);
    let den = (ann - 1) * d + (n + 1) * dp;
    if den <= 0 {
        None
    } else {
        Some(((((ann * s + dp * n) * d) as int / den) as nat))
    }
}

/// The `D` iteration from `d` with the given fuel: stops at the first value
/// within one of its predecessor, gives up when the fuel runs out or a
/// denominator vanishes.
pub open spec fn d_run(bal: Seq<nat>, ann: nat, d: nat, fuel: nat) -> Option<nat>
    decreases fuel,
{
    if fuel == 0 {
        None
    } else {
        match d_step(bal, ann, d) {
            None => None,
            Some(d2) => if abs_diff(d2, d) <= 1 {
                Some(d2)
            } else {
                d_run(bal, ann, d2, (fuel - 1) as nat)
            },
        }
    }
}

/// What solving for `D` yields on these balances: the Newton iteration from
/// `D_0 = sum of balances`, up to 255 steps.
pub open spec fn solve_d(bal: Seq<nat>, ann: nat) -> Option<nat> {
    d_run(bal, ann, seq_sum(bal), 255)
}

/// The tail of the `c` fold of the `Y` solver from position `k`: for every
/// position but `idx`, `c = c * d / (n * balance_k)`, truncating.
pub open spec fn y_c_fold(bal: Seq<nat>, d: nat, c: nat, k: int, idx: int) -> nat
    decreases bal.len() - k,
{
    if k < 0 || k >= bal.len() {
        c
    } else if k == idx {
        y_c_fold(bal, d, c, k + 1, idx)
    } else {
        y_c_fold(bal, d, c * d / (bal.len() * bal[k]), k + 1, idx)
    }
}

/// The sum of the balances at positions other than `idx`, from position `k`.
pub open spec fn y_sum_fold(bal: Seq<nat>, k: int, idx: int) -> nat
    decreases bal.len() - k,
{
    if k < 0 || k >= bal.len() {
        0
    } else if k == idx {
        y_sum_fold(bal, k + 1, idx)
    } else {
        bal[k] + y_sum_fold(bal, k + 1, idx)
    }
}

/// The constant `c` of the `Y` quadratic: the fold over the other balances,
/// then `c * d / (ann * n)`.
pub open spec fn y_c(bal: Seq<nat>, d: nat, ann: nat, idx: int) -> nat {
    y_c_fold(bal, d, d, 0, idx) * d / (ann * bal.len())
}

/// The constant `b` of the `Y` quadratic: the other balances plus `d / ann`.
pub open spec fn y_b(bal: Seq<nat>, d: nat, ann: nat, idx: int) -> nat {
    y_sum_fold(bal, 0, idx) + d / ann
}

/// One Newton update for `Y`, or nothing when its denominator vanishes:
/// `y' = (y^2 + c) / (2y + b - d)`, truncating.
pub open spec fn y_step(c: nat, b: nat, d: nat, y: nat) -> Option<nat> {
    let den = 2 * y + b - d;
    if den <= 0 {
        None
    } else {
        Some(((((y * y + c)) as int / den) as nat))
    }
}

/// The `Y` iteration from `y` with the given fuel, with the same stopping
/// rule as the `D` iteration.
pub open spec fn y_run(c: nat, b: nat, d: nat, y: nat, fuel: nat) -> Option<nat>
    decreases fuel,
{
    if fuel == 0 {
        None
    } else {
        match y_step(c, b, d, y) {
            None => None,
            Some(y2) => if abs_diff(y2, y) <= 1 {
                Some(y2)
            } else {
                y_run(c, b, d, y2, (fuel - 1) as nat)
            },
        }
    }
}

/// What solving for the balance at `idx` yields, holding `d` fixed: the
/// Newton iteration from `y_0 = d`, up to 255 steps.
pub open spec fn solve_y(bal: Seq<nat>, idx: int, d: nat, ann: nat) -> Option<nat> {
    y_run(y_c(bal, d, ann, idx), y_b(bal, d, ann, idx), d, d, 255)
}

/// The full stable swap on balance values: solve for `D`, add the input to
/// the input balance, solve for the new output balance, take the difference,
/// and deduct the fee from the output; nothing when a solver gives up or the
/// difference would be negative.
pub open spec fn stable_out(bal: Seq<nat>, i_in: int, i_out: int, amount: nat, fee: nat, a: nat) -> Option<
    nat,
> {
    let ann = stable_ann(bal.len(), a);
    match solve_d(bal, ann) {
        None => None,
        Some(dv) => {
            let nb = bal.update(i_in, (bal[i_in] + amount) as nat);
            match solve_y(nb, i_out, dv, ann) {
                None => None,
                Some(y) => if y > bal[i_out] {
                    None
                } else {
                    let out = (bal[i_out] - y) as nat;
                    Some((out - out * fee / 10000) as nat)
                },
            }
        },
    }
}

/// Every reserve of the pool is positive.
pub open spec fn all_reserves_positive(p: Pool) -> bool {
    forall|i: int| 0 <= i < p.reserves@.len() ==> #[trigger] p.reserve_vals()[i] >= 1
}

/// What a stable swap returns: the exact iteration outcome on success, and
/// each failure exactly on the inputs that cause it.
pub open spec fn stable_swap_ensures(
    p: Pool,
    tin: Seq<char>,
    tout: Seq<char>,
    amount: nat,
    r: Result<BigUint, SwapError>,
) -> bool {
    match r {
        Ok(out) => {
            &&& p.has_token(tin)
            &&& p.has_token(tout)
            &&& all_reserves_positive(p)
            &&& stable_out(
                p.reserve_vals(),
                p.token_index(tin),
                p.token_index(tout),
                amount,
                p.fee_rate as nat,
                AMPLIFICATION as nat,
            ) == Some(big_val(out))
        },
        Err(e) => {
            &&& (e == SwapError::TokenNotFound <==> !p.has_token(tin) || !p.has_token(tout))
            &&& (e == SwapError::InsufficientLiquidity <==> p.has_token(tin) && p.has_token(tout)
                && (!all_reserves_positive(p) || stable_out(
                p.reserve_vals(),
                p.token_index(tin),
                p.token_index(tout),
                amount,
                p.fee_rate as nat,
                AMPLIFICATION as nat,
            ) is None))
            &&& (e == SwapError::TokenNotFound || e == SwapError::InsufficientLiquidity)
        },
    }
}

/// `base` raised to `exp` by repeated multiplication.
fn big_pow(base: &BigUint, exp: usize) -> (r: BigUint)
    ensures
        big_val(r) == pow(big_val(*base) as int, exp as nat),
{
    let mut result = big_from_u64(1);
    proof {
        vstd::arithmetic::power::lemma_pow0(big_val(*base) as int);
    }
    let mut i: usize = 0;
    while i < exp
        invariant
            i <= exp,
            big_val(result) == pow(big_val(*base) as int, i as nat),
        decreases exp - i,
    {
        result = big_mul(&result, base);
        proof {
            let b = big_val(*base) as int;
            vstd::arithmetic::power::lemma_pow1(b);
            vstd::arithmetic::power::lemma_pow_adds(b, i as nat, 1nat);
            assert(pow(b, i as nat) * b == b * pow(b, i as nat)) by (nonlinear_arith) {};
        }
        i = i + 1;
    }
    result
}

impl Pool {
    /// Solves the stable-swap invariant `D` for these balances by Newton's
    /// method, or fails when a denominator vanishes or 255 iterations pass
    /// without two successive values agreeing to within one.
    #[verifier::loop_isolation(false)]
    pub(crate) fn calculate_d(&self, balances: &Vec<BigUint>, a: &BigUint) -> (r: Result<
        BigUint,
        SwapError,
    >)
        requires
            balances@.len() >= 1,
            forall|i: int| 0 <= i < balances@.len() ==> #[trigger] big_vals(balances@)[i] >= 1,
            big_val(*a) >= 1,
        ensures
            match r {
                Ok(d) => solve_d(big_vals(balances@), stable_ann(balances@.len(), big_val(*a)))
                    == Some(big_val(d)),
                Err(e) => e == SwapError::InsufficientLiquidity && solve_d(
                    big_vals(balances@),
                    stable_ann(balances@.len(), big_val(*a)),
                ) is None,
            },
    {
        let ghost bvals = big_vals(balances@);
        let ghost av = big_val(*a);
        let ghost ann_v = stable_ann(bvals.len(), av);
        proof {
            assert(bvals.len() == balances@.len());
        }
        let n = balances.len();
        let one = big_from_u64(1);
        let n_big = big_from_u64(n as u64);
        let ann = big_mul(a, &big_pow(&n_big, n));
        proof {
            lemma_pow_positive(n as int, n as nat);
            assert(av * pow(n as int, n as nat) >= 1) by (nonlinear_arith)
                requires
                    av >= 1,
                    pow(n as int, n as nat) >= 1,
            {};
        }
        // The starting point: the sum of the balances.
        let mut s = big_from_u64(0);
        let mut i: usize = 0;
        while i < n
            invariant
                n == bvals.len(),
                bvals == big_vals(balances@),
                i <= n,
                big_val(s) == seq_sum(bvals.take(i as int)),
            decreases n - i,
        {
            s = big_add(&s, &balances[i]);
            proof {
                assert(bvals.take(i + 1).drop_last() =~= bvals.take(i as int));
            }
            i = i + 1;
        }
        proof {
            assert(bvals.take(bvals.len() as int) =~= bvals);
        }
        let mut d = s.clone();
        let mut iter: usize = 0;
        while iter < 255
            invariant
                n == bvals.len(),
                n >= 1,
                bvals == big_vals(balances@),
                forall|j: int| 0 <= j < bvals.len() ==> #[trigger] bvals[j] >= 1,
                big_val(one) == 1,
                big_val(n_big) == n as nat,
                big_val(ann) == ann_v,
                ann_v >= 1,
                big_val(s) == seq_sum(bvals),
                iter <= 255,
                solve_d(bvals, ann_v) == d_run(bvals, ann_v, big_val(d), (255 - iter) as nat),
            decreases 255 - iter,
        {
            let ghost dv = big_val(d);
            // The D_P helper fold over all balances.
            let mut dp = d.clone();
            let mut k: usize = 0;
            while k < n
                invariant
                    n == bvals.len(),
                    bvals == big_vals(balances@),
                    forall|j: int| 0 <= j < bvals.len() ==> #[trigger] bvals[j] >= 1,
                    big_val(n_big) == n as nat,
                    dv == big_val(d),
                    k <= n,
                    d_p_fold(bvals, dv, big_val(dp), k as int) == d_p_fold(bvals, dv, dv, 0),
                decreases n - k,
            {
                proof {
                    assert(bvals[k as int] == big_val(balances@[k as int]));
                    assert((n as nat) * bvals[k as int] >= 1) by (nonlinear_arith)
                        requires
                            n >= 1,
                            bvals[k as int] >= 1,
                    {};
                }
                dp = big_div(&big_mul(&dp, &d), &big_mul(&n_big, &balances[k]));
                k = k + 1;
            }
            let ghost dpv = big_val(dp);
            proof {
                assert(d_p_fold(bvals, dv, dpv, n as int) == dpv);
                assert(dpv == d_p_fold(bvals, dv, dv, 0));
            }
            let num = big_mul(&big_add(&big_mul(&ann, &s), &big_mul(&dp, &n_big)), &d);
            let den = big_add(
                &big_mul(&big_sub(&ann, &one), &d),
                &big_mul(&big_add(&n_big, &one), &dp),
            );
            let ghost fuel = (255 - iter) as nat;
            proof {
                assert(big_val(num) == (ann_v * seq_sum(bvals) + dpv * (n as nat)) * dv);
                assert(big_val(den) == (ann_v - 1) * dv + ((n as nat) + 1) * dpv);
            }
            if big_is_zero(&den) {
                proof {
                    assert(d_step(bvals, ann_v, dv) is None);
                    assert(d_run(bvals, ann_v, dv, fuel) is None);
                }
                return Err(SwapError::InsufficientLiquidity);
            }
            let d_new = big_div(&num, &den);
            proof {
                assert(d_step(bvals, ann_v, dv) == Some(big_val(d_new)));
            }
            let converged = if big_lt(&d, &d_new) {
                big_le(&big_sub(&d_new, &d), &one)
            } else {
                big_le(&big_sub(&d, &d_new), &one)
            };
            if converged {
                proof {
                    assert(abs_diff(big_val(d_new), dv) <= 1);
                    assert(d_run(bvals, ann_v, dv, fuel) == Some(big_val(d_new)));
                }
                return Ok(d_new);
            }
            proof {
                assert(abs_diff(big_val(d_new), dv) > 1);
                assert(d_run(bvals, ann_v, dv, fuel) == d_run(
                    bvals,
                    ann_v,
                    big_val(d_new),
                    (fuel - 1) as nat,
                ));
            }
            d = d_new;
            iter = iter + 1;
        }
        Err(SwapError::InsufficientLiquidity)
    }

    /// Solves for the balance at `token_index` that restores the invariant
    /// at the target `d`, holding the other balances fixed, by Newton's
    /// method with the same stopping rule as the `D` solver.
    #[verifier::loop_isolation(false)]
    pub(crate) fn calculate_y(
        &self,
        balances: &Vec<BigUint>,
        token_index: usize,
        d: &BigUint,
        a: &BigUint,
    ) -> (r: Result<BigUint, SwapError>)
        requires
            balances@.len() >= 1,
            token_index < balances@.len(),
            forall|i: int|
                0 <= i < balances@.len() && i != token_index ==> #[trigger] big_vals(balances@)[i]
                    >= 1,
            big_val(*a) >= 1,
        ensures
            match r {
                Ok(y) => solve_y(
                    big_vals(balances@),
                    token_index as int,
                    big_val(*d),
                    stable_ann(balances@.len(), big_val(*a)),
                ) == Some(big_val(y)),
                Err(e) => e == SwapError::InsufficientLiquidity && solve_y(
                    big_vals(balances@),
                    token_index as int,
                    big_val(*d),
                    stable_ann(balances@.len(), big_val(*a)),
                ) is None,
            },
    {
        let ghost bvals = big_vals(balances@);
        let ghost av = big_val(*a);
        let ghost dv = big_val(*d);
        let ghost ann_v = stable_ann(bvals.len(), av);
        let ghost idx = token_index as int;
        proof {
            assert(bvals.len() == balances@.len());
        }
        let n = balances.len();
        let one = big_from_u64(1);
        let two = big_from_u64(2);
        let n_big = big_from_u64(n as u64);
        let ann = big_mul(a, &big_pow(&n_big, n));
        proof {
            lemma_pow_positive(n as int, n as nat);
            assert(av * pow(n as int, n as nat) >= 1) by (nonlinear_arith)
                requires
                    av >= 1,
                    pow(n as int, n as nat) >= 1,
            {};
        }
        // The c fold and the partial sum over the other balances.
        let mut c = d.clone();
        let mut s = big_from_u64(0);
        let mut k: usize = 0;
        while k < n
            invariant
                n == bvals.len(),
                bvals == big_vals(balances@),
                idx == token_index as int,
                token_index < n,
                forall|j: int| 0 <= j < bvals.len() && j != idx ==> #[trigger] bvals[j] >= 1,
                big_val(n_big) == n as nat,
                dv == big_val(*d),
                k <= n,
                y_c_fold(bvals, dv, big_val(c), k as int, idx) == y_c_fold(bvals, dv, dv, 0, idx),
                big_val(s) + y_sum_fold(bvals, k as int, idx) == y_sum_fold(bvals, 0, idx),
            decreases n - k,
        {
            if k != token_index {
                proof {
                    assert(bvals[k as int] == big_val(balances@[k as int]));
                    assert((n as nat) * bvals[k as int] >= 1) by (nonlinear_arith)
                        requires
                            n >= 1,
                            bvals[k as int] >= 1,
                    {};
                }
                s = big_add(&s, &balances[k]);
                c = big_div(&big_mul(&c, d), &big_mul(&n_big, &balances[k]));
            }
            k = k + 1;
        }
        proof {
            assert(y_c_fold(bvals, dv, big_val(c), n as int, idx) == big_val(c));
            assert(y_sum_fold(bvals, n as int, idx) == 0);
        }
        let ann_n = big_mul(&ann, &n_big);
        proof {
            assert(ann_v * (n as nat) >= 1) by (nonlinear_arith)
                requires
                    ann_v >= 1,
                    n >= 1,
            {};
        }
        let c_final = big_div(&big_mul(&c, d), &ann_n);
        let b = big_add(&s, &big_div(d, &ann));
        let ghost cv = y_c(bvals, dv, ann_v, idx);
        let ghost bv = y_b(bvals, dv, ann_v, idx);
        proof {
            assert(big_val(c_final) == cv);
            assert(big_val(b) == bv);
        }
        let mut y = d.clone();
        let mut iter: usize = 0;
        while iter < 255
            invariant
                big_val(one) == 1,
                big_val(two) == 2,
                dv == big_val(*d),
                cv == big_val(c_final),
                bv == big_val(b),
                iter <= 255,
                solve_y(bvals, idx, dv, ann_v) == y_run(cv, bv, dv, big_val(y), (255 - iter) as nat),
            decreases 255 - iter,
        {
            let ghost yv = big_val(y);
            let ghost fuel = (255 - iter) as nat;
            let lhs = big_add(&big_mul(&y, &two), &b);
            proof {
                assert(big_val(lhs) == 2 * yv + bv);
            }
            if big_le(&lhs, d) {
                proof {
                    assert(y_step(cv, bv, dv, yv) is None);
                    assert(y_run(cv, bv, dv, yv, fuel) is None);
                }
                return Err(SwapError::InsufficientLiquidity);
            }
            let den = big_sub(&lhs, d);
            let y_new = big_div(&big_add(&big_mul(&y, &y), &c_final), &den);
            proof {
                assert(y_step(cv, bv, dv, yv) == Some(big_val(y_new)));
            }
            let converged = if big_lt(&y, &y_new) {
                big_le(&big_sub(&y_new, &y), &one)
            } else {
                big_le(&big_sub(&y, &y_new), &one)
            };
            if converged {
                proof {
                    assert(y_run(cv, bv, dv, yv, fuel) == Some(big_val(y_new)));
                }
                return Ok(y_new);
            }
            proof {
                assert(abs_diff(big_val(y_new), yv) > 1);
                assert(y_run(cv, bv, dv, yv, fuel) == y_run(
                    cv,
                    bv,
                    dv,
                    big_val(y_new),
                    (fuel - 1) as nat,
                ));
            }
            y = y_new;
            iter = iter + 1;
        }
        Err(SwapError::InsufficientLiquidity)
    }

    /// The stable swap: read the balances, solve for `D`, apply the input,
    /// solve for the new output balance, and return the balance difference
    /// net of the fee.
    #[verifier::loop_isolation(false)]
    pub(crate) fn stable_swap(
        &self,
        input_token: &str,
        output_token: &str,
        input_amount: &BigUint,
    ) -> (r: Result<BigUint, SwapError>)
        requires
            self.wf(),
        ensures
            stable_swap_ensures(*self, input_token@, output_token@, big_val(*input_amount), r),
    {
        let ghost bal = self.reserve_vals();
        let ghost amt = big_val(*input_amount);
        let input_idx = match self.find_token_index(input_token) {
            Ok(i) => i,
            Err(e) => { return Err(e); },
        };
        let output_idx = match self.find_token_index(output_token) {
            Ok(i) => i,
            Err(e) => { return Err(e); },
        };
        // Every balance must be positive for the solvers' divisions.
        let mut i: usize = 0;
        while i < self.reserves.len()
            invariant
                self.wf(),
                bal == self.reserve_vals(),
                i <= self.reserves@.len(),
                forall|j: int| 0 <= j < i ==> #[trigger] bal[j] >= 1,
            decreases self.reserves@.len() - i,
        {
            if big_is_zero(&self.reserves[i]) {
                proof {
                    assert(self.reserve_vals()[i as int] == 0);
                    assert(!all_reserves_positive(*self));
                }
                return Err(SwapError::InsufficientLiquidity);
            }
            i = i + 1;
        }
        proof {
            assert(all_reserves_positive(*self));
        }
        let a = big_from_u64(AMPLIFICATION);
        let d = match self.calculate_d(&self.reserves, &a) {
            Ok(d) => d,
            Err(e) => { return Err(e); },
        };
        // The balances after the input amount is applied.
        let ghost nb = bal.update(input_idx as int, (bal[input_idx as int] + amt) as nat);
        let mut new_balances: Vec<BigUint> = Vec::new();
        let mut k: usize = 0;
        while k < self.reserves.len()
            invariant
                self.wf(),
                bal == self.reserve_vals(),
                input_idx < self.reserves@.len(),
                nb == bal.update(input_idx as int, (bal[input_idx as int] + amt) as nat),
                amt == big_val(*input_amount),
                k <= self.reserves@.len(),
                new_balances@.len() == k,
                forall|j: int| 0 <= j < k ==> #[trigger] big_vals(new_balances@)[j] == nb[j],
            decreases self.reserves@.len() - k,
        {
            let ghost prev_nb = new_balances@;
            if k == input_idx {
                new_balances.push(big_add(&self.reserves[k], input_amount));
            } else {
                new_balances.push(self.reserves[k].clone());
            }
            proof {
                assert forall|j: int|
                    0 <= j < k + 1 implies #[trigger] big_vals(new_balances@)[j] == nb[j] by {
                    if j < k {
                        assert(new_balances@[j] == prev_nb[j]);
                        assert(big_vals(prev_nb)[j] == nb[j]);
                    } else {
                        assert(bal[j] == big_val(self.reserves@[j]));
                    }
                }
            }
            k = k + 1;
        }
        proof {
            assert(big_vals(new_balances@) =~= nb);
        }
        let y = match self.calculate_y(&new_balances, output_idx, &d, &a) {
            Ok(y) => y,
            Err(e) => { return Err(e); },
        };
        let output_reserve = &self.reserves[output_idx];
        if big_lt(output_reserve, &y) {
            return Err(SwapError::InsufficientLiquidity);
        }
        let output_amount = big_sub(output_reserve, &y);
        let fee_amount = big_div(
            &big_mul(&output_amount, &big_from_u64(self.fee_rate)),
            &big_from_u64(10000),
        );
        proof {
            lemma_fee_within_output(big_val(output_amount), self.fee_rate as nat);
        }
        let output_after_fee = big_sub(&output_amount, &fee_amount);
        Ok(output_after_fee)
    }
}

/// The fee share `out * fee / 10000` never exceeds the output itself when
/// the fee is at most 100%.
proof fn lemma_fee_within_output(out: nat, fee: nat)
    requires
        fee <= 10000,
    ensures
        out * fee / 10000 <= out,
{
    assert(out * fee <= out * 10000) by (nonlinear_arith)
        requires
            fee <= 10000,
    {};
    vstd::arithmetic::div_mod::lemma_div_is_ordered((out * fee) as int, (out * 10000) as int, 10000);
    vstd::arithmetic::div_mod::lemma_div_multiples_vanish(out as int, 10000);
}

} // verus!
