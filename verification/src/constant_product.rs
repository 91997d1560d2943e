//! The constant-product engine: swap pricing for two-asset `x * y = k`
//! pools, with the conservation and no-drain laws of the product invariant.

use vstd::prelude::*;

verus! {

use num_bigint::BigUint;
use vstd::arithmetic::div_mod::{
    lemma_div_is_ordered,
    lemma_div_multiples_vanish,
    lemma_fundamental_div_mod,
    lemma_multiply_divide_lt,
};
use crate::bignat::{big_add, big_div, big_from_u64, big_is_zero, big_le, big_mul, big_val};
use crate::errors::SwapError;
use crate::pool::Pool;

/// The input amount net of the fee: `amount * (10000 - fee_rate) / 10000`,
/// truncating.
pub open spec fn net_in(amount: nat, fee_rate: nat) -> nat
    recommends
        fee_rate <= 10000,
{
    ((amount * (10000 - fee_rate)) / 10000) as nat
}

/// The constant-product swap output for input reserve `ri`, output reserve
/// `ro` and gross input `amount`: `net * ro / (ri + net)`, truncating, where
/// `net` is the input net of the fee.
pub open spec fn cp_out(ri: nat, ro: nat, amount: nat, fee_rate: nat) -> nat
    recommends
        ri >= 1,
        fee_rate <= 10000,
{
    let net = net_in(amount, fee_rate);
    ((net * ro) / (ri + net)) as nat
}

/// What a constant-product swap returns: the exact output on success, and
/// each failure exactly on the inputs that cause it.
pub open spec fn cp_swap_ensures(
    p: Pool,
    tin: Seq<char>,
    tout: Seq<char>,
    amount: nat,
    r: Result<BigUint, SwapError>,
) -> bool {
    match r {
        Ok(out) => {
            &&& p.has_token(tin)
            &&& p.has_token(tout)
            &&& p.reserve_of(tin) >= 1
            &&& p.reserve_of(tout) >= 1
            &&& big_val(out) == cp_out(p.reserve_of(tin), p.reserve_of(tout), amount, p.fee_rate as nat)
            &&& big_val(out) < p.reserve_of(tout)
        },
        Err(e) => {
            &&& (e == SwapError::TokenNotFound <==> !p.has_token(tin) || !p.has_token(tout))
            &&& (e == SwapError::InsufficientLiquidity <==> p.has_token(tin) && p.has_token(tout)
                && (p.reserve_of(tin) == 0 || p.reserve_of(tout) == 0))
            &&& (e == SwapError::TokenNotFound || e == SwapError::InsufficientLiquidity)
        },
    }
}

/// On positive reserves the output is always strictly below the output
/// reserve: a constant-product pool cannot be drained.
pub proof fn lemma_cp_out_less_than_reserve(ri: nat, ro: nat, amount: nat, fee_rate: nat)
    requires
        ri >= 1,
        ro >= 1,
        fee_rate <= 10000,
    ensures
        cp_out(ri, ro, amount, fee_rate) < ro,
{
    let net = net_in(amount, fee_rate);
    assert(net * ro < (ri + net) * ro) by (nonlinear_arith)
        requires
            ri >= 1,
            ro >= 1,
            net >= 0,
    {};
    lemma_multiply_divide_lt((net * ro) as int, (ri + net) as int, ro as int);
}

/// The net input never exceeds the gross input, and is strictly below it as
/// soon as both the fee and the input are positive.
proof fn lemma_net_in_bounds(amount: nat, fee_rate: nat)
    requires
        fee_rate <= 10000,
    ensures
        net_in(amount, fee_rate) <= amount,
        fee_rate >= 1 && amount >= 1 ==> net_in(amount, fee_rate) < amount,
{
    let scaled = amount * (10000 - fee_rate);
    assert(scaled <= amount * 10000) by (nonlinear_arith)
        requires
            fee_rate <= 10000,
            scaled == amount * (10000 - fee_rate),
    {};
    lemma_div_is_ordered(scaled as int, (amount * 10000) as int, 10000);
    lemma_div_multiples_vanish(amount as int, 10000);
    if fee_rate >= 1 && amount >= 1 {
        assert(scaled < amount * 10000) by (nonlinear_arith)
            requires
                1 <= fee_rate <= 10000,
                amount >= 1,
                scaled == amount * (10000 - fee_rate),
        {};
        lemma_multiply_divide_lt(scaled as int, 10000, amount as int);
    }
}

/// For all valid constant-product swap inputs the output lies strictly
/// between zero and the output reserve.  Positivity asks that the net input
/// be large enough for the truncated quotient to reach one
/// (`net * ro >= ri + net`); smaller trades round down to zero output.
pub proof fn lemma_cp_output_in_range(ri: nat, ro: nat, amount: nat, fee_rate: nat)
    requires
        ri >= 1,
        ro >= 1,
        fee_rate <= 10000,
        amount >= 1,
        net_in(amount, fee_rate) * ro >= ri + net_in(amount, fee_rate),
    ensures
        0 < cp_out(ri, ro, amount, fee_rate) < ro,
{
    lemma_cp_out_less_than_reserve(ri, ro, amount, fee_rate);
    let net = net_in(amount, fee_rate);
    let d = (ri + net) as int;
    lemma_fundamental_div_mod((net * ro) as int, d);
    assert((net * ro) as int / d >= 1) by (nonlinear_arith)
        requires
            d >= 1,
            (net * ro) as int >= d,
            net * ro == d * ((net * ro) as int / d) + (net * ro) as int % d,
            0 <= (net * ro) as int % d < d,
    {};
}

/// Conservation of the product invariant: applying the computed deltas
/// (`ri + amount`, `ro - out`) never decreases the reserve product, increases
/// it strictly whenever the fee is positive, and for a zero fee leaves it
/// unchanged up to the integer-truncation slack, which is below `ri + amount`.
pub proof fn lemma_cp_conservation(ri: nat, ro: nat, amount: nat, fee_rate: nat)
    requires
        ri >= 1,
        ro >= 1,
        fee_rate <= 10000,
        amount >= 1,
    ensures
        (ri + amount) * (ro - cp_out(ri, ro, amount, fee_rate)) >= ri * ro,
        fee_rate >= 1 ==> (ri + amount) * (ro - cp_out(ri, ro, amount, fee_rate)) > ri * ro,
        fee_rate == 0 ==> (ri + amount) * (ro - cp_out(ri, ro, amount, fee_rate)) < ri * ro + ri
            + amount,
{
    let net = net_in(amount, fee_rate);
    let out = cp_out(ri, ro, amount, fee_rate);
    let d = (ri + net) as int;
    lemma_cp_out_less_than_reserve(ri, ro, amount, fee_rate);
    lemma_net_in_bounds(amount, fee_rate);
    lemma_fundamental_div_mod((net * ro) as int, d);
    // (ri + net) * out <= net * ro, with slack below ri + net.
    assert(d * (out as int) <= net * ro) by (nonlinear_arith)
        requires
            d >= 1,
            out == (net * ro) as int / d,
            net * ro == d * ((net * ro) as int / d) + (net * ro) as int % d,
            0 <= (net * ro) as int % d,
    {};
    assert(net * ro < d * (out as int) + d) by (nonlinear_arith)
        requires
            d >= 1,
            out == (net * ro) as int / d,
            net * ro == d * ((net * ro) as int / d) + (net * ro) as int % d,
            (net * ro) as int % d < d,
    {};
    // (ri + net) * (ro - out) >= ri * ro, from the division bound.
    assert((ri + net) * (ro - out) >= ri * ro) by (nonlinear_arith)
        requires
            d == ri + net,
            d * (out as int) <= net * ro,
            out < ro,
    {};
    // Widening the input-side reserve to the gross amount only helps.
    assert((ri + amount) * (ro - out) >= (ri + net) * (ro - out)) by (nonlinear_arith)
        requires
            net <= amount,
            out < ro,
    {};
    if fee_rate >= 1 {
        assert((ri + amount) * (ro - out) > (ri + net) * (ro - out)) by (nonlinear_arith)
            requires
                net < amount,
                out < ro,
        {};
    }
    if fee_rate == 0 {
        // net == amount, and the slack of the truncated division is below d.
        assert(net == amount) by {
            assert(amount * (10000 - 0) == amount * 10000) by (nonlinear_arith) {};
            lemma_div_multiples_vanish(amount as int, 10000);
        }
        assert((ri + amount) * (ro - out) < ri * ro + ri + amount) by (nonlinear_arith)
            requires
                d == ri + amount,
                net == amount,
                net * ro < d * (out as int) + d,
                out < ro,
                d >= 1,
        {};
    }
}

impl Pool {
    /// The constant-product swap: fails on an unknown token or a zero
    /// reserve, otherwise prices `input_amount` against the two reserves with
    /// the fee taken from the input side.
    pub(crate) fn constant_product_swap(
        &self,
        input_token: &str,
        output_token: &str,
        input_amount: &BigUint,
    ) -> (r: Result<BigUint, SwapError>)
        requires
            self.wf(),
        ensures
            cp_swap_ensures(*self, input_token@, output_token@, big_val(*input_amount), r),
    {
        let idx_in = match self.find_token_index(input_token) {
            Ok(i) => i,
            Err(e) => { return Err(e); },
        };
        let idx_out = match self.find_token_index(output_token) {
            Ok(i) => i,
            Err(e) => { return Err(e); },
        };
        let input_reserve = &self.reserves[idx_in];
        let output_reserve = &self.reserves[idx_out];
        if big_is_zero(input_reserve) || big_is_zero(output_reserve) {
            return Err(SwapError::InsufficientLiquidity);
        }
        let fee_multiplier = big_from_u64(10000 - self.fee_rate);
        let input_amount_with_fee = big_div(
            &big_mul(input_amount, &fee_multiplier),
            &big_from_u64(10000),
        );
        let numerator = big_mul(&input_amount_with_fee, output_reserve);
        let denominator = big_add(input_reserve, &input_amount_with_fee);
        // The input reserve is positive, so the denominator cannot vanish.
        if big_is_zero(&denominator) {
            return Err(SwapError::InsufficientLiquidity);
        }
        let output_amount = big_div(&numerator, &denominator);
        proof {
            lemma_cp_out_less_than_reserve(
                big_val(*input_reserve),
                big_val(*output_reserve),
                big_val(*input_amount),
                self.fee_rate as nat,
            );
        }
        // The output is proved below the reserve, so this guard never fires.
        if big_le(output_reserve, &output_amount) {
            return Err(SwapError::InsufficientLiquidity);
        }
        Ok(output_amount)
    }
}

} // verus!
