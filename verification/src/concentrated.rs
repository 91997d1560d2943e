//! The concentrated-liquidity engine: a bounded-price-range approximation.
//!
//! A swap is served only while the pool's current price, the exact rational
//! `reserve_out / reserve_in`, lies inside the caller's `[min, max]` window.
//! The window bounds are exact rationals of machine integers, so every
//! comparison and every output is deterministic integer arithmetic; no value
//! passes through floating point.  Active liquidity within the window is the
//! claim-share supply scaled by `1 / (max - min)`, the output follows from a
//! price-impact ratio applied to the current price, and the fee is then
//! deducted from the output with the input-fee multiplier
//! `(10000 - fee) / 10000`.

use vstd::prelude::*;

verus! {

use num_bigint::BigUint;
use crate::bignat::{big_add, big_div, big_from_u128, big_from_u64, big_is_zero, big_lt, big_mul, big_val};
use crate::errors::SwapError;
use crate::pool::Pool;

/// A price window: `min_num / min_den <= price <= max_num / max_den`.
#[derive(Debug, Clone, Copy, PartialEq, Eq, Structural)]
pub struct PriceRange {
    pub min_num: u64,
    pub min_den: u64,
    pub max_num: u64,
    pub max_den: u64,
}

impl PriceRange {
    /// Positive denominators and a strictly positive width.
    pub open spec fn wf(self) -> bool {
        &&& self.min_den >= 1
        &&& self.max_den >= 1
        &&& (self.min_num as int) * (self.max_den as int) < (self.max_num as int) * (self.min_den
            as int)
    }

    /// Whether the range is usable: positive denominators and a positive
    /// width, checked at run time.
    pub fn is_valid(&self) -> (r: bool)
        ensures
            r == self.wf(),
    {
        proof {
            lemma_u64_mul_fits(self.min_num, self.max_den);
            lemma_u64_mul_fits(self.max_num, self.min_den);
        }
        self.min_den >= 1 && self.max_den >= 1 && (self.min_num as u128) * (self.max_den as u128)
            < (self.max_num as u128) * (self.min_den as u128)
    }
}

/// The product of two machine words fits in a double-width word.
proof fn lemma_u64_mul_fits(a: u64, b: u64)
    ensures
        (a as int) * (b as int) <= 0xfffffffffffffffe0000000000000001,
{
    vstd::arithmetic::mul::lemma_mul_upper_bound(
        a as int,
        0xffffffffffffffff,
        b as int,
        0xffffffffffffffff,
    );
}

/// The price `ro / ri` lies inside the window.
pub open spec fn price_in_range(ri: nat, ro: nat, w: PriceRange) -> bool {
    &&& ro * (w.min_den as nat) >= (w.min_num as nat) * ri
    &&& ro * (w.max_den as nat) <= (w.max_num as nat) * ri
}

/// The numerator of the window width over the denominator
/// `min_den * max_den`.
pub open spec fn range_width_num(w: PriceRange) -> int {
    (w.max_num as int) * (w.min_den as int) - (w.min_num as int) * (w.max_den as int)
}

/// Active liquidity in the window: the claim-share supply divided by the
/// window width, truncating.
pub open spec fn cl_liquidity(ts: nat, w: PriceRange) -> nat
    recommends
        w.wf(),
{
    ((ts * ((w.min_den as nat) * (w.max_den as nat))) as int / range_width_num(w)) as nat
}

/// The concentrated-liquidity output: the truncated price impact
/// `amount / liquidity` raises the price, the output is the amount priced at
/// the truncated new price, and the fee multiplier is applied last.
pub open spec fn cl_out(ri: nat, ro: nat, ts: nat, amount: nat, fee: nat, w: PriceRange) -> nat
    recommends
        w.wf(),
        ri >= 1,
        cl_liquidity(ts, w) >= 1,
        fee <= 10000,
{
    let liq = cl_liquidity(ts, w);
    let impact = amount / liq;
    let floor_price = ro * (1 + impact) / ri;
    (amount * floor_price * (10000 - fee) / 10000) as nat
}

/// What a concentrated-liquidity swap returns: the exact output on success,
/// and each failure exactly on the inputs that cause it.
pub open spec fn cl_swap_ensures(
    p: Pool,
    tin: Seq<char>,
    tout: Seq<char>,
    amount: nat,
    w: PriceRange,
    r: Result<BigUint, SwapError>,
) -> bool {
    let ri = p.reserve_of(tin);
    let ro = p.reserve_of(tout);
    let ts = big_val(p.total_supply);
    match r {
        Ok(out) => {
            &&& p.has_token(tin)
            &&& p.has_token(tout)
            &&& ri >= 1
            &&& ro >= 1
            &&& price_in_range(ri, ro, w)
            &&& cl_liquidity(ts, w) >= 1
            &&& big_val(out) == cl_out(ri, ro, ts, amount, p.fee_rate as nat, w)
        },
        Err(e) => {
            &&& (e == SwapError::TokenNotFound <==> !p.has_token(tin) || !p.has_token(tout))
            &&& (e == SwapError::InsufficientLiquidity <==> p.has_token(tin) && p.has_token(tout)
                && (ri == 0 || ro == 0 || (price_in_range(ri, ro, w) && cl_liquidity(ts, w) == 0)))
            &&& (e == SwapError::PriceOutOfRange <==> p.has_token(tin) && p.has_token(tout) && ri
                >= 1 && ro >= 1 && !price_in_range(ri, ro, w))
            &&& (e == SwapError::TokenNotFound || e == SwapError::InsufficientLiquidity || e
                == SwapError::PriceOutOfRange)
        },
    }
}

impl Pool {
    /// The concentrated-liquidity swap within the given price window.
    #[verifier::loop_isolation(false)]
    pub fn calculate_concentrated_liquidity_swap(
        &self,
        input_token: &str,
        output_token: &str,
        input_amount: &BigUint,
        price_range: &PriceRange,
    ) -> (r: Result<BigUint, SwapError>)
        requires
            self.wf(),
            price_range.wf(),
        ensures
            cl_swap_ensures(
                *self,
                input_token@,
                output_token@,
                big_val(*input_amount),
                *price_range,
                r,
            ),
    {
        let (price_num, price_den) = match self.get_current_price(input_token, output_token) {
            Ok(p) => p,
            Err(e) => { return Err(e); },
        };
        // The window check on the exact rational price ro / ri.
        let min_num = big_from_u64(price_range.min_num);
        let min_den = big_from_u64(price_range.min_den);
        let max_num = big_from_u64(price_range.max_num);
        let max_den = big_from_u64(price_range.max_den);
        let below = big_lt(&big_mul(&price_num, &min_den), &big_mul(&min_num, &price_den));
        let above = big_lt(&big_mul(&max_num, &price_den), &big_mul(&price_num, &max_den));
        if below || above {
            return Err(SwapError::PriceOutOfRange);
        }
        // Active liquidity in the window.
        proof {
            lemma_u64_mul_fits(price_range.max_num, price_range.min_den);
            lemma_u64_mul_fits(price_range.min_num, price_range.max_den);
            lemma_u64_mul_fits(price_range.min_den, price_range.max_den);
        }
        let width: u128 = (price_range.max_num as u128) * (price_range.min_den as u128) - (
        price_range.min_num as u128) * (price_range.max_den as u128);
        let scale: u128 = (price_range.min_den as u128) * (price_range.max_den as u128);
        let liquidity = big_div(
            &big_mul(&self.total_supply, &big_from_u128(scale)),
            &big_from_u128(width),
        );
        if big_is_zero(&liquidity) {
            return Err(SwapError::InsufficientLiquidity);
        }
        // Price impact, new price, output, fee.
        let impact = big_div(input_amount, &liquidity);
        let one = big_from_u64(1);
        let floor_price = big_div(&big_mul(&price_num, &big_add(&one, &impact)), &price_den);
        let gross = big_mul(input_amount, &floor_price);
        let fee_multiplier = big_from_u64(10000 - self.fee_rate);
        let output = big_div(&big_mul(&gross, &fee_multiplier), &big_from_u64(10000));
        Ok(output)
    }
}

} // verus!
