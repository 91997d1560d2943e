//! The pool model: token identities, reserves, claim-share supply, fee rate
//! and curve variant, with the shared lookup and fee-adjustment operations.

use vstd::prelude::*;

verus! {

use num_bigint::BigUint;
use crate::bignat::{big_from_u64, big_is_zero, big_lt, big_mul, big_val, big_vals};
use crate::errors::SwapError;
use crate::math::{integer_sqrt, seq_prod, spec_isqrt};

/// An immutable token identity: address, display symbol, decimal precision.
#[derive(Debug, Clone)]
pub struct Token {
    pub address: String,
    pub symbol: String,
    pub decimals: u8,
}

/// The curve variant that selects a pool's swap and mint algorithm.  It is
/// fixed at pool creation.
#[derive(Debug, Clone, Copy, PartialEq, Eq, Structural)]
pub enum PoolType {
    ConstantProduct,
    StableSwap,
    ConcentratedLiquidity,
}

/// A liquidity pool: an ordered token list with one reserve per token, the
/// outstanding claim-share supply, and a fee rate in basis points.
///
/// `reserves[i]` is the balance of `tokens[i]`; the token addresses are
/// unique, so the pair of vectors is exactly a mapping from address to
/// balance.
#[derive(Debug, Clone)]
pub struct Pool {
    pub id: String,
    pub tokens: Vec<Token>,
    pub reserves: Vec<BigUint>,
    pub total_supply: BigUint,
    /// Basis points; 10000 is 100%.
    pub fee_rate: u64,
    pub pool_type: PoolType,
}

impl Pool {
    /// The address of the token at position `i`.
    pub open spec fn addr_at(self, i: int) -> Seq<char> {
        self.tokens@[i].address@
    }

    /// The reserve balances, as mathematical values, in token order.
    pub open spec fn reserve_vals(self) -> Seq<nat> {
        big_vals(self.reserves@)
    }

    /// Well-formedness: at least two tokens, one reserve per token, unique
    /// addresses, and a fee of at most 100%.
    pub open spec fn wf(self) -> bool {
        &&& self.tokens@.len() >= 2
        &&& self.reserves@.len() == self.tokens@.len()
        &&& self.fee_rate <= 10000
        &&& forall|i: int, j: int|
            0 <= i < j < self.tokens@.len() ==> #[trigger] self.addr_at(i) != #[trigger] self.addr_at(j)
    }

    /// The pool tracks a token with this address.
    pub open spec fn has_token(self, addr: Seq<char>) -> bool {
        exists|i: int| 0 <= i < self.tokens@.len() && #[trigger] self.addr_at(i) == addr
    }

    /// The position of the token with this address.
    pub open spec fn token_index(self, addr: Seq<char>) -> int {
        choose|i: int| 0 <= i < self.tokens@.len() && #[trigger] self.addr_at(i) == addr
    }

    /// The reserve balance of the token with this address.
    pub open spec fn reserve_of(self, addr: Seq<char>) -> nat {
        self.reserve_vals()[self.token_index(addr)]
    }
}

/// In a well-formed pool the position of an address is unique, so any index
/// whose token carries the address is `token_index` of that address.
pub proof fn lemma_token_index_agrees(p: Pool, addr: Seq<char>, i: int)
    requires
        p.wf(),
        0 <= i < p.tokens@.len(),
        p.addr_at(i) == addr,
    ensures
        p.has_token(addr),
        p.token_index(addr) == i,
{
    assert(p.has_token(addr));
    let j = p.token_index(addr);
    if i < j {
        assert(p.addr_at(i) != p.addr_at(j));
    } else if j < i {
        assert(p.addr_at(j) != p.addr_at(i));
    }
}

impl Pool {
    /// Builds a pool from its parts.  A constant-product pool opens with a
    /// claim-share supply equal to the integer square root of the product of
    /// its initial reserves (the two-asset geometric mean); the other curve
    /// variants open at zero supply, pending a bootstrap deposit.
    pub fn new(
        id: String,
        tokens: Vec<Token>,
        initial_reserves: Vec<BigUint>,
        fee_rate: u64,
        pool_type: PoolType,
    ) -> (r: Pool)
        requires
            tokens@.len() >= 2,
            initial_reserves@.len() == tokens@.len(),
            fee_rate <= 10000,
            forall|i: int, j: int|
                0 <= i < j < tokens@.len() ==> #[trigger] tokens@[i].address@ != #[trigger] tokens@[j].address@,
        ensures
            r.wf(),
            r.id == id,
            r.tokens == tokens,
            r.reserves == initial_reserves,
            r.fee_rate == fee_rate,
            r.pool_type == pool_type,
            big_val(r.total_supply) == (match pool_type {
                PoolType::ConstantProduct => spec_isqrt(seq_prod(big_vals(initial_reserves@))),
                _ => 0nat,
            }),
    {
        let total_supply = match pool_type {
            PoolType::ConstantProduct => {
                let ghost vals = big_vals(initial_reserves@);
                let mut product = big_from_u64(1);
                let mut i: usize = 0;
                while i < initial_reserves.len()
                    invariant
                        i <= initial_reserves@.len(),
                        vals == big_vals(initial_reserves@),
                        big_val(product) == seq_prod(vals.take(i as int)),
                    decreases initial_reserves@.len() - i,
                {
                    product = big_mul(&product, &initial_reserves[i]);
                    proof {
                        assert(vals.take(i + 1).drop_last() =~= vals.take(i as int));
                        assert(vals.take(i + 1).last() == vals[i as int]);
                    }
                    i = i + 1;
                }
                proof {
                    assert(vals.take(vals.len() as int) =~= vals);
                }
                integer_sqrt(&product)
            }
            _ => big_from_u64(0),
        };
        Pool { id, tokens, reserves: initial_reserves, total_supply, fee_rate, pool_type }
    }

    /// The position of the token with the given address, or `TokenNotFound`.
    pub fn find_token_index(&self, token_address: &str) -> (r: Result<usize, SwapError>)
        requires
            self.wf(),
        ensures
            match r {
                Ok(i) => {
                    &&& 0 <= i < self.tokens@.len()
                    &&& self.addr_at(i as int) == token_address@
                    &&& self.has_token(token_address@)
                    &&& i as int == self.token_index(token_address@)
                },
                Err(e) => e == SwapError::TokenNotFound && !self.has_token(token_address@),
            },
    {
        let needle: String = token_address.to_owned();
        let mut i: usize = 0;
        while i < self.tokens.len()
            invariant
                self.wf(),
                needle@ == token_address@,
                i <= self.tokens@.len(),
                forall|j: int| 0 <= j < i ==> #[trigger] self.addr_at(j) != token_address@,
            decreases self.tokens@.len() - i,
        {
            if self.tokens[i].address == needle {
                proof {
                    lemma_token_index_agrees(*self, token_address@, i as int);
                }
                return Ok(i);
            }
            i = i + 1;
        }
        Err(SwapError::TokenNotFound)
    }

    /// The pool's current price of `token_a` in units of `token_b`, as the
    /// exact rational `reserve_b / reserve_a`, returned as a
    /// (numerator, denominator) pair of reserve balances.
    pub fn get_current_price(&self, token_a: &str, token_b: &str) -> (r: Result<
        (BigUint, BigUint),
        SwapError,
    >)
        requires
            self.wf(),
        ensures
            match r {
                Ok(p) => {
                    &&& self.has_token(token_a@)
                    &&& self.has_token(token_b@)
                    &&& big_val(p.0) == self.reserve_of(token_b@)
                    &&& big_val(p.1) == self.reserve_of(token_a@)
                    &&& big_val(p.0) > 0
                    &&& big_val(p.1) > 0
                },
                Err(e) => {
                    &&& (e == SwapError::TokenNotFound <==> !self.has_token(token_a@) || !self.has_token(
                        token_b@,
                    ))
                    &&& (e == SwapError::InsufficientLiquidity <==> self.has_token(token_a@)
                        && self.has_token(token_b@) && (self.reserve_of(token_a@) == 0
                        || self.reserve_of(token_b@) == 0))
                    &&& (e == SwapError::TokenNotFound || e == SwapError::InsufficientLiquidity)
                },
            },
    {
        let idx_a = match self.find_token_index(token_a) {
            Ok(i) => i,
            Err(e) => { return Err(e); },
        };
        let idx_b = match self.find_token_index(token_b) {
            Ok(i) => i,
            Err(e) => { return Err(e); },
        };
        let reserve_a = &self.reserves[idx_a];
        let reserve_b = &self.reserves[idx_b];
        if big_is_zero(reserve_a) || big_is_zero(reserve_b) {
            return Err(SwapError::InsufficientLiquidity);
        }
        Ok((reserve_b.clone(), reserve_a.clone()))
    }

    /// Adjusts the fee from 24-hour volume and market volatility, which is
    /// given as the exact rational `volatility_num / volatility_den`.  The new
    /// fee is `base 300 + 50 (if volume exceeds one million) + volatility
    /// times 100, rounded half-up`, capped at 1000 basis points.
    pub fn update_dynamic_fee(
        &mut self,
        volume_24h: &BigUint,
        volatility_num: u64,
        volatility_den: u64,
    )
        requires
            volatility_den >= 1,
        ensures
            final(self).fee_rate == spec_dynamic_fee(
                big_val(*volume_24h),
                volatility_num as nat,
                volatility_den as nat,
            ),
            final(self).fee_rate <= 1000,
            final(self).id == old(self).id,
            final(self).tokens == old(self).tokens,
            final(self).reserves == old(self).reserves,
            final(self).total_supply == old(self).total_supply,
            final(self).pool_type == old(self).pool_type,
            old(self).wf() ==> final(self).wf(),
    {
        let volume_factor: u64 = if big_lt(&big_from_u64(1000000), volume_24h) {
            50
        } else {
            0
        };
        let volatility_factor: u128 = (200u128 * (volatility_num as u128) + (volatility_den
            as u128)) / (2u128 * (volatility_den as u128));
        let fee: u128 = 300u128 + (volume_factor as u128) + volatility_factor;
        self.fee_rate = if fee > 1000 {
            1000
        } else {
            fee as u64
        };
        proof {
            if old(self).wf() {
                assert forall|i: int, j: int|
                    0 <= i < j < self.tokens@.len() implies #[trigger] self.addr_at(i)
                    != #[trigger] self.addr_at(j) by {
                    assert(old(self).addr_at(i) != old(self).addr_at(j));
                }
            }
        }
    }
}

/// The dynamic fee rule: base 300, plus 50 on more than a million of volume,
/// plus the volatility (a rational) times 100 rounded half-up, capped at 1000.
pub open spec fn spec_dynamic_fee(volume_24h: nat, vol_num: nat, vol_den: nat) -> nat {
    let volume_factor: nat = if volume_24h > 1000000 {
        50nat
    } else {
        0nat
    };
    let volatility_factor = (200 * vol_num + vol_den) / (2 * vol_den);
    let fee = 300 + volume_factor + volatility_factor;
    if fee > 1000 {
        1000nat
    } else {
        fee
    }
}

/// The dynamic fee never exceeds 1000 basis points, and it strictly exceeds
/// the base fee of 300 whenever the volume is above one million or the
/// volatility is at least 1/200, the smallest value whose scaled factor
/// rounds up to one; a smaller positive volatility rounds to zero and
/// leaves the fee at the base.
pub proof fn lemma_dynamic_fee_bounds(volume_24h: nat, vol_num: nat, vol_den: nat)
    requires
        vol_den >= 1,
    ensures
        spec_dynamic_fee(volume_24h, vol_num, vol_den) <= 1000,
        volume_24h > 1000000 || 200 * vol_num >= vol_den ==> spec_dynamic_fee(
            volume_24h,
            vol_num,
            vol_den,
        ) > 300,
{
    let factor = (200 * vol_num + vol_den) / (2 * vol_den);
    if 200 * vol_num >= vol_den {
        assert(factor >= 1) by {
            vstd::arithmetic::div_mod::lemma_div_is_ordered(
                (2 * vol_den) as int,
                (200 * vol_num + vol_den) as int,
                (2 * vol_den) as int,
            );
            vstd::arithmetic::div_mod::lemma_div_by_self((2 * vol_den) as int);
        }
    }
}

impl Pool {
    /// Prices a swap with the pool's own curve algorithm; a curve other than
    /// the constant product is rejected here as unsupported.
    pub fn calculate_swap_output(
        &self,
        input_token: &str,
        output_token: &str,
        input_amount: &BigUint,
    ) -> (r: Result<BigUint, SwapError>)
        requires
            self.wf(),
        ensures
            match self.pool_type {
                PoolType::ConstantProduct => crate::constant_product::cp_swap_ensures(
                    *self,
                    input_token@,
                    output_token@,
                    big_val(*input_amount),
                    r,
                ),
                _ => r == Err::<BigUint, SwapError>(SwapError::UnsupportedPoolType),
            },
    {
        match self.pool_type {
            PoolType::ConstantProduct => self.constant_product_swap(
                input_token,
                output_token,
                input_amount,
            ),
            _ => Err(SwapError::UnsupportedPoolType),
        }
    }

    /// Prices a swap under any of the three curve variants.  The price
    /// window only governs the concentrated-liquidity curve; the other
    /// variants ignore it.
    pub fn calculate_multi_asset_swap(
        &self,
        input_token: &str,
        output_token: &str,
        input_amount: &BigUint,
        price_range: &crate::concentrated::PriceRange,
    ) -> (r: Result<BigUint, SwapError>)
        requires
            self.wf(),
            price_range.wf(),
        ensures
            match self.pool_type {
                PoolType::ConstantProduct => crate::constant_product::cp_swap_ensures(
                    *self,
                    input_token@,
                    output_token@,
                    big_val(*input_amount),
                    r,
                ),
                PoolType::StableSwap => crate::stable_swap::stable_swap_ensures(
                    *self,
                    input_token@,
                    output_token@,
                    big_val(*input_amount),
                    r,
                ),
                PoolType::ConcentratedLiquidity => crate::concentrated::cl_swap_ensures(
                    *self,
                    input_token@,
                    output_token@,
                    big_val(*input_amount),
                    *price_range,
                    r,
                ),
            },
    {
        match self.pool_type {
            PoolType::ConstantProduct => self.constant_product_swap(
                input_token,
                output_token,
                input_amount,
            ),
            PoolType::StableSwap => self.stable_swap(input_token, output_token, input_amount),
            PoolType::ConcentratedLiquidity => self.calculate_concentrated_liquidity_swap(
                input_token,
                output_token,
                input_amount,
                price_range,
            ),
        }
    }
}

} // verus!
