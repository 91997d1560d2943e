//! Liquidity accounting: deposits that mint claim shares, shared across the
//! curve variants.
//!
//! A deposit into a fresh pool (zero supply) bootstraps the claim-share
//! supply with the integer square root of the product of the deposited
//! amounts and must name every token of the pool.  A deposit into a live
//! pool mints the minimum of the per-token ratios
//! `amount * total_supply / reserve`, protecting existing holders from
//! dilution by an imbalanced deposit.  Reserves and supply are updated
//! together, or not at all.

use vstd::prelude::*;

verus! {

use num_bigint::BigUint;
use vstd::arithmetic::div_mod::lemma_div_multiples_vanish_quotient;
use crate::bignat::{big_add, big_div, big_from_u64, big_is_zero, big_lt, big_mul, big_val};
use crate::errors::LiquidityError;
use crate::math::{seq_min, seq_prod, spec_isqrt};
use crate::pool::{lemma_token_index_agrees, Pool};

/// One entry of a deposit request: a token address and the amount added.
#[derive(Debug, Clone)]
pub struct TokenAmount {
    pub address: String,
    pub amount: BigUint,
}

/// The amounts of a deposit, as mathematical values, in request order.
pub open spec fn deposit_vals(ds: Seq<TokenAmount>) -> Seq<nat> {
    ds.map(|i: int, d: TokenAmount| big_val(d.amount))
}

/// No address appears twice in a deposit request.
pub open spec fn deposits_unique(ds: Seq<TokenAmount>) -> bool {
    forall|i: int, j: int|
        0 <= i < j < ds.len() ==> #[trigger] ds[i].address@ != #[trigger] ds[j].address@
}

/// The deposit request names this address.
pub open spec fn deposit_has(ds: Seq<TokenAmount>, addr: Seq<char>) -> bool
    decreases ds.len(),
{
    ds.len() != 0 && (ds.last().address@ == addr || deposit_has(ds.drop_last(), addr))
}

/// The amount the request deposits for this address (zero when absent).
pub open spec fn deposit_amount_of(ds: Seq<TokenAmount>, addr: Seq<char>) -> nat
    decreases ds.len(),
{
    if ds.len() == 0 {
        0
    } else if ds.last().address@ == addr {
        big_val(ds.last().amount)
    } else {
        deposit_amount_of(ds.drop_last(), addr)
    }
}

/// An entry with the address is a witness that the request names it.
pub proof fn lemma_deposit_has_witness(ds: Seq<TokenAmount>, k: int)
    requires
        0 <= k < ds.len(),
    ensures
        deposit_has(ds, ds[k].address@),
    decreases ds.len(),
{
    if k < ds.len() - 1 {
        lemma_deposit_has_witness(ds.drop_last(), k);
    }
}

/// The mint ratio of deposit entry `i` against a pool:
/// `amount_i * total_supply / reserve_i`, truncating.
pub open spec fn mint_ratio_at(p: Pool, ds: Seq<TokenAmount>, i: int) -> nat {
    (big_val(ds[i].amount) * big_val(p.total_supply)) / p.reserve_of(ds[i].address@)
}

/// The per-token mint ratios of a deposit against a pool, in request order.
pub open spec fn mint_ratios(p: Pool, ds: Seq<TokenAmount>) -> Seq<nat> {
    Seq::new(ds.len(), |i: int| mint_ratio_at(p, ds, i))
}

/// Some deposited address is unknown to the pool.
pub open spec fn deposit_unknown_token(p: Pool, ds: Seq<TokenAmount>) -> bool {
    exists|i: int| 0 <= i < ds.len() && !p.has_token(#[trigger] ds[i].address@)
}

/// The pool is fresh and the request omits one of its tokens.
pub open spec fn deposit_missing_token(p: Pool, ds: Seq<TokenAmount>) -> bool {
    big_val(p.total_supply) == 0 && exists|i: int|
        0 <= i < p.tokens@.len() && !deposit_has(ds, #[trigger] p.addr_at(i))
}

/// The pool is live and the request is empty or meets a zero reserve.
pub open spec fn deposit_degenerate(p: Pool, ds: Seq<TokenAmount>) -> bool {
    big_val(p.total_supply) > 0 && (ds.len() == 0 || exists|i: int|
        0 <= i < ds.len() && p.reserve_of(#[trigger] ds[i].address@) == 0)
}

/// What the claim-share mint computation returns: the bootstrap square root
/// or the minimum ratio on success, and each failure exactly on the inputs
/// that cause it.
pub open spec fn lp_mint_ensures(
    p: Pool,
    ds: Seq<TokenAmount>,
    r: Result<BigUint, LiquidityError>,
) -> bool {
    match r {
        Ok(m) => {
            &&& !deposit_unknown_token(p, ds)
            &&& !deposit_missing_token(p, ds)
            &&& !deposit_degenerate(p, ds)
            &&& big_val(m) == (if big_val(p.total_supply) == 0 {
                spec_isqrt(seq_prod(deposit_vals(ds)))
            } else {
                seq_min(mint_ratios(p, ds))
            })
        },
        Err(e) => {
            &&& (e == LiquidityError::TokenNotFound <==> deposit_unknown_token(p, ds)
                || deposit_missing_token(p, ds))
            &&& (e == LiquidityError::InsufficientLiquidity <==> !deposit_unknown_token(p, ds)
                && !deposit_missing_token(p, ds) && deposit_degenerate(p, ds))
        },
    }
}

/// Looks an address up in a deposit request.
fn deposit_find(ds: &Vec<TokenAmount>, addr: &String) -> (r: Option<usize>)
    ensures
        match r {
            Some(k) => 0 <= k < ds@.len() && ds@[k as int].address@ == addr@ && deposit_has(
                ds@,
                addr@,
            ),
            None => !deposit_has(ds@, addr@),
        },
{
    let mut k: usize = 0;
    while k < ds.len()
        invariant
            k <= ds@.len(),
            !deposit_has(ds@.take(k as int), addr@),
        decreases ds@.len() - k,
    {
        proof {
            assert(ds@.take(k + 1).drop_last() =~= ds@.take(k as int));
        }
        if ds[k].address == *addr {
            proof {
                lemma_deposit_has_witness(ds@, k as int);
            }
            return Some(k);
        }
        k = k + 1;
    }
    proof {
        assert(ds@.take(ds@.len() as int) =~= ds@);
    }
    None
}

impl Pool {
    /// How many claim shares a deposit mints, without mutating the pool:
    /// the bootstrap square root on a fresh pool, else the minimum of the
    /// per-token mint ratios.
    pub(crate) fn calculate_lp_tokens_to_mint(&self, token_amounts: &Vec<TokenAmount>) -> (r:
        Result<BigUint, LiquidityError>)
        requires
            self.wf(),
        ensures
            lp_mint_ensures(*self, token_amounts@, r),
    {
        let ghost ds = token_amounts@;
        // Every deposited address must be a token of the pool.
        let mut k: usize = 0;
        while k < token_amounts.len()
            invariant
                self.wf(),
                ds == token_amounts@,
                k <= ds.len(),
                forall|j: int| 0 <= j < k ==> self.has_token(#[trigger] ds[j].address@),
            decreases ds.len() - k,
        {
            match self.find_token_index(token_amounts[k].address.as_str()) {
                Ok(_) => {},
                Err(_) => {
                    proof {
                        assert(!self.has_token(ds[k as int].address@));
                        assert(deposit_unknown_token(*self, ds));
                    }
                    return Err(LiquidityError::TokenNotFound);
                },
            }
            k = k + 1;
        }
        if big_is_zero(&self.total_supply) {
            // Bootstrap: the request must cover every token of the pool.
            let mut i: usize = 0;
            while i < self.tokens.len()
                invariant
                    self.wf(),
                    ds == token_amounts@,
                    big_val(self.total_supply) == 0,
                    i <= self.tokens@.len(),
                    forall|j: int| 0 <= j < i ==> deposit_has(ds, #[trigger] self.addr_at(j)),
                decreases self.tokens@.len() - i,
            {
                match deposit_find(token_amounts, &self.tokens[i].address) {
                    Some(_) => {},
                    None => {
                        proof {
                            assert(!deposit_has(ds, self.addr_at(i as int)));
                            assert(deposit_missing_token(*self, ds));
                        }
                        return Err(LiquidityError::TokenNotFound);
                    },
                }
                i = i + 1;
            }
            // Mint the square root of the product of the deposited amounts.
            let mut product = big_from_u64(1);
            let mut k2: usize = 0;
            while k2 < token_amounts.len()
                invariant
                    ds == token_amounts@,
                    k2 <= ds.len(),
                    big_val(product) == seq_prod(deposit_vals(ds).take(k2 as int)),
                decreases ds.len() - k2,
            {
                product = big_mul(&product, &token_amounts[k2].amount);
                proof {
                    assert(deposit_vals(ds).take(k2 + 1).drop_last() =~= deposit_vals(ds).take(
                        k2 as int,
                    ));
                }
                k2 = k2 + 1;
            }
            proof {
                assert(deposit_vals(ds).take(ds.len() as int) =~= deposit_vals(ds));
            }
            return Ok(crate::math::integer_sqrt(&product));
        }
        // Proportional mint on a live pool.
        if token_amounts.len() == 0 {
            return Err(LiquidityError::InsufficientLiquidity);
        }
        let ghost ratios = mint_ratios(*self, ds);
        proof {
            assert(ratios.len() == ds.len());
        }
        let mut best: Option<BigUint> = None;
        let mut k3: usize = 0;
        while k3 < token_amounts.len()
            invariant
                self.wf(),
                ds == token_amounts@,
                ratios == mint_ratios(*self, ds),
                big_val(self.total_supply) > 0,
                k3 <= ds.len(),
                forall|j: int| 0 <= j < ds.len() ==> self.has_token(#[trigger] ds[j].address@),
                forall|j: int|
                    0 <= j < k3 ==> p_reserve_positive(*self, #[trigger] ds[j].address@),
                match best {
                    Some(b) => k3 > 0 && big_val(b) == seq_min(ratios.take(k3 as int)),
                    None => k3 == 0,
                },
            decreases ds.len() - k3,
        {
            let idx = match self.find_token_index(token_amounts[k3].address.as_str()) {
                Ok(i) => i,
                Err(_) => {
                    return Err(LiquidityError::TokenNotFound);
                },
            };
            let current_reserve = &self.reserves[idx];
            proof {
                assert(self.reserve_of(ds[k3 as int].address@) == big_val(
                    self.reserves@[idx as int],
                ));
            }
            if big_is_zero(current_reserve) {
                proof {
                    assert(self.reserve_of(ds[k3 as int].address@) == 0);
                    assert(deposit_degenerate(*self, ds));
                }
                return Err(LiquidityError::InsufficientLiquidity);
            }
            let ratio = big_div(&big_mul(&token_amounts[k3].amount, &self.total_supply), current_reserve);
            proof {
                assert(ratios.len() == ds.len());
                assert(ratios.take(k3 + 1).drop_last() =~= ratios.take(k3 as int));
                assert(ratios[k3 as int] == big_val(ratio));
            }
            best = match best {
                None => Some(ratio),
                Some(current_min) => {
                    if big_lt(&ratio, &current_min) {
                        Some(ratio)
                    } else {
                        Some(current_min)
                    }
                },
            };
            k3 = k3 + 1;
        }
        proof {
            assert(ratios.take(ds.len() as int) =~= ratios);
        }
        match best {
            Some(m) => Ok(m),
            None => Err(LiquidityError::InsufficientLiquidity),
        }
    }
}

/// The pool's reserve for this address is positive.
pub open spec fn p_reserve_positive(p: Pool, addr: Seq<char>) -> bool {
    p.reserve_of(addr) >= 1
}

impl Pool {
    /// Deposits the given amounts, mints claim shares, and applies the
    /// reserve and supply updates together; on any failure the pool is left
    /// exactly as it was.
    pub fn add_liquidity(&mut self, token_amounts: Vec<TokenAmount>) -> (r: Result<
        BigUint,
        LiquidityError,
    >)
        requires
            old(self).wf(),
            deposits_unique(token_amounts@),
        ensures
            final(self).wf(),
            match r {
                Ok(m) => {
                    &&& lp_mint_ensures(*old(self), token_amounts@, Ok::<BigUint, LiquidityError>(m))
                    &&& final(self).id == old(self).id
                    &&& final(self).tokens == old(self).tokens
                    &&& final(self).fee_rate == old(self).fee_rate
                    &&& final(self).pool_type == old(self).pool_type
                    &&& big_val(final(self).total_supply) == big_val(old(self).total_supply)
                        + big_val(m)
                    &&& final(self).reserves@.len() == old(self).reserves@.len()
                    &&& forall|i: int|
                        0 <= i < old(self).tokens@.len() ==> #[trigger] final(self).reserve_vals()[i]
                            == old(self).reserve_vals()[i] + deposit_amount_of(
                            token_amounts@,
                            old(self).addr_at(i),
                        )
                },
                Err(e) => {
                    &&& *final(self) == *old(self)
                    &&& lp_mint_ensures(*old(self), token_amounts@, Err::<BigUint, LiquidityError>(e))
                },
            },
    {
        let ghost ds = token_amounts@;
        let lp_tokens = match self.calculate_lp_tokens_to_mint(&token_amounts) {
            Ok(m) => m,
            Err(e) => {
                return Err(e);
            },
        };
        // All deposited addresses are known, so each update finds its token.
        let mut k: usize = 0;
        while k < token_amounts.len()
            invariant
                ds == token_amounts@,
                deposits_unique(ds),
                k <= ds.len(),
                old(self).wf(),
                self.wf(),
                forall|j: int| 0 <= j < ds.len() ==> old(self).has_token(#[trigger] ds[j].address@),
                self.id == old(self).id,
                self.tokens == old(self).tokens,
                self.fee_rate == old(self).fee_rate,
                self.pool_type == old(self).pool_type,
                self.total_supply == old(self).total_supply,
                self.reserves@.len() == old(self).reserves@.len(),
                forall|i: int|
                    0 <= i < old(self).tokens@.len() ==> #[trigger] self.reserve_vals()[i] == old(
                        self,
                    ).reserve_vals()[i] + deposit_amount_of(ds.take(k as int), old(self).addr_at(i)),
            decreases ds.len() - k,
        {
            let idx = match self.find_token_index(token_amounts[k].address.as_str()) {
                Ok(i) => i,
                Err(_) => {
                    // Unreachable: the mint computation validated every address.
                    proof {
                        let a = ds[k as int].address@;
                        assert(old(self).has_token(a));
                        let w = choose|w: int|
                            0 <= w < old(self).tokens@.len() && old(self).addr_at(w) == a;
                        assert(self.addr_at(w) == a);
                        assert(self.has_token(a));
                        assert(false);
                    }
                    return Err(LiquidityError::TokenNotFound);
                },
            };
            let ghost prev = *self;
            let updated = big_add(&self.reserves[idx], &token_amounts[k].amount);
            self.reserves[idx] = updated;
            proof {
                assert(self.reserves@ == prev.reserves@.update(idx as int, updated));
                assert forall|i: int|
                    0 <= i < self.reserves@.len() implies #[trigger] self.reserve_vals()[i] == (
                if i == idx as int {
                    big_val(updated)
                } else {
                    prev.reserve_vals()[i]
                }) by {
                    if i == idx as int {
                        assert(self.reserves@[i] == updated);
                    } else {
                        assert(self.reserves@[i] == prev.reserves@[i]);
                    }
                }
                assert(prev.reserve_vals()[idx as int] == big_val(prev.reserves@[idx as int]));
                lemma_deposit_update_step(*old(self), *self, ds, k as int, idx as int);
                // Well-formedness survives: only a reserve value changed.
                assert forall|i: int, j: int|
                    0 <= i < j < self.tokens@.len() implies #[trigger] self.addr_at(i)
                    != #[trigger] self.addr_at(j) by {
                    assert(old(self).addr_at(i) != old(self).addr_at(j));
                }
            }
            k = k + 1;
        }
        let ghost after_loop = *self;
        let new_supply = big_add(&self.total_supply, &lp_tokens);
        self.total_supply = new_supply;
        proof {
            assert(ds.take(ds.len() as int) =~= ds);
            assert(self.reserves@ == after_loop.reserves@);
            assert forall|i: int|
                0 <= i < old(self).tokens@.len() implies #[trigger] self.reserve_vals()[i] == old(
                self,
            ).reserve_vals()[i] + deposit_amount_of(ds, old(self).addr_at(i)) by {
                assert(after_loop.reserve_vals()[i] == old(self).reserve_vals()[i]
                    + deposit_amount_of(ds.take(ds.len() as int), old(self).addr_at(i)));
                assert(self.reserve_vals()[i] == after_loop.reserve_vals()[i]);
            }
            assert forall|i: int, j: int|
                0 <= i < j < self.tokens@.len() implies #[trigger] self.addr_at(i)
                != #[trigger] self.addr_at(j) by {
                assert(old(self).addr_at(i) != old(self).addr_at(j));
            }
        }
        Ok(lp_tokens)
    }
}

/// One mutation step of a deposit: adding entry `k` to the reserve at `idx`
/// advances every per-token prefix amount from `take(k)` to `take(k + 1)`.
proof fn lemma_deposit_update_step(before: Pool, after: Pool, ds: Seq<TokenAmount>, k: int, idx: int)
    requires
        before.wf(),
        deposits_unique(ds),
        0 <= k < ds.len(),
        0 <= idx < before.tokens@.len(),
        after.tokens == before.tokens,
        after.reserves@.len() == before.reserves@.len(),
        before.addr_at(idx) == ds[k].address@,
        forall|i: int|
            0 <= i < before.tokens@.len() && i != idx ==> #[trigger] after.reserve_vals()[i]
                == before.reserve_vals()[i] + deposit_amount_of(ds.take(k), before.addr_at(i)),
        after.reserve_vals()[idx] == before.reserve_vals()[idx] + deposit_amount_of(ds.take(k), before.addr_at(idx))
            + big_val(ds[k].amount),
    ensures
        forall|i: int|
            0 <= i < before.tokens@.len() ==> #[trigger] after.reserve_vals()[i] == before.reserve_vals()[i]
                + deposit_amount_of(ds.take(k + 1), before.addr_at(i)),
{
    assert(ds.take(k + 1).drop_last() =~= ds.take(k));
    // A duplicate of entry k cannot occur among the earlier entries.
    assert(deposit_amount_of(ds.take(k), ds[k].address@) == 0) by {
        lemma_unique_prefix_amount_zero(ds, k);
    }
    assert forall|i: int|
        0 <= i < before.tokens@.len() implies #[trigger] after.reserve_vals()[i] == before.reserve_vals()[i]
        + deposit_amount_of(ds.take(k + 1), before.addr_at(i)) by {
        if i == idx {
            assert(deposit_amount_of(ds.take(k + 1), before.addr_at(i)) == big_val(ds[k].amount));
        } else {
            // Distinct tokens have distinct addresses, so entry k leaves them alone.
            if i < idx {
                assert(before.addr_at(i) != before.addr_at(idx));
            } else {
                assert(before.addr_at(idx) != before.addr_at(i));
            }
            assert(deposit_amount_of(ds.take(k + 1), before.addr_at(i)) == deposit_amount_of(
                ds.take(k),
                before.addr_at(i),
            ));
        }
    }
}

/// In a duplicate-free request, the entries before `k` deposit nothing for
/// the address of entry `k`.
proof fn lemma_unique_prefix_amount_zero(ds: Seq<TokenAmount>, k: int)
    requires
        deposits_unique(ds),
        0 <= k < ds.len(),
    ensures
        deposit_amount_of(ds.take(k), ds[k].address@) == 0,
{
    lemma_absent_amount_zero(ds, k, k);
}

/// The first `m <= k` entries of a duplicate-free request deposit nothing
/// for the address of entry `k`.
proof fn lemma_absent_amount_zero(ds: Seq<TokenAmount>, k: int, m: int)
    requires
        deposits_unique(ds),
        0 <= k < ds.len(),
        0 <= m <= k,
    ensures
        deposit_amount_of(ds.take(m), ds[k].address@) == 0,
    decreases m,
{
    if m > 0 {
        assert(ds.take(m).last() == ds[m - 1]);
        assert(ds[m - 1].address@ != ds[k].address@);
        assert(ds.take(m).drop_last() =~= ds.take(m - 1));
        lemma_absent_amount_zero(ds, k, m - 1);
    }
}

/// Proportional-deposit fairness: when the deposited amounts are exactly
/// proportional to the pool's reserves (all cross products agree), every
/// per-token mint ratio equals the first one, and the minted minimum is that
/// common ratio.  An imbalanced deposit mints the minimum ratio by the mint
/// computation's own contract.
pub proof fn lemma_proportional_deposit_fair(p: Pool, ds: Seq<TokenAmount>)
    requires
        p.wf(),
        ds.len() > 0,
        big_val(p.total_supply) > 0,
        forall|i: int|
            0 <= i < ds.len() ==> p.reserve_of(#[trigger] ds[i].address@) >= 1,
        forall|i: int, j: int|
            0 <= i < ds.len() && 0 <= j < ds.len() ==> big_val(#[trigger] ds[i].amount)
                * p.reserve_of(#[trigger] ds[j].address@) == big_val(ds[j].amount) * p.reserve_of(
                ds[i].address@,
            ),
    ensures
        forall|i: int|
            0 <= i < ds.len() ==> #[trigger] mint_ratios(p, ds)[i] == mint_ratios(p, ds)[0],
        seq_min(mint_ratios(p, ds)) == mint_ratios(p, ds)[0],
{
    let ts = big_val(p.total_supply);
    let ratios = mint_ratios(p, ds);
    assert(ratios.len() == ds.len());
    assert forall|i: int| 0 <= i < ds.len() implies #[trigger] ratios[i] == ratios[0] by {
        let a0 = big_val(ds[0].amount);
        let r0 = p.reserve_of(ds[0].address@);
        let ai = big_val(ds[i].amount);
        let ri = p.reserve_of(ds[i].address@);
        assert(r0 >= 1);
        assert(ri >= 1);
        assert(ai * r0 == a0 * ri);
        assert(ratios[i] == (ai * ts) / ri);
        assert(ratios[0] == (a0 * ts) / r0);
        // Scale both quotients to the common denominator r0 * ri.
        lemma_div_multiples_vanish_quotient(r0 as int, (ai * ts) as int, ri as int);
        lemma_div_multiples_vanish_quotient(ri as int, (a0 * ts) as int, r0 as int);
        assert((ai * ts) / ri == (r0 * (ai * ts)) / (r0 * ri));
        assert((a0 * ts) / r0 == (ri * (a0 * ts)) / (ri * r0));
        assert(r0 * (ai * ts) == ri * (a0 * ts)) by (nonlinear_arith)
            requires
                ai * r0 == a0 * ri,
        {};
        assert(r0 * ri == ri * r0) by (nonlinear_arith) {};
    }
    lemma_seq_min_of_constant(ratios);
}

/// The minimum of a non-empty sequence whose elements all equal its first
/// element is that element.
proof fn lemma_seq_min_of_constant(s: Seq<nat>)
    requires
        s.len() > 0,
        forall|i: int| 0 <= i < s.len() ==> #[trigger] s[i] == s[0],
    ensures
        seq_min(s) == s[0],
    decreases s.len(),
{
    if s.len() > 1 {
        assert(s.drop_last()[0] == s[0]);
        lemma_seq_min_of_constant(s.drop_last());
    }
}

} // verus!
