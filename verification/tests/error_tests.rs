use dex_protocol_core::{LiquidityError, Pool, PoolType, PriceRange, SwapError, Token, TokenAmount};
use num_bigint::BigUint;

fn token(addr: &str) -> Token {
    Token {
        address: addr.to_string(),
        symbol: addr.to_string(),
        decimals: 18,
    }
}

fn pool_with(reserves: [u64; 2], fee_rate: u64, pool_type: PoolType) -> Pool {
    Pool::new(
        "A-B".to_string(),
        vec![token("A"), token("B")],
        vec![BigUint::from(reserves[0]), BigUint::from(reserves[1])],
        fee_rate,
        pool_type,
    )
}

fn deposit(addr: &str, amount: u64) -> TokenAmount {
    TokenAmount {
        address: addr.to_string(),
        amount: BigUint::from(amount),
    }
}

#[test]
fn swap_unknown_token_is_rejected() {
    let pool = pool_with([1000, 2000], 300, PoolType::ConstantProduct);
    let r = pool.calculate_swap_output("A", "C", &BigUint::from(10u64));
    assert_eq!(r.unwrap_err(), SwapError::TokenNotFound);
    let r = pool.calculate_swap_output("C", "B", &BigUint::from(10u64));
    assert_eq!(r.unwrap_err(), SwapError::TokenNotFound);
}

#[test]
fn swap_on_zero_reserve_is_rejected() {
    let pool = pool_with([0, 2000], 300, PoolType::ConstantProduct);
    let r = pool.calculate_swap_output("A", "B", &BigUint::from(10u64));
    assert_eq!(r.unwrap_err(), SwapError::InsufficientLiquidity);
}

#[test]
fn unsupported_pool_type_is_rejected() {
    let pool = pool_with([1000, 1000], 300, PoolType::StableSwap);
    let r = pool.calculate_swap_output("A", "B", &BigUint::from(10u64));
    assert_eq!(r.unwrap_err(), SwapError::UnsupportedPoolType);
}

#[test]
fn price_outside_window_is_rejected() {
    // Price is 2000 / 1000 = 2, below the window [3, 4].
    let mut pool = pool_with([1000, 2000], 300, PoolType::ConcentratedLiquidity);
    pool.add_liquidity(vec![deposit("A", 1000), deposit("B", 2000)])
        .unwrap();
    let range = PriceRange {
        min_num: 3,
        min_den: 1,
        max_num: 4,
        max_den: 1,
    };
    let r = pool.calculate_concentrated_liquidity_swap("A", "B", &BigUint::from(10u64), &range);
    assert_eq!(r.unwrap_err(), SwapError::PriceOutOfRange);
}

#[test]
fn concentrated_swap_without_liquidity_is_rejected() {
    // A fresh concentrated-liquidity pool has zero claim-share supply, so no
    // liquidity is active in any window.
    let pool = pool_with([1000, 2000], 300, PoolType::ConcentratedLiquidity);
    let range = PriceRange {
        min_num: 1,
        min_den: 1,
        max_num: 3,
        max_den: 1,
    };
    let r = pool.calculate_concentrated_liquidity_swap("A", "B", &BigUint::from(10u64), &range);
    assert_eq!(r.unwrap_err(), SwapError::InsufficientLiquidity);
}

#[test]
fn deposit_of_unknown_token_is_rejected() {
    let mut pool = pool_with([1000, 2000], 300, PoolType::ConstantProduct);
    let r = pool.add_liquidity(vec![deposit("A", 10), deposit("C", 10)]);
    assert_eq!(r.unwrap_err(), LiquidityError::TokenNotFound);
    // The failed deposit left the pool untouched.
    assert_eq!(pool.reserves[0], BigUint::from(1000u64));
    assert_eq!(pool.reserves[1], BigUint::from(2000u64));
}

#[test]
fn bootstrap_deposit_must_cover_every_token() {
    let mut pool = pool_with([1000, 2000], 300, PoolType::StableSwap);
    assert_eq!(pool.total_supply, BigUint::from(0u64));
    let r = pool.add_liquidity(vec![deposit("A", 10)]);
    assert_eq!(r.unwrap_err(), LiquidityError::TokenNotFound);
    assert_eq!(pool.total_supply, BigUint::from(0u64));
}

#[test]
fn empty_deposit_on_live_pool_is_rejected() {
    let mut pool = pool_with([1000, 2000], 300, PoolType::ConstantProduct);
    let r = pool.add_liquidity(vec![]);
    assert_eq!(r.unwrap_err(), LiquidityError::InsufficientLiquidity);
}

#[test]
fn stable_swap_with_zero_reserve_is_rejected() {
    let range = PriceRange {
        min_num: 1,
        min_den: 1,
        max_num: 2,
        max_den: 1,
    };
    let pool = pool_with([1000, 0], 0, PoolType::StableSwap);
    let r = pool.calculate_multi_asset_swap("A", "B", &BigUint::from(10u64), &range);
    assert_eq!(r.unwrap_err(), SwapError::InsufficientLiquidity);
}

#[test]
fn error_messages_describe_each_variant() {
    assert_eq!(SwapError::TokenNotFound.message(), "Token not found in pool");
    assert_eq!(
        SwapError::InsufficientLiquidity.message(),
        "Insufficient liquidity"
    );
    assert_eq!(
        SwapError::UnsupportedPoolType.message(),
        "Unsupported pool type"
    );
    assert_eq!(SwapError::PriceOutOfRange.message(), "Price out of range");
    assert_eq!(
        LiquidityError::TokenNotFound.message(),
        "Token not found in pool"
    );
    assert_eq!(
        LiquidityError::InsufficientLiquidity.message(),
        "Insufficient liquidity"
    );
}
