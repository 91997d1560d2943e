use dex_protocol_core::math::integer_sqrt;
use dex_protocol_core::{Pool, PoolType, PriceRange, SwapError, Token, TokenAmount};
use num_bigint::BigUint;

fn token(addr: &str, decimals: u8) -> Token {
    Token {
        address: addr.to_string(),
        symbol: addr.to_string(),
        decimals,
    }
}

fn eth_usdc_pool(fee_rate: u64, pool_type: PoolType) -> Pool {
    Pool::new(
        "ETH-USDC".to_string(),
        vec![token("ETH", 18), token("USDC", 6)],
        vec![BigUint::from(1000u64), BigUint::from(2000u64)],
        fee_rate,
        pool_type,
    )
}

fn deposit(addr: &str, amount: u64) -> TokenAmount {
    TokenAmount {
        address: addr.to_string(),
        amount: BigUint::from(amount),
    }
}

#[test]
fn integer_sqrt_of_zero_is_zero() {
    assert_eq!(integer_sqrt(&BigUint::from(0u64)), BigUint::from(0u64));
}

#[test]
fn integer_sqrt_of_perfect_squares() {
    for k in [1u64, 2, 3, 10, 1414, 12345, 4294967295] {
        let square = BigUint::from(k) * BigUint::from(k);
        assert_eq!(integer_sqrt(&square), BigUint::from(k));
    }
}

#[test]
fn integer_sqrt_brackets_its_argument() {
    for n in [1u64, 2, 3, 8, 15, 16, 17, 99, 100, 2_000_000, u64::MAX] {
        let big_n = BigUint::from(n);
        let r = integer_sqrt(&big_n);
        assert!(&r * &r <= big_n);
        let r1 = &r + BigUint::from(1u64);
        assert!(&r1 * &r1 > big_n);
    }
}

#[test]
fn constant_product_pool_opens_with_sqrt_supply() {
    // sqrt(1000 * 2000) = sqrt(2_000_000) = 1414.
    let pool = eth_usdc_pool(300, PoolType::ConstantProduct);
    assert_eq!(pool.total_supply, BigUint::from(1414u64));
}

#[test]
fn swap_scenario_exact_output() {
    // net = 100 * 9700 / 10000 = 97; out = 97 * 2000 / (1000 + 97) = 176.
    let pool = eth_usdc_pool(300, PoolType::ConstantProduct);
    let out = pool
        .calculate_swap_output("ETH", "USDC", &BigUint::from(100u64))
        .unwrap();
    assert_eq!(out, BigUint::from(176u64));
    assert!(out > BigUint::from(0u64));
    assert!(out < BigUint::from(2000u64));
}

#[test]
fn swap_conservation_of_product() {
    // Applying the deltas strictly increases the reserve product at a
    // positive fee, and never decreases it at fee zero.
    let pool = eth_usdc_pool(300, PoolType::ConstantProduct);
    let amount = BigUint::from(100u64);
    let out = pool.calculate_swap_output("ETH", "USDC", &amount).unwrap();
    let before = BigUint::from(1000u64) * BigUint::from(2000u64);
    let after = (BigUint::from(1000u64) + &amount) * (BigUint::from(2000u64) - &out);
    assert!(after > before);

    let free_pool = eth_usdc_pool(0, PoolType::ConstantProduct);
    let out0 = free_pool
        .calculate_swap_output("ETH", "USDC", &amount)
        .unwrap();
    let after0 = (BigUint::from(1000u64) + &amount) * (BigUint::from(2000u64) - &out0);
    assert!(after0 >= before);
}

#[test]
fn bootstrap_deposit_mints_sqrt_of_amount_product() {
    // A stable-swap pool opens at zero supply; the first deposit mints
    // sqrt(300 * 1200) = sqrt(360_000) = 600.
    let mut pool = eth_usdc_pool(300, PoolType::StableSwap);
    assert_eq!(pool.total_supply, BigUint::from(0u64));
    let minted = pool
        .add_liquidity(vec![deposit("ETH", 300), deposit("USDC", 1200)])
        .unwrap();
    assert_eq!(minted, BigUint::from(600u64));
    assert_eq!(pool.total_supply, BigUint::from(600u64));
    assert_eq!(pool.reserves[0], BigUint::from(1300u64));
    assert_eq!(pool.reserves[1], BigUint::from(3200u64));
}

#[test]
fn proportional_deposit_scenario() {
    // supply = 1414; deposit {ETH: 100, USDC: 200} is exactly 1:2
    // proportional, so lp = 100 * 1414 / 1000 = 141 for both tokens.
    let mut pool = eth_usdc_pool(300, PoolType::ConstantProduct);
    let before = pool.total_supply.clone();
    let lp = pool
        .add_liquidity(vec![deposit("ETH", 100), deposit("USDC", 200)])
        .unwrap();
    assert_eq!(lp, BigUint::from(141u64));
    assert_eq!(pool.total_supply, &before + &lp);
    assert_eq!(pool.reserves[0], BigUint::from(1100u64));
    assert_eq!(pool.reserves[1], BigUint::from(2200u64));
}

#[test]
fn imbalanced_deposit_mints_minimum_ratio() {
    // Ratios: 100 * 1414 / 1000 = 141 for ETH, 100 * 1414 / 2000 = 70 for
    // USDC; the minimum protects existing holders.
    let mut pool = eth_usdc_pool(300, PoolType::ConstantProduct);
    let lp = pool
        .add_liquidity(vec![deposit("ETH", 100), deposit("USDC", 100)])
        .unwrap();
    assert_eq!(lp, BigUint::from(70u64));
}

#[test]
fn dynamic_fee_exact_values() {
    let mut pool = eth_usdc_pool(300, PoolType::ConstantProduct);

    // High volume and volatility 0.5: 300 + 50 + round(50) = 400.
    pool.update_dynamic_fee(&BigUint::from(10_000_000u64), 1, 2);
    assert_eq!(pool.fee_rate, 400);

    // Low volume, tiny volatility 1/1000: round(0.1) = 0 leaves the base.
    pool.update_dynamic_fee(&BigUint::from(1000u64), 1, 1000);
    assert_eq!(pool.fee_rate, 300);

    // Volatility 10 would add 1000; the cap holds the fee at 1000.
    pool.update_dynamic_fee(&BigUint::from(1000u64), 10, 1);
    assert_eq!(pool.fee_rate, 1000);
}

#[test]
fn stable_swap_balanced_low_slippage() {
    // Balanced reserves and a zero fee: a swap between the two correlated
    // assets returns the input almost exactly; here the Newton iterations
    // land on 100 out for 100 in.
    let pool = Pool::new(
        "USDC-USDT".to_string(),
        vec![token("USDC", 6), token("USDT", 6)],
        vec![BigUint::from(1000u64), BigUint::from(1000u64)],
        0,
        PoolType::StableSwap,
    );
    let range = PriceRange {
        min_num: 1,
        min_den: 2,
        max_num: 2,
        max_den: 1,
    };
    let out = pool
        .calculate_multi_asset_swap("USDC", "USDT", &BigUint::from(100u64), &range)
        .unwrap();
    assert_eq!(out, BigUint::from(100u64));
}

#[test]
fn multi_asset_swap_dispatches_by_curve() {
    // The constant-product path ignores the price window and prices exactly
    // as the dedicated entry point does.
    let pool = eth_usdc_pool(300, PoolType::ConstantProduct);
    let range = PriceRange {
        min_num: 1,
        min_den: 1,
        max_num: 3,
        max_den: 1,
    };
    let out = pool
        .calculate_multi_asset_swap("ETH", "USDC", &BigUint::from(100u64), &range)
        .unwrap();
    assert_eq!(out, BigUint::from(176u64));
}

#[test]
fn current_price_requires_positive_reserves() {
    let pool = Pool::new(
        "ETH-USDC".to_string(),
        vec![token("ETH", 18), token("USDC", 6)],
        vec![BigUint::from(0u64), BigUint::from(2000u64)],
        300,
        PoolType::ConstantProduct,
    );
    let r = pool.get_current_price("ETH", "USDC");
    assert_eq!(r.unwrap_err(), SwapError::InsufficientLiquidity);
    let r = pool.get_current_price("ETH", "DAI");
    assert_eq!(r.unwrap_err(), SwapError::TokenNotFound);
}

#[test]
fn concentrated_liquidity_swap_within_range() {
    // A concentrated-liquidity pool bootstrapped to supply 1414 and price 2,
    // window [1, 3]: liquidity = 1414 / 2 = 707, impact = 100 / 707 = 0,
    // price floor 2, gross 200, fee 3% -> 194.
    let mut pool = eth_usdc_pool(300, PoolType::ConcentratedLiquidity);
    pool.add_liquidity(vec![deposit("ETH", 1000), deposit("USDC", 2000)])
        .unwrap();
    assert_eq!(pool.total_supply, BigUint::from(1414u64));
    let range = PriceRange {
        min_num: 1,
        min_den: 1,
        max_num: 3,
        max_den: 1,
    };
    assert!(range.is_valid());
    let out = pool
        .calculate_concentrated_liquidity_swap("ETH", "USDC", &BigUint::from(100u64), &range)
        .unwrap();
    assert_eq!(out, BigUint::from(194u64));
}
