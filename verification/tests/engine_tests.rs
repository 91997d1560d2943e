use dex_protocol_core::{Pool, PoolType, Token, TokenAmount};
use num_bigint::BigUint;
use num_traits::{ToPrimitive, Zero};

fn eth_token() -> Token {
    Token {
        address: "ETH".to_string(),
        symbol: "ETH".to_string(),
        decimals: 18,
    }
}

fn usdc_token() -> Token {
    Token {
        address: "USDC".to_string(),
        symbol: "USDC".to_string(),
        decimals: 6,
    }
}

fn create_sample_pool() -> Pool {
    Pool::new(
        "ETH-USDC".to_string(),
        vec![eth_token(), usdc_token()],
        vec![BigUint::from(1000u64), BigUint::from(2000u64)],
        300,
        PoolType::ConstantProduct,
    )
}

#[test]
fn test_constant_product_swap() {
    let pool = create_sample_pool();

    let input_amount = BigUint::from(100u64);
    let output = pool.calculate_swap_output("ETH", "USDC", &input_amount);

    assert!(output.is_ok());
    let output_amount = output.unwrap();
    assert!(output_amount > BigUint::zero());
    assert!(output_amount < BigUint::from(2000u64)); // Should be less than total reserve
}

#[test]
fn test_add_liquidity() {
    let mut pool = create_sample_pool();

    let liquidity_amounts = vec![
        TokenAmount {
            address: "ETH".to_string(),
            amount: BigUint::from(100u64),
        },
        TokenAmount {
            address: "USDC".to_string(),
            amount: BigUint::from(200u64),
        },
    ];

    let initial_supply = pool.total_supply.clone();
    let lp_tokens = pool.add_liquidity(liquidity_amounts).unwrap();

    assert!(lp_tokens > BigUint::zero());
    assert!(pool.total_supply > initial_supply);
}

#[test]
fn test_dynamic_fee_calculation() {
    let mut pool = create_sample_pool();

    let high_volume = BigUint::from(10000000u64);
    // A volatility of 0.5, as the exact rational 1/2.
    pool.update_dynamic_fee(&high_volume, 1, 2);

    assert!(pool.fee_rate > 300); // Should be higher than base fee
    assert!(pool.fee_rate <= 1000); // Should be capped at 10%
}

#[test]
fn test_price_calculation() {
    let pool = create_sample_pool();
    let (num, den) = pool.get_current_price("ETH", "USDC").unwrap();
    let price = num.to_f64().unwrap() / den.to_f64().unwrap();

    assert!(price > 0.0);
    assert_eq!(price, 2.0); // 2000 USDC / 1000 ETH = 2.0
}

#[test]
fn test_full_swap_flow() {
    let pool = create_sample_pool();

    let input_amount = BigUint::from(100u64);
    let output = pool
        .calculate_swap_output("ETH", "USDC", &input_amount)
        .unwrap();

    assert!(output > BigUint::zero());

    // Output should be less than input * 2 given the 1:2 reserve ratio.
    assert!(output < input_amount * 2u64);
}
