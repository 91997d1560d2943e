//! Automated-market-maker pricing engine.
//!
//! The engine computes swap outputs, liquidity-provision mint amounts and fee
//! adjustments for a liquidity pool under three pricing curves: constant
//! product, a Curve-style stable swap, and a bounded-price-range concentrated
//! liquidity approximation.  All amounts are unbounded non-negative integers
//! (`num_bigint::BigUint`); every pricing formula is stated and proved over
//! their mathematical values.

pub mod bignat;
pub mod math;
pub mod errors;
pub mod pool;
pub mod constant_product;
pub mod liquidity;
pub mod stable_swap;
pub mod concentrated;

pub use errors::{LiquidityError, SwapError};
pub use concentrated::PriceRange;
pub use liquidity::TokenAmount;
pub use pool::{Pool, PoolType, Token};
