//! Typed failures of the pricing engine.
//!
//! Every engine function rejects an invalid request with one of these values
//! and leaves the pool untouched; none of them is a transient fault.

use vstd::prelude::*;

verus! {

/// Failure of a swap computation.
#[derive(Debug, Clone, Copy, PartialEq, Eq, Structural)]
pub enum SwapError {
    /// An address is not tracked by the pool.
    TokenNotFound,
    /// A zero, would-drain or otherwise degenerate reserve state.
    InsufficientLiquidity,
    /// The pool's curve variant has no algorithm for the request.
    UnsupportedPoolType,
    /// The pool's current price lies outside the requested window.
    PriceOutOfRange,
}

/// Failure of a liquidity deposit.
#[derive(Debug, Clone, Copy, PartialEq, Eq, Structural)]
pub enum LiquidityError {
    /// An address is not tracked by the pool, or a tracked token was omitted
    /// from a bootstrap deposit.
    TokenNotFound,
    /// A zero reserve was met while computing a proportional mint, or no
    /// tokens were supplied.
    InsufficientLiquidity,
}

impl SwapError {
    /// A human-readable description of the failure.
    pub fn message(&self) -> (r: String)
        ensures
            r@ == self.spec_message(),
    {
        match self {
            SwapError::TokenNotFound => "Token not found in pool".to_owned(),
            SwapError::InsufficientLiquidity => "Insufficient liquidity".to_owned(),
            SwapError::UnsupportedPoolType => "Unsupported pool type".to_owned(),
            SwapError::PriceOutOfRange => "Price out of range".to_owned(),
        }
    }

    /// The description text of each failure.
    pub open spec fn spec_message(self) -> Seq<char> {
        match self {
            SwapError::TokenNotFound => "Token not found in pool"@,
            SwapError::InsufficientLiquidity => "Insufficient liquidity"@,
            SwapError::UnsupportedPoolType => "Unsupported pool type"@,
            SwapError::PriceOutOfRange => "Price out of range"@,
        }
    }
}

impl LiquidityError {
    /// A human-readable description of the failure.
    pub fn message(&self) -> (r: String)
        ensures
            r@ == self.spec_message(),
    {
        match self {
            LiquidityError::TokenNotFound => "Token not found in pool".to_owned(),
            LiquidityError::InsufficientLiquidity => "Insufficient liquidity".to_owned(),
        }
    }

    /// The description text of each failure.
    pub open spec fn spec_message(self) -> Seq<char> {
        match self {
            LiquidityError::TokenNotFound => "Token not found in pool"@,
            LiquidityError::InsufficientLiquidity => "Insufficient liquidity"@,
        }
    }
}

} // verus!
