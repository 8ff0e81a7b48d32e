//! The error taxonomy of the pool engine.
//!
//! Every failing operation returns one of these values and leaves the engine
//! unchanged; no error is recovered from inside the engine.

use vstd::prelude::*;

verus! {

/// Why a pool operation was rejected.
#[derive(Clone, Copy, Debug, PartialEq, Eq, Structural)]
pub enum AmmError {
    /// The engine configuration was already set by an earlier call.
    AlreadyInitialized,
    /// `create_pool` was called for a market that already has a pool.
    PoolAlreadyExists,
    /// The market has no pool yet.
    PoolNotFound,
    /// A trade or deposit amount was zero.
    InvalidAmount,
    /// `create_pool` was given zero initial liquidity.
    InvalidInitialLiquidity,
    /// A reserve is zero, so the pool cannot price a trade.
    InsufficientLiquidity,
    /// The computed output fell below the caller's stated minimum.
    SlippageExceeded,
    /// The trade would have decreased the reserve product (defensive check).
    InvariantViolation,
    /// A deposit would push total liquidity past the configured cap.
    CapExceeded,
    /// A withdrawal asked for more entitlement units than the provider holds.
    InsufficientLpBalance,
    /// A withdrawal would drain the pool below the minimum liquidity floor.
    MinimumLiquidityFloor,
}

} // verus!
