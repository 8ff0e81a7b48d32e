//! The record kept for one market's liquidity pool.

use vstd::prelude::*;

verus! {

/// One market's pool: the two outcome reserves, the total outstanding
/// liquidity-provider entitlement, and the creation time.
///
/// `yes_reserve * no_reserve` is the constant-product invariant `k`; trading
/// fees stay in the pool, so `k` never decreases across trades.
#[derive(Clone, Copy, Debug, PartialEq, Eq, Structural)]
pub struct Pool {
    /// Collateral-equivalent units backing YES shares.
    pub yes_reserve: u128,
    /// Collateral-equivalent units backing NO shares.
    pub no_reserve: u128,
    /// Total outstanding liquidity-provider entitlement units.
    pub lp_supply: u128,
    /// Ledger timestamp at which the pool was created.
    pub created_at: u64,
}

impl Pool {
    /// The constant-product invariant of the pool.
    pub open spec fn k(self) -> int {
        self.yes_reserve * self.no_reserve
    }

    /// Total collateral-equivalent liquidity held by the pool.
    pub open spec fn total_liquidity(self) -> int {
        self.yes_reserve + self.no_reserve
    }

    /// Whether the pool can price a trade: both reserves are funded.
    pub open spec fn is_funded(self) -> bool {
        self.yes_reserve >= 1 && self.no_reserve >= 1
    }

    /// Structural well-formedness kept by every engine operation: some
    /// entitlement is always outstanding, and a pool is never one-sided
    /// (either both reserves are funded or both are empty).
    pub open spec fn wf(self) -> bool {
        &&& self.lp_supply >= 1
        &&& (self.yes_reserve >= 1 <==> self.no_reserve >= 1)
    }
}

} // verus!
