//! The events the engine emits, one per successful state-changing call.
//!
//! The engine appends each event to its log; the caller that embeds the
//! engine drains the log and publishes the records on whatever transport
//! it uses.

use crate::ids::{Address, MarketId};
use crate::outcome::Outcome;
use vstd::prelude::*;

verus! {

/// A record of one successful state-changing call.
#[derive(Debug)]
pub enum AmmEvent {
    /// The engine configuration was set.
    AmmInitialized { admin: Address, factory: Address, max_liquidity_cap: u128 },
    /// A pool was created for a market.
    PoolCreated { market_id: MarketId, initial_liquidity: u128, yes_reserve: u128, no_reserve: u128 },
    /// Outcome shares were bought from a pool.
    SharesBought {
        buyer: Address,
        market_id: MarketId,
        outcome: Outcome,
        amount_in: u128,
        shares_out: u128,
        fee_amount: u128,
    },
    /// Outcome shares were sold back to a pool.
    SharesSold {
        seller: Address,
        market_id: MarketId,
        outcome: Outcome,
        shares_in: u128,
        payout_net: u128,
        fee_amount: u128,
    },
    /// Collateral was deposited for entitlement units.
    LiquidityAdded { provider: Address, market_id: MarketId, amount: u128, lp_minted: u128 },
    /// Entitlement units were redeemed for reserves.
    LiquidityRemoved {
        provider: Address,
        market_id: MarketId,
        lp_tokens: u128,
        yes_out: u128,
        no_out: u128,
    },
}

/// The mathematical reading of an event: identifiers become byte strings.
pub enum AmmEventView {
    AmmInitialized { admin: Seq<u8>, factory: Seq<u8>, max_liquidity_cap: u128 },
    PoolCreated { market_id: Seq<u8>, initial_liquidity: u128, yes_reserve: u128, no_reserve: u128 },
    SharesBought {
        buyer: Seq<u8>,
        market_id: Seq<u8>,
        outcome: Outcome,
        amount_in: u128,
        shares_out: u128,
        fee_amount: u128,
    },
    SharesSold {
        seller: Seq<u8>,
        market_id: Seq<u8>,
        outcome: Outcome,
        shares_in: u128,
        payout_net: u128,
        fee_amount: u128,
    },
    LiquidityAdded { provider: Seq<u8>, market_id: Seq<u8>, amount: u128, lp_minted: u128 },
    LiquidityRemoved {
        provider: Seq<u8>,
        market_id: Seq<u8>,
        lp_tokens: u128,
        yes_out: u128,
        no_out: u128,
    },
}

impl View for AmmEvent {
    type V = AmmEventView;

    open spec fn view(&self) -> AmmEventView {
        match self {
            AmmEvent::AmmInitialized { admin, factory, max_liquidity_cap } => (
                AmmEventView::AmmInitialized {
                    admin: admin@,
                    factory: factory@,
                    max_liquidity_cap: *max_liquidity_cap,
                }
            ),
            AmmEvent::PoolCreated { market_id, initial_liquidity, yes_reserve, no_reserve } => (
                AmmEventView::PoolCreated {
                    market_id: market_id@,
                    initial_liquidity: *initial_liquidity,
                    yes_reserve: *yes_reserve,
                    no_reserve: *no_reserve,
                }
            ),
            AmmEvent::SharesBought {
                buyer,
                market_id,
                outcome,
                amount_in,
                shares_out,
                fee_amount,
            } => (
                AmmEventView::SharesBought {
                    buyer: buyer@,
                    market_id: market_id@,
                    outcome: *outcome,
                    amount_in: *amount_in,
                    shares_out: *shares_out,
                    fee_amount: *fee_amount,
                }
            ),
            AmmEvent::SharesSold {
                seller,
                market_id,
                outcome,
                shares_in,
                payout_net,
                fee_amount,
            } => (
                AmmEventView::SharesSold {
                    seller: seller@,
                    market_id: market_id@,
                    outcome: *outcome,
                    shares_in: *shares_in,
                    payout_net: *payout_net,
                    fee_amount: *fee_amount,
                }
            ),
            AmmEvent::LiquidityAdded { provider, market_id, amount, lp_minted } => (
                AmmEventView::LiquidityAdded {
                    provider: provider@,
                    market_id: market_id@,
                    amount: *amount,
                    lp_minted: *lp_minted,
                }
            ),
            AmmEvent::LiquidityRemoved { provider, market_id, lp_tokens, yes_out, no_out } => (
                AmmEventView::LiquidityRemoved {
                    provider: provider@,
                    market_id: market_id@,
                    lp_tokens: *lp_tokens,
                    yes_out: *yes_out,
                    no_out: *no_out,
                }
            ),
        }
    }
}

/// The mathematical reading of an event log.
pub open spec fn events_view(s: Seq<AmmEvent>) -> Seq<AmmEventView> {
    s.map(|i: int, e: AmmEvent| e@)
}

} // verus!
