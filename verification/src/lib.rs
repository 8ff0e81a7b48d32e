//! A constant-product market maker (CPMM) for binary-outcome share pools.
//!
//! Each market holds two complementary reserves (YES and NO). Trades are
//! priced by the constant-product rule with a basis-point fee that stays in
//! the pool, so the product of the reserves never decreases. Liquidity
//! providers hold proportional entitlement units that are minted and burned
//! against the pool's reserves.
//!
//! The central guarantees, as stated and proved here:
//! - the reserve product never decreases across a trade: the ensures of
//!   [`amm::AMM::buy_shares`] and [`amm::AMM::sell_shares`], resting on
//!   [`pricing::lemma_cpmm_k_non_decreasing`];
//! - the odds pair always sums to exactly 10000 basis points:
//!   [`odds::lemma_odds_sum`] and the ensures of [`amm::AMM::get_odds`];
//! - a buy followed by an immediate sale of the proceeds loses money once
//!   the buy fee is a whole unit, and loses at most the two fees plus a
//!   rounding term: [`pricing::lemma_round_trip_loss`] and
//!   [`amm::lemma_buy_sell_round_trip`];
//! - a withdrawal may approach but never cross the minimum liquidity
//!   floor, and a pool that has traded keeps both reserves funded: the
//!   ensures of [`amm::AMM::remove_liquidity`];
//! - zero-amount trades and withdrawals are rejected before any
//!   arithmetic: the ensures of the trading and liquidity calls.

pub mod amm;
pub mod errors;
pub mod events;
pub mod ids;
pub mod kv;
pub mod outcome;
pub mod odds;
pub mod pool;
pub mod pricing;
pub mod store;

pub use amm::{AmmConfig, AMM};
pub use errors::AmmError;
pub use events::{AmmEvent, AmmEventView};
pub use ids::{Address, MarketId};
pub use outcome::Outcome;
pub use pool::Pool;
