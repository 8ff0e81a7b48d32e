//! The pool engine: pool creation, trading, odds, and liquidity management.
//!
//! `AMM` owns every piece of state the engine touches — the one-time
//! configuration, the pools keyed by market id, the liquidity-provider
//! balances, and the event log. Each public operation validates fully,
//! then commits in one step; a rejected call returns an error and leaves
//! the engine exactly as it was. The embedding program is responsible for
//! authenticating callers and moving collateral; the engine accounts for
//! reserves and entitlement.

use crate::errors::AmmError;
use crate::events::{events_view, AmmEvent, AmmEventView};
use crate::ids::{Address, MarketId};
use crate::odds::{compute_odds, odds_fits, spec_odds};
use crate::outcome::Outcome;
use crate::pool::Pool;
use crate::pricing::{
    cpmm_out, fee_of, lemma_cpmm_k_non_decreasing, lemma_cpmm_out_bounds, quote_buy,
    quote_buy_fits, quote_sell, quote_sell_fits,
};
use crate::store::{LpPosition, PoolStore};
use vstd::arithmetic::div_mod::{
    lemma_div_is_ordered, lemma_div_multiples_vanish, lemma_div_pos_is_pos,
    lemma_fundamental_div_mod, lemma_mod_division_less_than_divisor,
};
use vstd::arithmetic::mul::{
    lemma_mul_inequality, lemma_mul_is_commutative, lemma_mul_nonnegative,
};
use vstd::prelude::*;

verus! {

/// The trading fee, in basis points, charged on every buy and sell.
pub const TRADING_FEE_BPS: u32 = 20;

/// The fraction of a pool's liquidity, in basis points, that a withdrawal
/// must leave behind.
pub const MIN_LIQUIDITY_FLOOR_BPS: u128 = 100;

/// The one-time configuration set by `initialize`.
pub struct AmmConfig {
    pub admin: Address,
    pub factory: Address,
    pub collateral_token: Address,
    pub max_liquidity_cap: u128,
}

/// The pool engine and all of its state.
pub struct AMM {
    config: Option<AmmConfig>,
    pools: PoolStore,
    events: Vec<AmmEvent>,
}

/// The reserves a buy reads, oriented by the outcome being bought:
/// `(reserve_in, reserve_out)`. The payment is absorbed by the opposite
/// side's reserve while the bought outcome's reserve is drawn down.
pub open spec fn buy_reserves(pool: Pool, outcome: Outcome) -> (int, int) {
    match outcome {
        Outcome::Yes => (pool.no_reserve as int, pool.yes_reserve as int),
        Outcome::No => (pool.yes_reserve as int, pool.no_reserve as int),
    }
}

/// The reserves a sell reads, oriented by the outcome being sold:
/// `(reserve_in, reserve_out)`. The sold shares return to their own
/// outcome's reserve while the payout is drawn from the opposite side.
pub open spec fn sell_reserves(pool: Pool, outcome: Outcome) -> (int, int) {
    match outcome {
        Outcome::Yes => (pool.yes_reserve as int, pool.no_reserve as int),
        Outcome::No => (pool.no_reserve as int, pool.yes_reserve as int),
    }
}

/// The arithmetic a buy performs stays within 128-bit bounds. The
/// defensive invariant re-check multiplies the reserves only once the
/// slippage check has passed, so its products need fit only then.
pub open spec fn buy_fits(pool: Pool, outcome: Outcome, amount_in: int, min_shares_out: int) -> bool {
    let reserve_in: int = buy_reserves(pool, outcome).0;
    let reserve_out: int = buy_reserves(pool, outcome).1;
    let after: int = amount_in - fee_of(amount_in, TRADING_FEE_BPS as int);
    let shares: int = cpmm_out(reserve_in, reserve_out, after);
    &&& quote_buy_fits(reserve_in, reserve_out, amount_in, TRADING_FEE_BPS as int)
    &&& shares >= min_shares_out ==> {
        &&& pool.k() <= u128::MAX
        &&& (reserve_in + after) * (reserve_out - shares) <= u128::MAX
    }
}

/// The arithmetic a sell performs stays within 128-bit bounds.
pub open spec fn sell_fits(pool: Pool, outcome: Outcome, shares_in: int) -> bool {
    quote_sell_fits(
        sell_reserves(pool, outcome).0,
        sell_reserves(pool, outcome).1,
        shares_in,
        TRADING_FEE_BPS as int,
    )
}

/// The arithmetic a deposit performs stays within 128-bit bounds. The
/// pro-rata products are computed only once the cap check has passed, so
/// they need fit only then.
pub open spec fn add_fits(pool: Pool, amount: int, cap: int) -> bool {
    &&& pool.total_liquidity() <= u128::MAX
    &&& pool.total_liquidity() + amount <= cap ==> {
        &&& amount * pool.lp_supply <= u128::MAX
        &&& amount * pool.yes_reserve <= u128::MAX
        &&& pool.lp_supply + lp_minted_for(pool, amount) <= u128::MAX
    }
}

/// The entitlement minted for a deposit of `amount`: proportional to the
/// existing supply, preserving the value of every outstanding unit.
pub open spec fn lp_minted_for(pool: Pool, amount: int) -> int {
    amount * (pool.lp_supply as int) / pool.total_liquidity()
}

/// How much of the YES reserve a deposit of `amount` absorbs; the rest of
/// the deposit goes to the NO reserve, keeping the reserve ratio.
pub open spec fn yes_share_of(pool: Pool, amount: int) -> int {
    amount * (pool.yes_reserve as int) / pool.total_liquidity()
}

/// The arithmetic a withdrawal performs stays within 128-bit bounds.
pub open spec fn remove_fits(pool: Pool, lp_tokens: int) -> bool {
    &&& lp_tokens * pool.yes_reserve <= u128::MAX
    &&& lp_tokens * pool.no_reserve <= u128::MAX
    &&& pool.total_liquidity() <= u128::MAX
    &&& pool.total_liquidity() * MIN_LIQUIDITY_FLOOR_BPS <= u128::MAX
}

/// The YES reserve paid out for burning `lp_tokens`.
pub open spec fn yes_out_for(pool: Pool, lp_tokens: int) -> int {
    lp_tokens * (pool.yes_reserve as int) / (pool.lp_supply as int)
}

/// The NO reserve paid out for burning `lp_tokens`.
pub open spec fn no_out_for(pool: Pool, lp_tokens: int) -> int {
    lp_tokens * (pool.no_reserve as int) / (pool.lp_supply as int)
}

/// The liquidity left in the pool after burning `lp_tokens`.
pub open spec fn remaining_after(pool: Pool, lp_tokens: int) -> int {
    (pool.yes_reserve - yes_out_for(pool, lp_tokens)) + (pool.no_reserve - no_out_for(
        pool,
        lp_tokens,
    ))
}

/// The least liquidity a withdrawal must leave behind.
pub open spec fn floor_amount(pool: Pool) -> int {
    pool.total_liquidity() * MIN_LIQUIDITY_FLOOR_BPS / 10000
}

/// A withdrawal of `lp_tokens` respects the liquidity floor.
pub open spec fn floor_allows(pool: Pool, lp_tokens: int) -> bool {
    &&& remaining_after(pool, lp_tokens) >= floor_amount(pool)
    &&& remaining_after(pool, lp_tokens) >= 1
}

/// Pro-rata shares: burning or depositing `part` out of `whole` moves at
/// most the full reserve `r`, exactly `r` when `part == whole`, and
/// strictly less when `part < whole` and the reserve is funded.
proof fn lemma_prorata(part: int, r: int, whole: int)
    requires
        0 <= part <= whole,
        1 <= whole,
        0 <= r,
    ensures
        0 <= part * r / whole <= r,
        part == whole ==> part * r / whole == r,
        part < whole && r >= 1 ==> part * r / whole < r,
{
    lemma_mul_nonnegative(part, r);
    lemma_div_pos_is_pos(part * r, whole);
    lemma_mul_inequality(part, whole, r);
    lemma_div_is_ordered(part * r, whole * r, whole);
    lemma_mul_is_commutative(whole, r);
    lemma_div_multiples_vanish(r, whole);
    if part < whole && r >= 1 {
        lemma_fundamental_div_mod(part * r, whole);
        lemma_mod_division_less_than_divisor(part * r, whole);
        let q: int = part * r / whole;
        let m: int = (part * r) % whole;
        assert(q < r) by (nonlinear_arith)
            requires
                part * r == whole * q + m,
                0 <= m < whole,
                0 <= part < whole,
                r >= 1,
                0 <= q,
        ;
    }
}

/// Round-trip loss, stated against the trading contracts: `post` is any
/// pool that a successful `buy_shares` of `amount_in` leaves behind (its
/// ensures pin the reserves to exactly this shape), and selling the bought
/// shares straight back into `post` — priced as `sell_shares` prices them
/// — nets no more than the fee-reduced input: strictly less than
/// `amount_in` once the buy fee is at least one unit, and short of it by
/// at most the two fees plus a rounding term of about one share's price.
pub proof fn lemma_buy_sell_round_trip(pool: Pool, post: Pool, outcome: Outcome, amount_in: int)
    requires
        pool.is_funded(),
        amount_in >= 0,
        ({
            let reserve_in: int = buy_reserves(pool, outcome).0;
            let reserve_out: int = buy_reserves(pool, outcome).1;
            let after: int = amount_in - fee_of(amount_in, TRADING_FEE_BPS as int);
            let shares: int = cpmm_out(reserve_in, reserve_out, after);
            &&& buy_reserves(post, outcome).0 == reserve_in + after
            &&& buy_reserves(post, outcome).1 == reserve_out - shares
        }),
    ensures
        ({
            let reserve_in: int = buy_reserves(pool, outcome).0;
            let reserve_out: int = buy_reserves(pool, outcome).1;
            let fee1: int = fee_of(amount_in, TRADING_FEE_BPS as int);
            let after: int = amount_in - fee1;
            let shares: int = cpmm_out(reserve_in, reserve_out, after);
            let gross: int = cpmm_out(
                sell_reserves(post, outcome).0,
                sell_reserves(post, outcome).1,
                shares,
            );
            let fee2: int = fee_of(gross, TRADING_FEE_BPS as int);
            let net: int = gross - fee2;
            &&& net <= amount_in - fee1
            &&& fee1 >= 1 ==> net < amount_in
            &&& amount_in - net <= fee1 + fee2 + (reserve_in + after) / reserve_out + 1
        }),
{
    let reserve_in: int = buy_reserves(pool, outcome).0;
    let reserve_out: int = buy_reserves(pool, outcome).1;
    let after: int = amount_in - fee_of(amount_in, TRADING_FEE_BPS as int);
    let shares: int = cpmm_out(reserve_in, reserve_out, after);
    // Selling the bought outcome reads the post-trade reserves in exactly
    // the reversed orientation of the buy.
    assert(sell_reserves(post, outcome).0 == reserve_out - shares);
    assert(sell_reserves(post, outcome).1 == reserve_in + after);
    crate::pricing::lemma_round_trip_loss(
        reserve_in,
        reserve_out,
        amount_in,
        TRADING_FEE_BPS as int,
    );
}

/// The two engines hold the same configuration.
pub open spec fn same_config(pre: AMM, post: AMM) -> bool {
    &&& post.is_initialized() == pre.is_initialized()
    &&& pre.is_initialized() ==> {
        &&& post.admin() == pre.admin()
        &&& post.factory() == pre.factory()
        &&& post.collateral_token() == pre.collateral_token()
    }
    &&& post.max_liquidity_cap() == pre.max_liquidity_cap()
}

/// Every pool other than `market` is exactly as it was.
pub open spec fn pools_frame(pre: AMM, post: AMM, market: Seq<u8>) -> bool {
    &&& forall|m: Seq<u8>|
        m != market ==> #[trigger] post.has_pool(m) == pre.has_pool(m)
    &&& forall|m: Seq<u8>|
        m != market && pre.has_pool(m) ==> #[trigger] post.pool_at(m) == pre.pool_at(m)
}

/// Every pool is exactly as it was.
pub open spec fn pools_unchanged(pre: AMM, post: AMM) -> bool {
    &&& forall|m: Seq<u8>| #[trigger] post.has_pool(m) == pre.has_pool(m)
    &&& forall|m: Seq<u8>|
        pre.has_pool(m) ==> #[trigger] post.pool_at(m) == pre.pool_at(m)
}

/// Every entitlement balance other than `(market, provider)` is exactly as
/// it was.
pub open spec fn balances_frame(pre: AMM, post: AMM, market: Seq<u8>, provider: Seq<u8>) -> bool {
    forall|m: Seq<u8>, p: Seq<u8>|
        !(m == market && p == provider) ==> #[trigger] post.lp_balance(m, p) == pre.lp_balance(
            m,
            p,
        )
}

/// Every entitlement balance is exactly as it was.
pub open spec fn balances_unchanged(pre: AMM, post: AMM) -> bool {
    forall|m: Seq<u8>, p: Seq<u8>| #[trigger] post.lp_balance(m, p) == pre.lp_balance(m, p)
}

impl AMM {
    /// Whether `initialize` has run.
    pub closed spec fn is_initialized(self) -> bool {
        self.config is Some
    }

    /// The configured admin address (meaningful once initialized).
    pub closed spec fn admin(self) -> Seq<u8> {
        self.config->Some_0.admin@
    }

    /// The configured factory address (meaningful once initialized).
    pub closed spec fn factory(self) -> Seq<u8> {
        self.config->Some_0.factory@
    }

    /// The configured collateral token address (meaningful once
    /// initialized).
    pub closed spec fn collateral_token(self) -> Seq<u8> {
        self.config->Some_0.collateral_token@
    }

    /// The cap on a pool's total liquidity. Before initialization no cap
    /// is configured and nothing is restricted.
    pub closed spec fn max_liquidity_cap(self) -> u128 {
        match self.config {
            Some(c) => c.max_liquidity_cap,
            None => u128::MAX,
        }
    }

    /// Whether a pool exists for this market id.
    pub closed spec fn has_pool(self, market: Seq<u8>) -> bool {
        self.pools.has_pool(market)
    }

    /// The pool of this market id (meaningful when `has_pool`).
    pub closed spec fn pool_at(self, market: Seq<u8>) -> Pool {
        self.pools.pool_at(market)
    }

    /// The entitlement balance of `provider` in the pool of `market`;
    /// zero when either is unknown.
    pub closed spec fn lp_balance(self, market: Seq<u8>, provider: Seq<u8>) -> u128 {
        self.pools.balance_at(market, provider)
    }

    /// The events emitted so far, oldest first.
    pub closed spec fn events(self) -> Seq<AmmEventView> {
        events_view(self.events@)
    }

    /// The engine invariant: every stored pool is well-formed and its
    /// outstanding entitlement equals the sum of its provider balances.
    pub closed spec fn wf(self) -> bool {
        self.pools.wf()
    }

    /// A stored pool is well-formed.
    pub proof fn lemma_pool_wf(self, market: Seq<u8>)
        requires
            self.wf(),
            self.has_pool(market),
        ensures
            self.pool_at(market).wf(),
    {
        self.pools.lemma_pool_wf(market);
    }

    /// No provider's balance exceeds the pool's outstanding entitlement.
    pub proof fn lemma_balance_le_supply(self, market: Seq<u8>, provider: Seq<u8>)
        requires
            self.wf(),
            self.has_pool(market),
        ensures
            self.lp_balance(market, provider) <= self.pool_at(market).lp_supply,
    {
        self.pools.lemma_balance_le_supply(market, provider);
    }

    /// A fresh engine: unconfigured, with no pools, no balances, and no
    /// events.
    pub fn new() -> (s: AMM)
        ensures
            s.wf(),
            !s.is_initialized(),
            forall|m: Seq<u8>| !(#[trigger] s.has_pool(m)),
            forall|m: Seq<u8>, p: Seq<u8>| #[trigger] s.lp_balance(m, p) == 0,
            s.events() == Seq::<AmmEventView>::empty(),
    {
        let s = AMM { config: None, pools: PoolStore::new(), events: Vec::new() };
        proof {
            assert(s.events() =~= Seq::<AmmEventView>::empty());
        }
        s
    }

    /// One-time configuration of the engine.
    pub fn initialize(
        &mut self,
        admin: Address,
        factory: Address,
        collateral_token: Address,
        max_liquidity_cap: u128,
    ) -> (r: Result<(), AmmError>)
        requires
            old(self).wf(),
        ensures
            final(self).wf(),
            old(self).is_initialized() ==> r == Err::<(), AmmError>(AmmError::AlreadyInitialized)
                && *final(self) == *old(self),
            !old(self).is_initialized() ==> ({
                &&& r is Ok
                &&& final(self).is_initialized()
                &&& final(self).admin() == admin@
                &&& final(self).factory() == factory@
                &&& final(self).collateral_token() == collateral_token@
                &&& final(self).max_liquidity_cap() == max_liquidity_cap
                &&& pools_unchanged(*old(self), *final(self))
                &&& balances_unchanged(*old(self), *final(self))
                &&& final(self).events() == old(self).events().push(
                    (AmmEventView::AmmInitialized {
                        admin: admin@,
                        factory: factory@,
                        max_liquidity_cap,
                    }),
                )
            }),
    {
        if self.config.is_some() {
            return Err(AmmError::AlreadyInitialized);
        }
        let ghost old_events = self.events@;
        let event = AmmEvent::AmmInitialized {
            admin: admin.duplicate(),
            factory: factory.duplicate(),
            max_liquidity_cap,
        };
        self.config = Some(
            AmmConfig { admin, factory, collateral_token, max_liquidity_cap },
        );
        self.events.push(event);
        proof {
            assert(events_view(self.events@) =~= events_view(old_events).push(
                (AmmEventView::AmmInitialized {
                    admin: admin@,
                    factory: factory@,
                    max_liquidity_cap,
                }),
            ));
        }
        Ok(())
    }

    /// Creates the pool for a market: the initial liquidity is split
    /// half-and-half between the two reserves, and the whole entitlement
    /// supply is minted to the creator one-to-one.
    pub fn create_pool(
        &mut self,
        creator: &Address,
        market_id: &MarketId,
        initial_liquidity: u128,
        created_at: u64,
    ) -> (r: Result<(), AmmError>)
        requires
            old(self).wf(),
        ensures
            final(self).wf(),
            same_config(*old(self), *final(self)),
            old(self).has_pool(market_id@) ==> r == Err::<(), AmmError>(AmmError::PoolAlreadyExists)
                && *final(self) == *old(self),
            !old(self).has_pool(market_id@) && initial_liquidity == 0 ==> r == Err::<(), AmmError>(AmmError::InvalidInitialLiquidity) && *final(self) == *old(self),
            !old(self).has_pool(market_id@) && initial_liquidity >= 1 ==> ({
                let half: u128 = (initial_liquidity as int / 2) as u128;
                &&& r is Ok
                &&& final(self).has_pool(market_id@)
                &&& final(self).pool_at(market_id@) == (Pool {
                    yes_reserve: half,
                    no_reserve: half,
                    lp_supply: initial_liquidity,
                    created_at,
                })
                &&& final(self).lp_balance(market_id@, creator@) == initial_liquidity
                &&& forall|p: Seq<u8>|
                    p != creator@ ==> #[trigger] final(self).lp_balance(market_id@, p) == 0
                &&& pools_frame(*old(self), *final(self), market_id@)
                &&& balances_frame(*old(self), *final(self), market_id@, creator@)
                &&& final(self).events() == old(self).events().push(
                    (AmmEventView::PoolCreated {
                        market_id: market_id@,
                        initial_liquidity,
                        yes_reserve: half,
                        no_reserve: half,
                    }),
                )
            }),
    {
        if self.pools.contains_pool(market_id) {
            return Err(AmmError::PoolAlreadyExists);
        }
        if initial_liquidity == 0 {
            return Err(AmmError::InvalidInitialLiquidity);
        }
        let half: u128 = initial_liquidity / 2;
        let pool = Pool {
            yes_reserve: half,
            no_reserve: half,
            lp_supply: initial_liquidity,
            created_at,
        };
        let ghost old_events = self.events@;
        self.pools.insert_new(market_id, pool, creator);
        self.events.push(
            AmmEvent::PoolCreated {
                market_id: market_id.duplicate(),
                initial_liquidity,
                yes_reserve: half,
                no_reserve: half,
            },
        );
        proof {
            assert forall|m: Seq<u8>, p: Seq<u8>|
                !(m == market_id@ && p == creator@) implies #[trigger] self.lp_balance(m, p)
                == old(self).lp_balance(m, p) by {
                if m == market_id@ {
                    old(self).pools.lemma_balance_absent(m, p);
                }
            }
            assert(events_view(self.events@) =~= events_view(old_events).push(
                (AmmEventView::PoolCreated {
                    market_id: market_id@,
                    initial_liquidity,
                    yes_reserve: half,
                    no_reserve: half,
                }),
            ));
        }
        Ok(())
    }

    /// Buys outcome shares from a market's pool. The fee is skimmed from
    /// the payment; the rest moves the reserves along the constant-product
    /// curve: the opposite reserve absorbs it and the bought reserve is
    /// drawn down by the shares returned. The reserve product never
    /// decreases.
    pub fn buy_shares(
        &mut self,
        buyer: &Address,
        market_id: &MarketId,
        outcome: Outcome,
        amount_in: u128,
        min_shares_out: u128,
    ) -> (r: Result<u128, AmmError>)
        requires
            old(self).wf(),
            old(self).has_pool(market_id@) && amount_in >= 1 && old(self).pool_at(
                market_id@,
            ).is_funded() ==> buy_fits(
                old(self).pool_at(market_id@),
                outcome,
                amount_in as int,
                min_shares_out as int,
            ),
        ensures
            final(self).wf(),
            same_config(*old(self), *final(self)),
            balances_unchanged(*old(self), *final(self)),
            amount_in == 0 ==> r == Err::<u128, AmmError>(AmmError::InvalidAmount) && *final(self)
                == *old(self),
            amount_in >= 1 && !old(self).has_pool(market_id@) ==> r == Err::<u128, AmmError>(
                AmmError::PoolNotFound,
            ) && *final(self) == *old(self),
            amount_in >= 1 && old(self).has_pool(market_id@) && !old(self).pool_at(
                market_id@,
            ).is_funded() ==> r == Err::<u128, AmmError>(AmmError::InsufficientLiquidity)
                && *final(self) == *old(self),
            amount_in >= 1 && old(self).has_pool(market_id@) && old(self).pool_at(
                market_id@,
            ).is_funded() ==> ({
                let pool = old(self).pool_at(market_id@);
                let reserve_in: int = buy_reserves(pool, outcome).0;
                let reserve_out: int = buy_reserves(pool, outcome).1;
                let fee: int = fee_of(amount_in as int, TRADING_FEE_BPS as int);
                let after: int = amount_in - fee;
                let shares: int = cpmm_out(reserve_in, reserve_out, after);
                &&& (shares < min_shares_out ==> r == Err::<u128, AmmError>(
                    AmmError::SlippageExceeded,
                ) && *final(self) == *old(self))
                &&& (shares >= min_shares_out ==> ({
                    let new_pool = final(self).pool_at(market_id@);
                    &&& r == Ok::<u128, AmmError>((shares as u128))
                    &&& final(self).has_pool(market_id@)
                    &&& buy_reserves(new_pool, outcome).0 == reserve_in + after
                    &&& buy_reserves(new_pool, outcome).1 == reserve_out - shares
                    &&& new_pool.lp_supply == pool.lp_supply
                    &&& new_pool.created_at == pool.created_at
                    &&& new_pool.k() >= pool.k()
                    &&& new_pool.is_funded()
                    &&& pools_frame(*old(self), *final(self), market_id@)
                    &&& final(self).events() == old(self).events().push(
                        (AmmEventView::SharesBought {
                            buyer: buyer@,
                            market_id: market_id@,
                            outcome,
                            amount_in,
                            shares_out: (shares as u128),
                            fee_amount: (fee as u128),
                        }),
                    )
                }))
            }),
    {
        if amount_in == 0 {
            return Err(AmmError::InvalidAmount);
        }
        let pool = match self.pools.get_pool(market_id) {
            Some(p) => p,
            None => { return Err(AmmError::PoolNotFound) },
        };
        if pool.yes_reserve == 0 || pool.no_reserve == 0 {
            return Err(AmmError::InsufficientLiquidity);
        }
        proof {
            self.pools.lemma_pool_wf(market_id@);
        }
        let (reserve_in, reserve_out) = match outcome {
            Outcome::Yes => (pool.no_reserve, pool.yes_reserve),
            Outcome::No => (pool.yes_reserve, pool.no_reserve),
        };
        let (fee_amount, shares_out) = quote_buy(reserve_in, reserve_out, amount_in, TRADING_FEE_BPS);
        if shares_out < min_shares_out {
            return Err(AmmError::SlippageExceeded);
        }
        let amount_after_fee: u128 = amount_in - fee_amount;
        let new_reserve_in: u128 = reserve_in + amount_after_fee;
        let new_reserve_out: u128 = reserve_out - shares_out;
        proof {
            lemma_cpmm_out_bounds(reserve_in as int, reserve_out as int, amount_after_fee as int);
            lemma_cpmm_k_non_decreasing(
                reserve_in as int,
                reserve_out as int,
                amount_after_fee as int,
            );
            lemma_mul_is_commutative(new_reserve_in as int, new_reserve_out as int);
            lemma_mul_is_commutative(reserve_in as int, reserve_out as int);
        }
        // Defensive re-check of the invariant; the lemmas above show the
        // branch can never be taken.
        let old_k: u128 = pool.yes_reserve * pool.no_reserve;
        let new_k: u128 = new_reserve_in * new_reserve_out;
        if new_k < old_k {
            return Err(AmmError::InvariantViolation);
        }
        let new_pool = match outcome {
            Outcome::Yes => Pool {
                yes_reserve: new_reserve_out,
                no_reserve: new_reserve_in,
                lp_supply: pool.lp_supply,
                created_at: pool.created_at,
            },
            Outcome::No => Pool {
                yes_reserve: new_reserve_in,
                no_reserve: new_reserve_out,
                lp_supply: pool.lp_supply,
                created_at: pool.created_at,
            },
        };
        let ghost old_events = self.events@;
        self.pools.update_pool(market_id, new_pool, buyer, 0, 0);
        self.events.push(
            AmmEvent::SharesBought {
                buyer: buyer.duplicate(),
                market_id: market_id.duplicate(),
                outcome,
                amount_in,
                shares_out,
                fee_amount,
            },
        );
        proof {
            assert forall|m: Seq<u8>, p: Seq<u8>| true implies #[trigger] self.lp_balance(m, p)
                == old(self).lp_balance(m, p) by {
            }
            assert(events_view(self.events@) =~= events_view(old_events).push(
                (AmmEventView::SharesBought {
                    buyer: buyer@,
                    market_id: market_id@,
                    outcome,
                    amount_in,
                    shares_out,
                    fee_amount,
                }),
            ));
        }
        Ok(shares_out)
    }

    /// Sells outcome shares back to a market's pool. The gross payout
    /// follows the constant-product curve: the sold shares return to their
    /// own reserve and the opposite reserve is drawn down by the gross
    /// payout; the fee is skimmed from the payout before it is returned.
    /// The reserve product never decreases and both reserves stay funded.
    pub fn sell_shares(
        &mut self,
        seller: &Address,
        market_id: &MarketId,
        outcome: Outcome,
        shares_in: u128,
        min_payout: u128,
    ) -> (r: Result<u128, AmmError>)
        requires
            old(self).wf(),
            old(self).has_pool(market_id@) && shares_in >= 1 && old(self).pool_at(
                market_id@,
            ).is_funded() ==> sell_fits(old(self).pool_at(market_id@), outcome, shares_in as int),
        ensures
            final(self).wf(),
            same_config(*old(self), *final(self)),
            balances_unchanged(*old(self), *final(self)),
            shares_in == 0 ==> r == Err::<u128, AmmError>(AmmError::InvalidAmount) && *final(self)
                == *old(self),
            shares_in >= 1 && !old(self).has_pool(market_id@) ==> r == Err::<u128, AmmError>(
                AmmError::PoolNotFound,
            ) && *final(self) == *old(self),
            shares_in >= 1 && old(self).has_pool(market_id@) && !old(self).pool_at(
                market_id@,
            ).is_funded() ==> r == Err::<u128, AmmError>(AmmError::InsufficientLiquidity)
                && *final(self) == *old(self),
            shares_in >= 1 && old(self).has_pool(market_id@) && old(self).pool_at(
                market_id@,
            ).is_funded() ==> ({
                let pool = old(self).pool_at(market_id@);
                let reserve_in: int = sell_reserves(pool, outcome).0;
                let reserve_out: int = sell_reserves(pool, outcome).1;
                let gross: int = cpmm_out(reserve_in, reserve_out, shares_in as int);
                let fee: int = fee_of(gross, TRADING_FEE_BPS as int);
                let net: int = gross - fee;
                &&& (net < min_payout ==> r == Err::<u128, AmmError>(AmmError::SlippageExceeded)
                    && *final(self) == *old(self))
                &&& (net >= min_payout ==> ({
                    let new_pool = final(self).pool_at(market_id@);
                    &&& r == Ok::<u128, AmmError>((net as u128))
                    &&& final(self).has_pool(market_id@)
                    &&& sell_reserves(new_pool, outcome).0 == reserve_in + shares_in
                    &&& sell_reserves(new_pool, outcome).1 == reserve_out - gross
                    &&& new_pool.lp_supply == pool.lp_supply
                    &&& new_pool.created_at == pool.created_at
                    &&& new_pool.k() >= pool.k()
                    &&& new_pool.is_funded()
                    &&& pools_frame(*old(self), *final(self), market_id@)
                    &&& final(self).events() == old(self).events().push(
                        (AmmEventView::SharesSold {
                            seller: seller@,
                            market_id: market_id@,
                            outcome,
                            shares_in,
                            payout_net: (net as u128),
                            fee_amount: (fee as u128),
                        }),
                    )
                }))
            }),
    {
        if shares_in == 0 {
            return Err(AmmError::InvalidAmount);
        }
        let pool = match self.pools.get_pool(market_id) {
            Some(p) => p,
            None => { return Err(AmmError::PoolNotFound) },
        };
        if pool.yes_reserve == 0 || pool.no_reserve == 0 {
            return Err(AmmError::InsufficientLiquidity);
        }
        proof {
            self.pools.lemma_pool_wf(market_id@);
        }
        let (reserve_in, reserve_out) = match outcome {
            Outcome::Yes => (pool.yes_reserve, pool.no_reserve),
            Outcome::No => (pool.no_reserve, pool.yes_reserve),
        };
        let (payout_gross, fee_amount, payout_net) = quote_sell(
            reserve_in,
            reserve_out,
            shares_in,
            TRADING_FEE_BPS,
        );
        if payout_net < min_payout {
            return Err(AmmError::SlippageExceeded);
        }
        let new_reserve_in: u128 = reserve_in + shares_in;
        let new_reserve_out: u128 = reserve_out - payout_gross;
        proof {
            lemma_cpmm_out_bounds(reserve_in as int, reserve_out as int, shares_in as int);
            lemma_cpmm_k_non_decreasing(reserve_in as int, reserve_out as int, shares_in as int);
            lemma_mul_is_commutative(new_reserve_in as int, new_reserve_out as int);
            lemma_mul_is_commutative(reserve_in as int, reserve_out as int);
        }
        // Defensive re-check that no reserve is drained; the lemmas above
        // show the branch can never be taken.
        if new_reserve_in == 0 || new_reserve_out == 0 {
            return Err(AmmError::InsufficientLiquidity);
        }
        let new_pool = match outcome {
            Outcome::Yes => Pool {
                yes_reserve: new_reserve_in,
                no_reserve: new_reserve_out,
                lp_supply: pool.lp_supply,
                created_at: pool.created_at,
            },
            Outcome::No => Pool {
                yes_reserve: new_reserve_out,
                no_reserve: new_reserve_in,
                lp_supply: pool.lp_supply,
                created_at: pool.created_at,
            },
        };
        let ghost old_events = self.events@;
        self.pools.update_pool(market_id, new_pool, seller, 0, 0);
        self.events.push(
            AmmEvent::SharesSold {
                seller: seller.duplicate(),
                market_id: market_id.duplicate(),
                outcome,
                shares_in,
                payout_net,
                fee_amount,
            },
        );
        proof {
            assert forall|m: Seq<u8>, p: Seq<u8>| true implies #[trigger] self.lp_balance(m, p)
                == old(self).lp_balance(m, p) by {
            }
            assert(events_view(self.events@) =~= events_view(old_events).push(
                (AmmEventView::SharesSold {
                    seller: seller@,
                    market_id: market_id@,
                    outcome,
                    shares_in,
                    payout_net,
                    fee_amount,
                }),
            ));
        }
        Ok(payout_net)
    }

    /// Deposits collateral into an existing pool. The deposit is split
    /// between the reserves in their current ratio, and entitlement is
    /// minted in proportion to the existing supply, so the value of every
    /// outstanding unit is preserved.
    pub fn add_liquidity(
        &mut self,
        provider: &Address,
        market_id: &MarketId,
        amount: u128,
    ) -> (r: Result<u128, AmmError>)
        requires
            old(self).wf(),
            old(self).has_pool(market_id@) && amount >= 1 && old(self).pool_at(
                market_id@,
            ).is_funded() ==> add_fits(
                old(self).pool_at(market_id@),
                amount as int,
                old(self).max_liquidity_cap() as int,
            ),
        ensures
            final(self).wf(),
            same_config(*old(self), *final(self)),
            amount == 0 ==> r == Err::<u128, AmmError>(AmmError::InvalidAmount) && *final(self)
                == *old(self),
            amount >= 1 && !old(self).has_pool(market_id@) ==> r == Err::<u128, AmmError>(
                AmmError::PoolNotFound,
            ) && *final(self) == *old(self),
            amount >= 1 && old(self).has_pool(market_id@) && !old(self).pool_at(
                market_id@,
            ).is_funded() ==> r == Err::<u128, AmmError>(AmmError::InsufficientLiquidity)
                && *final(self) == *old(self),
            amount >= 1 && old(self).has_pool(market_id@) && old(self).pool_at(
                market_id@,
            ).is_funded() ==> ({
                let pool = old(self).pool_at(market_id@);
                &&& (pool.total_liquidity() + amount > old(self).max_liquidity_cap() ==> r
                    == Err::<u128, AmmError>(AmmError::CapExceeded) && *final(self) == *old(self))
                &&& (pool.total_liquidity() + amount <= old(self).max_liquidity_cap() ==> ({
                    let minted: int = lp_minted_for(pool, amount as int);
                    let yes_add: int = yes_share_of(pool, amount as int);
                    let new_pool = final(self).pool_at(market_id@);
                    &&& r == Ok::<u128, AmmError>((minted as u128))
                    &&& final(self).has_pool(market_id@)
                    &&& new_pool.yes_reserve as int == pool.yes_reserve + yes_add
                    &&& new_pool.no_reserve as int == pool.no_reserve + (amount - yes_add)
                    &&& new_pool.total_liquidity() == pool.total_liquidity() + amount
                    &&& new_pool.lp_supply as int == pool.lp_supply + minted
                    &&& new_pool.created_at == pool.created_at
                    &&& new_pool.is_funded()
                    &&& final(self).lp_balance(market_id@, provider@) as int == old(
                        self,
                    ).lp_balance(market_id@, provider@) + minted
                    &&& pools_frame(*old(self), *final(self), market_id@)
                    &&& balances_frame(*old(self), *final(self), market_id@, provider@)
                    &&& final(self).events() == old(self).events().push(
                        (AmmEventView::LiquidityAdded {
                            provider: provider@,
                            market_id: market_id@,
                            amount,
                            lp_minted: (minted as u128),
                        }),
                    )
                }))
            }),
    {
        if amount == 0 {
            return Err(AmmError::InvalidAmount);
        }
        let pool = match self.pools.get_pool(market_id) {
            Some(p) => p,
            None => { return Err(AmmError::PoolNotFound) },
        };
        if pool.yes_reserve == 0 || pool.no_reserve == 0 {
            return Err(AmmError::InsufficientLiquidity);
        }
        proof {
            self.pools.lemma_pool_wf(market_id@);
        }
        let cap: u128 = match &self.config {
            Some(c) => c.max_liquidity_cap,
            None => u128::MAX,
        };
        let total: u128 = pool.yes_reserve + pool.no_reserve;
        if amount > cap || total > cap - amount {
            return Err(AmmError::CapExceeded);
        }
        let minted: u128 = amount * pool.lp_supply / total;
        let yes_add: u128 = amount * pool.yes_reserve / total;
        proof {
            lemma_mul_is_commutative(amount as int, pool.yes_reserve as int);
            lemma_prorata(pool.yes_reserve as int, amount as int, total as int);
        }
        let no_add: u128 = amount - yes_add;
        let new_pool = Pool {
            yes_reserve: pool.yes_reserve + yes_add,
            no_reserve: pool.no_reserve + no_add,
            lp_supply: pool.lp_supply + minted,
            created_at: pool.created_at,
        };
        let ghost old_events = self.events@;
        self.pools.update_pool(market_id, new_pool, provider, minted, 0);
        self.events.push(
            AmmEvent::LiquidityAdded {
                provider: provider.duplicate(),
                market_id: market_id.duplicate(),
                amount,
                lp_minted: minted,
            },
        );
        proof {
            assert(events_view(self.events@) =~= events_view(old_events).push(
                (AmmEventView::LiquidityAdded {
                    provider: provider@,
                    market_id: market_id@,
                    amount,
                    lp_minted: minted,
                }),
            ));
        }
        Ok(minted)
    }

    /// Redeems entitlement units for a pro-rata share of both reserves.
    /// A withdrawal may go up to, but never past, the minimum liquidity
    /// floor: a request that would drain the pool below the floor — in
    /// particular a full drain — is rejected whole.
    pub fn remove_liquidity(
        &mut self,
        provider: &Address,
        market_id: &MarketId,
        lp_tokens: u128,
    ) -> (r: Result<(u128, u128), AmmError>)
        requires
            old(self).wf(),
            old(self).has_pool(market_id@) && lp_tokens >= 1 && lp_tokens <= old(self).lp_balance(
                market_id@,
                provider@,
            ) ==> remove_fits(old(self).pool_at(market_id@), lp_tokens as int),
        ensures
            final(self).wf(),
            same_config(*old(self), *final(self)),
            !old(self).has_pool(market_id@) ==> r == Err::<(u128, u128), AmmError>(
                AmmError::PoolNotFound,
            ) && *final(self) == *old(self),
            old(self).has_pool(market_id@) && lp_tokens == 0 ==> r == Err::<(u128, u128), AmmError>(
                AmmError::InvalidAmount,
            ) && *final(self) == *old(self),
            old(self).has_pool(market_id@) && lp_tokens >= 1 && lp_tokens > old(self).lp_balance(
                market_id@,
                provider@,
            ) ==> r == Err::<(u128, u128), AmmError>(AmmError::InsufficientLpBalance)
                && *final(self) == *old(self),
            old(self).has_pool(market_id@) && lp_tokens >= 1 && lp_tokens <= old(self).lp_balance(
                market_id@,
                provider@,
            ) ==> ({
                let pool = old(self).pool_at(market_id@);
                let yes_out: int = yes_out_for(pool, lp_tokens as int);
                let no_out: int = no_out_for(pool, lp_tokens as int);
                &&& (!floor_allows(pool, lp_tokens as int) ==> r == Err::<(u128, u128), AmmError>(
                    AmmError::MinimumLiquidityFloor,
                ) && *final(self) == *old(self))
                &&& (floor_allows(pool, lp_tokens as int) ==> ({
                    let new_pool = final(self).pool_at(market_id@);
                    &&& r == Ok::<(u128, u128), AmmError>((((yes_out as u128), (no_out as u128))))
                    &&& final(self).has_pool(market_id@)
                    &&& new_pool.yes_reserve as int == pool.yes_reserve - yes_out
                    &&& new_pool.no_reserve as int == pool.no_reserve - no_out
                    &&& new_pool.lp_supply as int == pool.lp_supply - lp_tokens
                    &&& new_pool.created_at == pool.created_at
                    &&& new_pool.is_funded()
                    &&& final(self).lp_balance(market_id@, provider@) as int == old(
                        self,
                    ).lp_balance(market_id@, provider@) - lp_tokens
                    &&& pools_frame(*old(self), *final(self), market_id@)
                    &&& balances_frame(*old(self), *final(self), market_id@, provider@)
                    &&& final(self).events() == old(self).events().push(
                        (AmmEventView::LiquidityRemoved {
                            provider: provider@,
                            market_id: market_id@,
                            lp_tokens,
                            yes_out: (yes_out as u128),
                            no_out: (no_out as u128),
                        }),
                    )
                }))
            }),
    {
        let pool = match self.pools.get_pool(market_id) {
            Some(p) => p,
            None => { return Err(AmmError::PoolNotFound) },
        };
        if lp_tokens == 0 {
            return Err(AmmError::InvalidAmount);
        }
        let balance: u128 = self.pools.balance_of(market_id, provider);
        if lp_tokens > balance {
            return Err(AmmError::InsufficientLpBalance);
        }
        proof {
            self.pools.lemma_pool_wf(market_id@);
            self.pools.lemma_balance_le_supply(market_id@, provider@);
            lemma_prorata(lp_tokens as int, pool.yes_reserve as int, pool.lp_supply as int);
            lemma_prorata(lp_tokens as int, pool.no_reserve as int, pool.lp_supply as int);
        }
        let yes_out: u128 = lp_tokens * pool.yes_reserve / pool.lp_supply;
        let no_out: u128 = lp_tokens * pool.no_reserve / pool.lp_supply;
        let remaining: u128 = (pool.yes_reserve - yes_out) + (pool.no_reserve - no_out);
        let total: u128 = pool.yes_reserve + pool.no_reserve;
        let floor_units: u128 = total * MIN_LIQUIDITY_FLOOR_BPS / 10000;
        if remaining < floor_units || remaining == 0 {
            return Err(AmmError::MinimumLiquidityFloor);
        }
        let new_pool = Pool {
            yes_reserve: pool.yes_reserve - yes_out,
            no_reserve: pool.no_reserve - no_out,
            lp_supply: pool.lp_supply - lp_tokens,
            created_at: pool.created_at,
        };
        proof {
            // A withdrawal the floor allows is never the whole supply:
            // burning everything would take both reserves with it.
            assert(lp_tokens < pool.lp_supply);
            assert(new_pool.wf());
        }
        let ghost old_events = self.events@;
        self.pools.update_pool(market_id, new_pool, provider, 0, lp_tokens);
        self.events.push(
            AmmEvent::LiquidityRemoved {
                provider: provider.duplicate(),
                market_id: market_id.duplicate(),
                lp_tokens,
                yes_out,
                no_out,
            },
        );
        proof {
            assert(events_view(self.events@) =~= events_view(old_events).push(
                (AmmEventView::LiquidityRemoved {
                    provider: provider@,
                    market_id: market_id@,
                    lp_tokens,
                    yes_out,
                    no_out,
                }),
            ));
        }
        Ok((yes_out, no_out))
    }

    /// The pool stored for a market, if any.
    pub fn get_pool(&self, market_id: &MarketId) -> (r: Option<Pool>)
        ensures
            match r {
                Some(p) => self.has_pool(market_id@) && p == self.pool_at(market_id@),
                None => !self.has_pool(market_id@),
            },
    {
        self.pools.get_pool(market_id)
    }

    /// The display odds of a market in basis points. A market without a
    /// pool, or with an empty pool, is even; the pair always sums to
    /// exactly 10000.
    pub fn get_odds(&self, market_id: &MarketId) -> (r: (u32, u32))
        requires
            self.has_pool(market_id@) ==> odds_fits(
                self.pool_at(market_id@).yes_reserve as int,
                self.pool_at(market_id@).no_reserve as int,
            ),
        ensures
            !self.has_pool(market_id@) ==> r == (5000u32, 5000u32),
            self.has_pool(market_id@) ==> ({
                let pool = self.pool_at(market_id@);
                &&& r.0 as int == spec_odds(pool.yes_reserve as int, pool.no_reserve as int).0
                &&& r.1 as int == spec_odds(pool.yes_reserve as int, pool.no_reserve as int).1
            }),
            r.0 + r.1 == 10000,
    {
        match self.pools.get_pool(market_id) {
            Some(pool) => compute_odds(pool.yes_reserve, pool.no_reserve),
            None => (5000, 5000),
        }
    }

    /// A snapshot of a market's pool for display: reserves, total
    /// liquidity, and the odds pair. A market without a pool reads as
    /// empty and even.
    pub fn get_pool_state(&self, market_id: &MarketId) -> (r: (u128, u128, u128, u32, u32))
        requires
            self.has_pool(market_id@) ==> odds_fits(
                self.pool_at(market_id@).yes_reserve as int,
                self.pool_at(market_id@).no_reserve as int,
            ),
        ensures
            !self.has_pool(market_id@) ==> r == (0u128, 0u128, 0u128, 5000u32, 5000u32),
            self.has_pool(market_id@) ==> ({
                let pool = self.pool_at(market_id@);
                &&& r.0 == pool.yes_reserve
                &&& r.1 == pool.no_reserve
                &&& r.2 as int == pool.total_liquidity()
                &&& r.3 as int == spec_odds(pool.yes_reserve as int, pool.no_reserve as int).0
                &&& r.4 as int == spec_odds(pool.yes_reserve as int, pool.no_reserve as int).1
            }),
            r.3 + r.4 == 10000,
    {
        match self.pools.get_pool(market_id) {
            Some(pool) => {
                let odds = compute_odds(pool.yes_reserve, pool.no_reserve);
                (
                    pool.yes_reserve,
                    pool.no_reserve,
                    pool.yes_reserve + pool.no_reserve,
                    odds.0,
                    odds.1,
                )
            },
            None => (0, 0, 0, 5000, 5000),
        }
    }

    /// Restores a pool from the embedder's persistence, with the provider
    /// balances backing it. The balances must add up to the pool's
    /// outstanding entitlement, and the pool must be well-formed; the
    /// embedder checks both before calling. No event is emitted: the pool
    /// is not being created, only read back.
    pub fn load_pool(&mut self, market_id: &MarketId, pool: Pool, positions: Vec<LpPosition>)
        requires
            old(self).wf(),
            !old(self).has_pool(market_id@),
            pool.wf(),
            crate::kv::spec_sum(crate::store::positions_keyed(positions@)) == pool.lp_supply,
        ensures
            final(self).wf(),
            same_config(*old(self), *final(self)),
            final(self).has_pool(market_id@),
            final(self).pool_at(market_id@) == pool,
            forall|p: Seq<u8>| #[trigger]
                final(self).lp_balance(market_id@, p) == (match crate::kv::spec_lookup(
                    crate::store::positions_keyed(positions@),
                    p,
                ) {
                    Some(b) => b,
                    None => 0u128,
                }),
            pools_frame(*old(self), *final(self), market_id@),
            forall|m: Seq<u8>, p: Seq<u8>|
                m != market_id@ ==> #[trigger] final(self).lp_balance(m, p) == old(
                    self,
                ).lp_balance(m, p),
            final(self).events() == old(self).events(),
    {
        self.pools.insert_loaded(market_id, pool, positions);
    }

    /// Drains the event log: returns the emitted events, oldest first,
    /// and leaves the log empty. Nothing else changes.
    pub fn take_events(&mut self) -> (r: Vec<AmmEvent>)
        ensures
            events_view(r@) == old(self).events(),
            final(self).events() == Seq::<AmmEventView>::empty(),
            final(self).wf() == old(self).wf(),
            same_config(*old(self), *final(self)),
            pools_unchanged(*old(self), *final(self)),
            balances_unchanged(*old(self), *final(self)),
    {
        let mut out: Vec<AmmEvent> = Vec::new();
        core::mem::swap(&mut self.events, &mut out);
        proof {
            assert(self.events() =~= Seq::<AmmEventView>::empty());
        }
        out
    }

    /// The entitlement balance of a provider in a market's pool.
    pub fn get_lp_position(&self, provider: &Address, market_id: &MarketId) -> (r: u128)
        ensures
            r == self.lp_balance(market_id@, provider@),
    {
        self.pools.balance_of(market_id, provider)
    }
}

} // verus!
