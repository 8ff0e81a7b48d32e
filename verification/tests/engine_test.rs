//! Exact-value scenarios, error paths, and the event log.

use boxmeout::{AmmError, AmmEvent, Address, MarketId, Outcome, AMM};

const CREATED_AT: u64 = 777;

fn market(tag: u8) -> MarketId {
    MarketId::new(vec![tag; 32])
}

fn account(tag: u8) -> Address {
    Address::new(vec![tag; 32])
}

fn setup_amm(cap: u128) -> AMM {
    let mut amm = AMM::new();
    amm.initialize(account(250), account(251), account(252), cap)
        .expect("initialize");
    amm
}

#[test]
fn test_create_pool_splits_liquidity_evenly() {
    let mut amm = setup_amm(u128::MAX);
    let market_id = market(20);
    let creator = account(1);
    amm.create_pool(&creator, &market_id, 10_000_000_000, CREATED_AT)
        .expect("create_pool");

    let pool = amm.get_pool(&market_id).expect("pool exists");
    assert_eq!(pool.yes_reserve, 5_000_000_000);
    assert_eq!(pool.no_reserve, 5_000_000_000);
    assert_eq!(pool.lp_supply, 10_000_000_000);
    assert_eq!(pool.created_at, CREATED_AT);
    assert_eq!(amm.get_lp_position(&creator, &market_id), 10_000_000_000);
}

#[test]
fn test_buy_concrete_quote() {
    // Pool of 10_000_000_000 split evenly; buy YES with 2_000_000_000 at
    // a 20 bps fee: fee = 4_000_000, amount after fee = 1_996_000_000,
    // shares = 1_996_000_000 * 5_000_000_000 / 6_996_000_000.
    let mut amm = setup_amm(u128::MAX);
    let market_id = market(21);
    let creator = account(1);
    let buyer = account(2);
    amm.create_pool(&creator, &market_id, 10_000_000_000, CREATED_AT)
        .expect("create_pool");

    let shares = amm
        .buy_shares(&buyer, &market_id, Outcome::Yes, 2_000_000_000, 0)
        .expect("buy");
    assert_eq!(shares, 1_426_529_445);

    let pool = amm.get_pool(&market_id).expect("pool exists");
    assert_eq!(pool.no_reserve, 6_996_000_000);
    assert_eq!(pool.yes_reserve, 5_000_000_000 - shares);
    assert!(
        pool.yes_reserve * pool.no_reserve >= 5_000_000_000u128 * 5_000_000_000u128,
        "reserve product must not decrease"
    );
}

#[test]
fn test_round_trip_pays_less_than_input() {
    let mut amm = setup_amm(u128::MAX);
    let market_id = market(22);
    let creator = account(1);
    let trader = account(2);
    amm.create_pool(&creator, &market_id, 1_000_000_000_000, CREATED_AT)
        .expect("create_pool");

    let amount_in = 100_000_000u128;
    let shares = amm
        .buy_shares(&trader, &market_id, Outcome::Yes, amount_in, 0)
        .expect("buy");
    assert_eq!(shares, 99_780_083);

    let payout = amm
        .sell_shares(&trader, &market_id, Outcome::Yes, shares, 0)
        .expect("sell");
    assert_eq!(payout, 99_600_400);
    assert!(payout < amount_in, "a round trip must lose the fees");
}

#[test]
fn test_odds_even_pool() {
    let mut amm = setup_amm(u128::MAX);
    let market_id = market(23);
    amm.create_pool(&account(1), &market_id, 10_000_000_000, CREATED_AT)
        .expect("create_pool");
    assert_eq!(amm.get_odds(&market_id), (5000, 5000));
}

#[test]
fn test_odds_sum_after_trades() {
    let mut amm = setup_amm(u128::MAX);
    let market_id = market(24);
    amm.create_pool(&account(1), &market_id, 1_000_000_000_000, CREATED_AT)
        .expect("create_pool");

    // Skew the pool with a few uneven trades.
    amm.buy_shares(&account(2), &market_id, Outcome::No, 480_000_000_000, 0)
        .expect("buy NO");
    amm.buy_shares(&account(3), &market_id, Outcome::Yes, 1_234_567, 0)
        .expect("buy YES");

    let (yes_odds, no_odds) = amm.get_odds(&market_id);
    assert_eq!(yes_odds + no_odds, 10000);
    assert!(no_odds > yes_odds, "the NO side was bought up");

    let (_, _, _, state_yes_odds, state_no_odds) = amm.get_pool_state(&market_id);
    assert_eq!(state_yes_odds + state_no_odds, 10000);
}

#[test]
fn test_odds_empty_pool_is_even() {
    // A pool created with one unit has zero in both reserves.
    let mut amm = setup_amm(u128::MAX);
    let market_id = market(25);
    amm.create_pool(&account(1), &market_id, 1, CREATED_AT)
        .expect("create_pool");
    assert_eq!(amm.get_odds(&market_id), (5000, 5000));

    // Such a pool cannot price a trade.
    let result = amm.buy_shares(&account(2), &market_id, Outcome::Yes, 1_000, 0);
    assert_eq!(result, Err(AmmError::InsufficientLiquidity));
}

#[test]
fn test_initialize_twice_fails() {
    let mut amm = AMM::new();
    assert!(amm
        .initialize(account(250), account(251), account(252), 1_000)
        .is_ok());
    let result = amm.initialize(account(250), account(251), account(252), 1_000);
    assert_eq!(result, Err(AmmError::AlreadyInitialized));
}

#[test]
fn test_create_pool_twice_fails() {
    let mut amm = setup_amm(u128::MAX);
    let market_id = market(26);
    amm.create_pool(&account(1), &market_id, 1_000, CREATED_AT)
        .expect("create_pool");
    let result = amm.create_pool(&account(1), &market_id, 1_000, CREATED_AT);
    assert_eq!(result, Err(AmmError::PoolAlreadyExists));
}

#[test]
fn test_create_pool_zero_liquidity_fails() {
    let mut amm = setup_amm(u128::MAX);
    let result = amm.create_pool(&account(1), &market(27), 0, CREATED_AT);
    assert_eq!(result, Err(AmmError::InvalidInitialLiquidity));
}

#[test]
fn test_trade_on_unknown_market_fails() {
    let mut amm = setup_amm(u128::MAX);
    let market_id = market(28);
    let trader = account(2);
    assert_eq!(
        amm.buy_shares(&trader, &market_id, Outcome::Yes, 1_000, 0),
        Err(AmmError::PoolNotFound)
    );
    assert_eq!(
        amm.sell_shares(&trader, &market_id, Outcome::Yes, 1_000, 0),
        Err(AmmError::PoolNotFound)
    );
    assert_eq!(
        amm.add_liquidity(&trader, &market_id, 1_000),
        Err(AmmError::PoolNotFound)
    );
    assert_eq!(
        amm.remove_liquidity(&trader, &market_id, 1_000),
        Err(AmmError::PoolNotFound)
    );
}

#[test]
fn test_buy_slippage_exact_boundary() {
    let mut amm = setup_amm(u128::MAX);
    let market_id = market(29);
    amm.create_pool(&account(1), &market_id, 10_000_000_000, CREATED_AT)
        .expect("create_pool");

    // The quote for this buy is exactly 1_426_529_445 shares.
    let result = amm.buy_shares(
        &account(2),
        &market_id,
        Outcome::Yes,
        2_000_000_000,
        1_426_529_446,
    );
    assert_eq!(result, Err(AmmError::SlippageExceeded));

    let shares = amm
        .buy_shares(&account(2), &market_id, Outcome::Yes, 2_000_000_000, 1_426_529_445)
        .expect("buy at the exact minimum");
    assert_eq!(shares, 1_426_529_445);
}

#[test]
fn test_add_liquidity_proportional() {
    let mut amm = setup_amm(u128::MAX);
    let market_id = market(30);
    let creator = account(1);
    let provider = account(2);
    amm.create_pool(&creator, &market_id, 10_000, CREATED_AT)
        .expect("create_pool");

    // minted = 1_000 * 10_000 / 10_000; half of the deposit to each side.
    let minted = amm
        .add_liquidity(&provider, &market_id, 1_000)
        .expect("add_liquidity");
    assert_eq!(minted, 1_000);

    let pool = amm.get_pool(&market_id).expect("pool exists");
    assert_eq!(pool.yes_reserve, 5_500);
    assert_eq!(pool.no_reserve, 5_500);
    assert_eq!(pool.lp_supply, 11_000);
    assert_eq!(amm.get_lp_position(&provider, &market_id), 1_000);
    assert_eq!(amm.get_lp_position(&creator, &market_id), 10_000);
}

#[test]
fn test_add_liquidity_zero_fails() {
    let mut amm = setup_amm(u128::MAX);
    let market_id = market(31);
    amm.create_pool(&account(1), &market_id, 10_000, CREATED_AT)
        .expect("create_pool");
    assert_eq!(
        amm.add_liquidity(&account(2), &market_id, 0),
        Err(AmmError::InvalidAmount)
    );
}

#[test]
fn test_add_liquidity_cap_exceeded() {
    let mut amm = setup_amm(10_000);
    let market_id = market(32);
    amm.create_pool(&account(1), &market_id, 10_000, CREATED_AT)
        .expect("create_pool");
    assert_eq!(
        amm.add_liquidity(&account(2), &market_id, 1),
        Err(AmmError::CapExceeded)
    );
}

#[test]
fn test_remove_liquidity_exact_amounts() {
    let mut amm = setup_amm(u128::MAX);
    let market_id = market(33);
    let creator = account(1);
    amm.create_pool(&creator, &market_id, 10_000, CREATED_AT)
        .expect("create_pool");

    let (yes_out, no_out) = amm
        .remove_liquidity(&creator, &market_id, 5_000)
        .expect("remove half");
    assert_eq!(yes_out, 2_500);
    assert_eq!(no_out, 2_500);

    let pool = amm.get_pool(&market_id).expect("pool exists");
    assert_eq!(pool.yes_reserve, 2_500);
    assert_eq!(pool.no_reserve, 2_500);
    assert_eq!(pool.lp_supply, 5_000);
    assert_eq!(amm.get_lp_position(&creator, &market_id), 5_000);
}

#[test]
fn test_remove_liquidity_insufficient_balance() {
    let mut amm = setup_amm(u128::MAX);
    let market_id = market(34);
    amm.create_pool(&account(1), &market_id, 10_000, CREATED_AT)
        .expect("create_pool");
    // This provider holds no entitlement.
    assert_eq!(
        amm.remove_liquidity(&account(2), &market_id, 10),
        Err(AmmError::InsufficientLpBalance)
    );
}

#[test]
fn test_get_pool_state_unknown_market() {
    let amm = setup_amm(u128::MAX);
    assert_eq!(amm.get_pool_state(&market(35)), (0, 0, 0, 5000, 5000));
}

#[test]
fn test_get_pool_state_values() {
    let mut amm = setup_amm(u128::MAX);
    let market_id = market(36);
    amm.create_pool(&account(1), &market_id, 10_000_000_000, CREATED_AT)
        .expect("create_pool");
    assert_eq!(
        amm.get_pool_state(&market_id),
        (5_000_000_000, 5_000_000_000, 10_000_000_000, 5000, 5000)
    );
}

#[test]
fn test_small_buy_pays_no_fee() {
    // 100 units at 20 bps round down to a zero fee.
    let mut amm = setup_amm(u128::MAX);
    let market_id = market(37);
    amm.create_pool(&account(1), &market_id, 10_000, CREATED_AT)
        .expect("create_pool");
    let shares = amm
        .buy_shares(&account(2), &market_id, Outcome::Yes, 100, 0)
        .expect("buy");
    // shares = 100 * 5_000 / (5_000 + 100)
    assert_eq!(shares, 98);
    let pool = amm.get_pool(&market_id).expect("pool exists");
    assert_eq!(pool.no_reserve, 5_100);
    assert_eq!(pool.yes_reserve, 4_902);
}

#[test]
fn test_events_are_recorded() {
    let mut amm = setup_amm(u128::MAX);
    let market_id = market(38);
    let creator = account(1);
    let buyer = account(2);
    amm.create_pool(&creator, &market_id, 10_000_000_000, CREATED_AT)
        .expect("create_pool");
    amm.buy_shares(&buyer, &market_id, Outcome::Yes, 2_000_000_000, 0)
        .expect("buy");

    let events = amm.take_events();
    assert_eq!(events.len(), 3);
    match &events[0] {
        AmmEvent::AmmInitialized { max_liquidity_cap, .. } => {
            assert_eq!(*max_liquidity_cap, u128::MAX);
        }
        other => panic!("expected AmmInitialized, got {:?}", other),
    }
    match &events[1] {
        AmmEvent::PoolCreated { market_id: m, initial_liquidity, yes_reserve, no_reserve } => {
            assert_eq!(m.bytes, vec![38u8; 32]);
            assert_eq!(*initial_liquidity, 10_000_000_000);
            assert_eq!(*yes_reserve, 5_000_000_000);
            assert_eq!(*no_reserve, 5_000_000_000);
        }
        other => panic!("expected PoolCreated, got {:?}", other),
    }
    match &events[2] {
        AmmEvent::SharesBought { buyer: b, outcome, amount_in, shares_out, fee_amount, .. } => {
            assert_eq!(b.bytes, vec![2u8; 32]);
            assert_eq!(*outcome, Outcome::Yes);
            assert_eq!(*amount_in, 2_000_000_000);
            assert_eq!(*shares_out, 1_426_529_445);
            assert_eq!(*fee_amount, 4_000_000);
        }
        other => panic!("expected SharesBought, got {:?}", other),
    }

    // The log was drained.
    assert_eq!(amm.take_events().len(), 0);
}

#[test]
fn test_compute_odds_rounding_residue() {
    // 10000 does not divide evenly by 3: the lost basis point goes to the
    // larger side, so the pair still sums to exactly 10000.
    assert_eq!(boxmeout::odds::compute_odds(1, 2), (6667, 3333));
    assert_eq!(boxmeout::odds::compute_odds(2, 1), (3333, 6667));
    assert_eq!(boxmeout::odds::compute_odds(3, 3), (5000, 5000));
}

#[test]
fn test_compute_odds_degenerate_reserves() {
    assert_eq!(boxmeout::odds::compute_odds(0, 0), (5000, 5000));
    assert_eq!(boxmeout::odds::compute_odds(0, 5), (0, 10000));
    assert_eq!(boxmeout::odds::compute_odds(5, 0), (10000, 0));
}

#[test]
fn test_quote_buy_exact() {
    // fee = 2_000_000_000 * 20 / 10000; the rest is priced on the curve.
    let (fee, shares) = boxmeout::pricing::quote_buy(
        5_000_000_000,
        5_000_000_000,
        2_000_000_000,
        20,
    );
    assert_eq!(fee, 4_000_000);
    assert_eq!(shares, 1_426_529_445);
}

#[test]
fn test_quote_sell_exact() {
    // gross = 100 * 5_000 / (5_000 + 100); a 20 bps fee on 98 rounds to 0.
    let (gross, fee, net) = boxmeout::pricing::quote_sell(5_000, 5_000, 100, 20);
    assert_eq!(gross, 98);
    assert_eq!(fee, 0);
    assert_eq!(net, 98);

    // A larger sale pays a visible fee.
    let (gross, fee, net) = boxmeout::pricing::quote_sell(5_000_000, 5_000_000, 100_000, 20);
    assert_eq!(gross, 98_039);
    assert_eq!(fee, 196);
    assert_eq!(net, 97_843);
}

#[test]
fn test_reserve_product_monotonic_over_trade_sequence() {
    let mut amm = setup_amm(u128::MAX);
    let market_id = market(41);
    amm.create_pool(&account(1), &market_id, 1_000_000_000_000, CREATED_AT)
        .expect("create_pool");

    let trader = account(2);
    let mut k_before = {
        let (y, n, _, _, _) = amm.get_pool_state(&market_id);
        y * n
    };
    let trades: [(Outcome, u128, bool); 6] = [
        (Outcome::Yes, 5_000_000_000, true),
        (Outcome::No, 12_345_678_901, true),
        (Outcome::Yes, 777, true),
        (Outcome::Yes, 2_000_000_000, false),
        (Outcome::No, 999_999_999, false),
        (Outcome::No, 42, true),
    ];
    for (outcome, amount, is_buy) in trades {
        if is_buy {
            amm.buy_shares(&trader, &market_id, outcome, amount, 0).expect("buy");
        } else {
            amm.sell_shares(&trader, &market_id, outcome, amount, 0).expect("sell");
        }
        let (y, n, _, _, _) = amm.get_pool_state(&market_id);
        let k_after = y * n;
        assert!(k_after >= k_before, "the reserve product fell during the sequence");
        k_before = k_after;
    }
}

#[test]
fn test_pools_are_independent() {
    let mut amm = setup_amm(u128::MAX);
    let market_a = market(39);
    let market_b = market(40);
    amm.create_pool(&account(1), &market_a, 10_000, CREATED_AT)
        .expect("create a");
    amm.create_pool(&account(1), &market_b, 50_000, CREATED_AT)
        .expect("create b");

    amm.buy_shares(&account(2), &market_a, Outcome::Yes, 1_000, 0)
        .expect("buy in a");

    // The other market is untouched.
    assert_eq!(amm.get_pool_state(&market_b), (25_000, 25_000, 50_000, 5000, 5000));
}
