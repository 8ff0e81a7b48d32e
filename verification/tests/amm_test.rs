//! Trading and liquidity behaviour of the pool engine.

use boxmeout::{AmmError, Address, MarketId, Outcome, AMM};

const MAX_LIQUIDITY_CAP: u128 = 100_000_000_000;
const CREATED_AT: u64 = 12345;

fn market(tag: u8) -> MarketId {
    MarketId::new(vec![tag; 32])
}

fn account(tag: u8) -> Address {
    Address::new(vec![tag; 32])
}

/// An initialized engine.
fn setup_amm() -> AMM {
    let mut amm = AMM::new();
    amm.initialize(account(250), account(251), account(252), MAX_LIQUIDITY_CAP)
        .expect("initialize");
    amm
}

/// An initialized engine with one pool.
fn setup_pool(tag: u8, initial_liquidity: u128) -> (AMM, MarketId, Address) {
    let mut amm = setup_amm();
    let market_id = market(tag);
    let creator = account(1);
    amm.create_pool(&creator, &market_id, initial_liquidity, CREATED_AT)
        .expect("create_pool");
    (amm, market_id, creator)
}

#[test]
fn test_sell_shares_slippage_protection_triggers() {
    let (mut amm, market_id, _creator) = setup_pool(3, 1_000_000_000_000);
    let seller = account(10);

    // Buy some YES shares first.
    let buy_amount = 100_000_000u128;
    let shares_bought = amm
        .buy_shares(&seller, &market_id, Outcome::Yes, buy_amount, 0)
        .expect("buy");

    // A whale moves the market hard against the seller.
    let whale = account(11);
    let whale_buy = 500_000_000_000u128;
    amm.buy_shares(&whale, &market_id, Outcome::No, whale_buy, 0)
        .expect("whale buy");

    // Ask for more than the sale can pay out.
    let (yes_reserve, no_reserve, _, _, _) = amm.get_pool_state(&market_id);
    let expected_payout = (shares_bought * no_reserve) / (yes_reserve + shares_bought);
    let min_payout = expected_payout + 1;

    let result = amm.sell_shares(&seller, &market_id, Outcome::Yes, shares_bought, min_payout);
    assert_eq!(result, Err(AmmError::SlippageExceeded));
}

#[test]
fn test_sell_shares_slippage_protection_accepts_valid_trade() {
    let (mut amm, market_id, _creator) = setup_pool(4, 1_000_000_000_000);
    let seller = account(10);

    let buy_amount = 100_000_000u128;
    let shares_bought = amm
        .buy_shares(&seller, &market_id, Outcome::Yes, buy_amount, 0)
        .expect("buy");

    let payout = amm
        .sell_shares(&seller, &market_id, Outcome::Yes, shares_bought, 0)
        .expect("sell");

    assert!(payout > 0, "Should receive payout when selling shares");
    assert!(
        payout < buy_amount,
        "Payout should be less than buy amount due to fees"
    );
}

#[test]
fn test_remove_all_liquidity_fails() {
    let (mut amm, market_id, creator) = setup_pool(5, 1_000_000_000_000);

    // The creator holds the whole entitlement supply.
    let lp_balance = 1_000_000_000_000u128;
    let result = amm.remove_liquidity(&creator, &market_id, lp_balance);
    assert_eq!(result, Err(AmmError::MinimumLiquidityFloor));
}

#[test]
fn test_remove_almost_all_liquidity_succeeds() {
    let (mut amm, market_id, creator) = setup_pool(6, 1_000_000_000_000);

    let lp_balance = 1_000_000_000_000u128;
    let lp_to_remove = (lp_balance * 99) / 100;
    let (yes_amount, no_amount) = amm
        .remove_liquidity(&creator, &market_id, lp_to_remove)
        .expect("remove 99%");

    assert!(yes_amount > 0, "Should receive YES amount");
    assert!(no_amount > 0, "Should receive NO amount");

    let (yes_reserve, no_reserve, total, _, _) = amm.get_pool_state(&market_id);
    assert!(yes_reserve > 0, "YES reserve should remain");
    assert!(no_reserve > 0, "NO reserve should remain");
    assert!(total > 0, "Total liquidity should remain");
}

#[test]
fn test_buy_shares_zero_amount_division_protection() {
    let (mut amm, market_id, _creator) = setup_pool(8, 1_000_000_000_000);
    let buyer = account(10);

    let result = amm.buy_shares(&buyer, &market_id, Outcome::Yes, 0, 0);
    assert_eq!(result, Err(AmmError::InvalidAmount));
}

#[test]
fn test_sell_shares_zero_shares_division_protection() {
    let (mut amm, market_id, _creator) = setup_pool(9, 1_000_000_000_000);
    let seller = account(10);

    let result = amm.sell_shares(&seller, &market_id, Outcome::Yes, 0, 0);
    assert_eq!(result, Err(AmmError::InvalidAmount));
}

#[test]
fn test_get_odds_handles_zero_liquidity() {
    let amm = setup_amm();
    let market_id = market(10);

    let (yes_odds, no_odds) = amm.get_odds(&market_id);
    assert_eq!(yes_odds, 5000, "Non-existent pool should return 50% YES odds");
    assert_eq!(no_odds, 5000, "Non-existent pool should return 50% NO odds");
}

#[test]
fn test_overflow_protection_large_amounts() {
    let mut amm = setup_amm();
    let market_id = market(11);
    let creator = account(1);
    let initial_liquidity = 1_000_000_000_000_000_000u128;
    amm.create_pool(&creator, &market_id, initial_liquidity, CREATED_AT)
        .expect("create_pool");

    let buy_amount = 100_000_000_000_000_000u128;
    let buyer = account(10);
    let shares = amm
        .buy_shares(&buyer, &market_id, Outcome::Yes, buy_amount, 0)
        .expect("buy");
    assert!(shares > 0, "Should receive shares when buying with large amount");
}

#[test]
fn test_remove_liquidity_division_by_zero_protection() {
    let (mut amm, market_id, creator) = setup_pool(12, 1_000_000_000_000);

    let result = amm.remove_liquidity(&creator, &market_id, 0);
    assert!(result.is_err(), "Should panic when removing zero LP tokens");
    assert_eq!(result, Err(AmmError::InvalidAmount));
}

#[test]
fn test_buy_shares_invariant_protection() {
    let (mut amm, market_id, _creator) = setup_pool(13, 1_000_000_000_000);
    let buyer = account(10);

    let (initial_yes, initial_no, _, _, _) = amm.get_pool_state(&market_id);
    let initial_k = initial_yes * initial_no;

    let buy_amount = 100_000_000u128;
    amm.buy_shares(&buyer, &market_id, Outcome::Yes, buy_amount, 0)
        .expect("buy");

    let (new_yes, new_no, _, _, _) = amm.get_pool_state(&market_id);
    let new_k = new_yes * new_no;

    assert!(
        new_k >= initial_k,
        "Invariant k should never decrease (initial_k: {}, new_k: {})",
        initial_k,
        new_k
    );
}

#[test]
fn test_sell_shares_reserves_remain_positive() {
    let (mut amm, market_id, _creator) = setup_pool(14, 1_000_000_000_000);
    let trader = account(10);

    let buy_amount = 100_000_000u128;
    let shares_bought = amm
        .buy_shares(&trader, &market_id, Outcome::Yes, buy_amount, 0)
        .expect("buy");

    amm.sell_shares(&trader, &market_id, Outcome::Yes, shares_bought, 0)
        .expect("sell");

    let (yes_after, no_after, _, _, _) = amm.get_pool_state(&market_id);
    assert!(yes_after > 0, "YES reserve should remain positive after sell");
    assert!(no_after > 0, "NO reserve should remain positive after sell");
}
