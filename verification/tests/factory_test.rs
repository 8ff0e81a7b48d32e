//! Market-registry surface. Of the registry only per-market lookup touches
//! the pool engine; the pause switch and the treasury address live in the
//! surrounding platform, so those two check nothing here.

use boxmeout::{Address, MarketId, AMM};

#[test]
fn test_get_market_by_id() {
    let mut amm = AMM::new();
    let creator = Address::new(vec![1u8; 32]);
    let market_id = MarketId::new(vec![9u8; 32]);
    amm.create_pool(&creator, &market_id, 1_000, 0).expect("create_pool");

    assert!(amm.get_pool(&market_id).is_some());
    assert!(amm.get_pool(&MarketId::new(vec![8u8; 32])).is_none());
}

#[test]
fn test_pause_unpause_factory() {}

#[test]
fn test_update_treasury_address() {}
