//! Keyed storage of pools and liquidity-provider balances.
//!
//! One record per market id holds the pool and the provider balances of
//! that pool. Records are kept in an association vector searched from the
//! front; `kv::spec_lookup` is its mathematical reading. The store keeps
//! two facts for every record: the pool is well-formed, and the sum of its
//! provider balances equals the pool's outstanding entitlement `lp_supply`.
//! Mutation goes through three operations whose contracts carry exact
//! frame conditions: `insert_new` for pool creation, `insert_loaded` for
//! records restored from outside persistence, and `update_pool` for
//! everything else.

use crate::ids::{Address, MarketId};
use crate::kv::{
    lemma_lookup_absent, lemma_lookup_at_index, lemma_lookup_le_sum, lemma_lookup_push,
    lemma_lookup_update, lemma_sum_non_negative, lemma_sum_push, lemma_sum_update, spec_lookup,
    spec_sum,
};
use crate::pool::Pool;
use vstd::pervasive::VecAdditionalExecFns;
use vstd::prelude::*;

verus! {

/// One provider's entitlement balance in one pool.
pub struct LpPosition {
    pub provider: Address,
    pub balance: u128,
}

/// One market's record: its pool and the provider balances backing it.
struct PoolEntry {
    market_id: MarketId,
    pool: Pool,
    positions: Vec<LpPosition>,
}

/// The positions read as a key/value sequence.
pub open spec fn positions_keyed(s: Seq<LpPosition>) -> Seq<(Seq<u8>, u128)> {
    s.map(|i: int, p: LpPosition| (p.provider@, p.balance))
}

/// The entries read as a key/value sequence.
spec fn entries_keyed(s: Seq<PoolEntry>) -> Seq<(Seq<u8>, PoolEntry)> {
    s.map(|i: int, e: PoolEntry| (e.market_id@, e))
}

impl PoolEntry {
    /// The balance this record holds for `provider` (zero when absent).
    spec fn balance_of(self, provider: Seq<u8>) -> u128 {
        match spec_lookup(positions_keyed(self.positions@), provider) {
            Some(b) => b,
            None => 0,
        }
    }

    /// The record's invariant: the pool is well-formed and its outstanding
    /// entitlement is exactly the sum of the provider balances.
    spec fn wf(self) -> bool {
        &&& self.pool.wf()
        &&& spec_sum(positions_keyed(self.positions@)) == self.pool.lp_supply
    }
}

/// Keyed storage of one `PoolEntry` per market id.
pub struct PoolStore {
    entries: Vec<PoolEntry>,
}

impl PoolStore {
    /// The entries read as a key/value sequence.
    spec fn keyed(self) -> Seq<(Seq<u8>, PoolEntry)> {
        entries_keyed(self.entries@)
    }

    /// The record stored for a market id, if any.
    spec fn entry_at(self, market: Seq<u8>) -> Option<PoolEntry> {
        spec_lookup(self.keyed(), market)
    }

    /// Whether a pool exists for this market id.
    pub closed spec fn has_pool(self, market: Seq<u8>) -> bool {
        self.entry_at(market) is Some
    }

    /// The pool stored for this market id (meaningful when `has_pool`).
    pub closed spec fn pool_at(self, market: Seq<u8>) -> Pool {
        self.entry_at(market)->Some_0.pool
    }

    /// The entitlement balance of `provider` in the pool of `market`;
    /// zero when either is unknown.
    pub closed spec fn balance_at(self, market: Seq<u8>, provider: Seq<u8>) -> u128 {
        match self.entry_at(market) {
            Some(e) => e.balance_of(provider),
            None => 0,
        }
    }

    /// Every stored record satisfies its invariant.
    pub closed spec fn wf(self) -> bool {
        forall|m: Seq<u8>| #[trigger]
            self.has_pool(m) ==> self.entry_at(m)->Some_0.wf()
    }

    /// A stored pool is well-formed.
    pub proof fn lemma_pool_wf(self, market: Seq<u8>)
        requires
            self.wf(),
            self.has_pool(market),
        ensures
            self.pool_at(market).wf(),
    {
    }

    /// No provider's balance exceeds the pool's outstanding entitlement.
    pub proof fn lemma_balance_le_supply(self, market: Seq<u8>, provider: Seq<u8>)
        requires
            self.wf(),
            self.has_pool(market),
        ensures
            self.balance_at(market, provider) <= self.pool_at(market).lp_supply,
    {
        let e = self.entry_at(market)->Some_0;
        let s = positions_keyed(e.positions@);
        if spec_lookup(s, provider) is Some {
            lemma_lookup_le_sum(s, provider);
        } else {
            lemma_sum_non_negative(s);
        }
    }

    /// A market without a pool holds no balances.
    pub proof fn lemma_balance_absent(self, market: Seq<u8>, provider: Seq<u8>)
        requires
            !self.has_pool(market),
        ensures
            self.balance_at(market, provider) == 0,
    {
    }

    /// An empty store: no market has a pool.
    pub fn new() -> (s: PoolStore)
        ensures
            s.wf(),
            forall|m: Seq<u8>| !(#[trigger] s.has_pool(m)),
            forall|m: Seq<u8>, p: Seq<u8>| #[trigger] s.balance_at(m, p) == 0,
    {
        let s = PoolStore { entries: Vec::new() };
        proof {
            assert(s.keyed() =~= Seq::<(Seq<u8>, PoolEntry)>::empty());
        }
        s
    }

    /// The index of the record for `market_id`, if one exists.
    fn find_entry(&self, market_id: &MarketId) -> (r: Option<usize>)
        ensures
            match r {
                Some(i) => {
                    &&& (i as int) < self.keyed().len()
                    &&& self.keyed()[i as int].0 == market_id@
                    &&& forall|j: int| 0 <= j < i ==> self.keyed()[j].0 != market_id@
                    &&& self.entry_at(market_id@) == Some(self.entries@[i as int])
                },
                None => !self.has_pool(market_id@),
            },
    {
        let n: usize = self.entries.len();
        let mut i: usize = 0;
        while i < n
            invariant
                n == self.entries@.len(),
                i <= n,
                self.keyed().len() == n,
                forall|j: int| 0 <= j < i ==> self.keyed()[j].0 != market_id@,
            decreases n - i,
        {
            let e = &self.entries[i];
            if e.market_id.same_as(market_id) {
                proof {
                    assert(self.keyed()[i as int] == (e.market_id@, self.entries@[i as int]));
                    lemma_lookup_at_index(self.keyed(), i as int);
                }
                return Some(i);
            }
            proof {
                assert(self.keyed()[i as int].0 == e.market_id@);
            }
            i = i + 1;
        }
        proof {
            lemma_lookup_absent(self.keyed(), market_id@);
        }
        None
    }

    /// Whether a pool exists for this market id.
    pub fn contains_pool(&self, market_id: &MarketId) -> (r: bool)
        ensures
            r == self.has_pool(market_id@),
    {
        match self.find_entry(market_id) {
            Some(_) => true,
            None => false,
        }
    }

    /// The pool stored for this market id.
    pub fn get_pool(&self, market_id: &MarketId) -> (r: Option<Pool>)
        ensures
            match r {
                Some(p) => self.has_pool(market_id@) && p == self.pool_at(market_id@),
                None => !self.has_pool(market_id@),
            },
    {
        match self.find_entry(market_id) {
            Some(i) => {
                let e = &self.entries[i];
                Some(e.pool)
            },
            None => None,
        }
    }

    /// The entitlement balance of `provider` in the pool of `market_id`.
    pub fn balance_of(&self, market_id: &MarketId, provider: &Address) -> (r: u128)
        ensures
            r == self.balance_at(market_id@, provider@),
    {
        match self.find_entry(market_id) {
            Some(i) => {
                let e = &self.entries[i];
                match find_position(&e.positions, provider) {
                    Some(j) => e.positions[j].balance,
                    None => 0,
                }
            },
            None => 0,
        }
    }

    /// Stores a new record: the pool of a fresh market, with its whole
    /// entitlement credited to `creator`.
    pub fn insert_new(&mut self, market_id: &MarketId, pool: Pool, creator: &Address)
        requires
            old(self).wf(),
            !old(self).has_pool(market_id@),
            pool.wf(),
        ensures
            final(self).wf(),
            final(self).has_pool(market_id@),
            final(self).pool_at(market_id@) == pool,
            final(self).balance_at(market_id@, creator@) == pool.lp_supply,
            forall|m: Seq<u8>|
                m != market_id@ ==> #[trigger] final(self).has_pool(m) == old(self).has_pool(m),
            forall|m: Seq<u8>|
                m != market_id@ && old(self).has_pool(m) ==> #[trigger] final(self).pool_at(m)
                    == old(self).pool_at(m),
            forall|m: Seq<u8>, p: Seq<u8>|
                m != market_id@ ==> #[trigger] final(self).balance_at(m, p) == old(
                    self,
                ).balance_at(m, p),
            forall|p: Seq<u8>|
                p != creator@ ==> #[trigger] final(self).balance_at(market_id@, p) == 0,
    {
        let ghost old_keyed = self.keyed();
        let mut positions: Vec<LpPosition> = Vec::new();
        positions.push(LpPosition { provider: creator.duplicate(), balance: pool.lp_supply });
        let entry = PoolEntry { market_id: market_id.duplicate(), pool, positions };
        proof {
            let pk = positions_keyed(entry.positions@);
            assert(pk =~= Seq::<(Seq<u8>, u128)>::empty().push((creator@, pool.lp_supply)));
            lemma_sum_push(Seq::<(Seq<u8>, u128)>::empty(), creator@, pool.lp_supply);
            assert(spec_sum(Seq::<(Seq<u8>, u128)>::empty()) == 0);
            lemma_lookup_push(Seq::<(Seq<u8>, u128)>::empty(), creator@, pool.lp_supply, creator@);
            assert(entry.wf());
        }
        let ghost new_entry = entry;
        self.entries.push(entry);
        proof {
            assert(self.keyed() =~= old_keyed.push((market_id@, new_entry)));
            assert forall|m: Seq<u8>| true implies #[trigger] self.entry_at(m) == (if m
                == market_id@ {
                Some(new_entry)
            } else {
                spec_lookup(old_keyed, m)
            }) by {
                lemma_lookup_push(old_keyed, market_id@, new_entry, m);
            }
            assert forall|p: Seq<u8>| p != creator@ implies #[trigger] self.balance_at(
                market_id@,
                p,
            ) == 0 by {
                lemma_lookup_push(
                    Seq::<(Seq<u8>, u128)>::empty(),
                    creator@,
                    pool.lp_supply,
                    p,
                );
                assert(positions_keyed(new_entry.positions@) =~= Seq::<(
                    Seq<u8>,
                    u128,
                )>::empty().push((creator@, pool.lp_supply)));
            }
            assert forall|m: Seq<u8>| #[trigger]
                self.has_pool(m) implies self.entry_at(m)->Some_0.wf() by {
                if m != market_id@ {
                    assert(old(self).has_pool(m));
                }
            }
        }
    }

    /// Stores a record restored from the embedder's persistence: a pool
    /// together with the provider balances backing it, which must add up
    /// to the pool's outstanding entitlement.
    pub fn insert_loaded(&mut self, market_id: &MarketId, pool: Pool, positions: Vec<LpPosition>)
        requires
            old(self).wf(),
            !old(self).has_pool(market_id@),
            pool.wf(),
            spec_sum(positions_keyed(positions@)) == pool.lp_supply,
        ensures
            final(self).wf(),
            final(self).has_pool(market_id@),
            final(self).pool_at(market_id@) == pool,
            forall|p: Seq<u8>| #[trigger]
                final(self).balance_at(market_id@, p) == (match spec_lookup(
                    positions_keyed(positions@),
                    p,
                ) {
                    Some(b) => b,
                    None => 0u128,
                }),
            forall|m: Seq<u8>|
                m != market_id@ ==> #[trigger] final(self).has_pool(m) == old(self).has_pool(m),
            forall|m: Seq<u8>|
                m != market_id@ && old(self).has_pool(m) ==> #[trigger] final(self).pool_at(m)
                    == old(self).pool_at(m),
            forall|m: Seq<u8>, p: Seq<u8>|
                m != market_id@ ==> #[trigger] final(self).balance_at(m, p) == old(
                    self,
                ).balance_at(m, p),
    {
        let ghost old_keyed = self.keyed();
        let entry = PoolEntry { market_id: market_id.duplicate(), pool, positions };
        proof {
            assert(entry.wf());
        }
        let ghost new_entry = entry;
        self.entries.push(entry);
        proof {
            assert(self.keyed() =~= old_keyed.push((market_id@, new_entry)));
            assert forall|m: Seq<u8>| true implies #[trigger] self.entry_at(m) == (if m
                == market_id@ {
                Some(new_entry)
            } else {
                spec_lookup(old_keyed, m)
            }) by {
                lemma_lookup_push(old_keyed, market_id@, new_entry, m);
            }
            assert forall|m: Seq<u8>| #[trigger]
                self.has_pool(m) implies self.entry_at(m)->Some_0.wf() by {
                if m != market_id@ {
                    assert(old(self).has_pool(m));
                }
            }
        }
    }

    /// Replaces the pool of an existing record and moves `provider`'s
    /// balance by `credit - debit`. The caller accounts for the entitlement:
    /// the new pool's `lp_supply` must absorb exactly the same difference.
    pub fn update_pool(
        &mut self,
        market_id: &MarketId,
        pool: Pool,
        provider: &Address,
        credit: u128,
        debit: u128,
    )
        requires
            old(self).wf(),
            old(self).has_pool(market_id@),
            pool.wf(),
            pool.lp_supply == old(self).pool_at(market_id@).lp_supply + credit - debit,
            debit <= old(self).balance_at(market_id@, provider@),
            old(self).pool_at(market_id@).lp_supply + credit <= u128::MAX,
        ensures
            final(self).wf(),
            forall|m: Seq<u8>| #[trigger] final(self).has_pool(m) == old(self).has_pool(m),
            final(self).pool_at(market_id@) == pool,
            forall|m: Seq<u8>|
                m != market_id@ && old(self).has_pool(m) ==> #[trigger] final(self).pool_at(m)
                    == old(self).pool_at(m),
            final(self).balance_at(market_id@, provider@) == old(self).balance_at(
                market_id@,
                provider@,
            ) + credit - debit,
            forall|m: Seq<u8>, p: Seq<u8>|
                !(m == market_id@ && p == provider@) ==> #[trigger] final(self).balance_at(m, p)
                    == old(self).balance_at(m, p),
    {
        proof {
            old(self).lemma_balance_le_supply(market_id@, provider@);
        }
        let ghost old_keyed = self.keyed();
        let ghost old_entry = self.entry_at(market_id@)->Some_0;
        let i = self.find_entry(market_id).unwrap();
        let mut entry = PoolEntry {
            market_id: MarketId::new(Vec::new()),
            pool,
            positions: Vec::new(),
        };
        self.entries.set_and_swap(i, &mut entry);
        // `entry` now owns the stored record.
        entry.pool = pool;
        let ghost old_positions = positions_keyed(old_entry.positions@);
        match find_position(&entry.positions, provider) {
            Some(j) => {
                let old_balance = entry.positions[j].balance;
                let new_balance = old_balance + credit - debit;
                let mut position = LpPosition { provider: Address::new(Vec::new()), balance: 0 };
                entry.positions.set_and_swap(j, &mut position);
                entry.positions.set(
                    j,
                    LpPosition { provider: position.provider, balance: new_balance },
                );
                proof {
                    assert(positions_keyed(entry.positions@) =~= old_positions.update(
                        j as int,
                        (provider@, new_balance),
                    ));
                    assert(old_positions[j as int] == (provider@, old_balance));
                    lemma_sum_update(old_positions, j as int, new_balance);
                    assert forall|p: Seq<u8>| true implies #[trigger] spec_lookup(
                        positions_keyed(entry.positions@),
                        p,
                    ) == (if p == provider@ {
                        Some(new_balance)
                    } else {
                        spec_lookup(old_positions, p)
                    }) by {
                        lemma_lookup_update(old_positions, j as int, new_balance, p);
                    }
                }
            },
            None => {
                // No balance yet: the debit is zero, so the new balance is
                // exactly the credit.
                entry.positions.push(
                    LpPosition { provider: provider.duplicate(), balance: credit },
                );
                proof {
                    assert(positions_keyed(entry.positions@) =~= old_positions.push(
                        (provider@, credit),
                    ));
                    lemma_sum_push(old_positions, provider@, credit);
                    assert forall|p: Seq<u8>| true implies #[trigger] spec_lookup(
                        positions_keyed(entry.positions@),
                        p,
                    ) == (if p == provider@ {
                        Some(credit)
                    } else {
                        spec_lookup(old_positions, p)
                    }) by {
                        lemma_lookup_push(old_positions, provider@, credit, p);
                    }
                }
            },
        }
        let ghost new_entry = entry;
        self.entries.set(i, entry);
        proof {
            assert(new_entry.wf());
            assert(self.keyed() =~= old_keyed.update(i as int, (market_id@, new_entry)));
            assert(old_keyed[i as int].0 == market_id@);
            assert forall|m: Seq<u8>| true implies #[trigger] self.entry_at(m) == (if m
                == market_id@ {
                Some(new_entry)
            } else {
                spec_lookup(old_keyed, m)
            }) by {
                lemma_lookup_update(old_keyed, i as int, new_entry, m);
            }
            assert forall|m: Seq<u8>| #[trigger]
                self.has_pool(m) implies self.entry_at(m)->Some_0.wf() by {
                if m != market_id@ {
                    assert(old(self).has_pool(m));
                }
            }
        }
    }
}

/// The index of the position for `provider`, if one exists.
fn find_position(positions: &Vec<LpPosition>, provider: &Address) -> (r: Option<usize>)
    ensures
        match r {
            Some(j) => {
                &&& (j as int) < positions@.len()
                &&& positions@[j as int].provider@ == provider@
                &&& spec_lookup(positions_keyed(positions@), provider@) == Some(
                    positions@[j as int].balance,
                )
                &&& forall|l: int|
                    0 <= l < j ==> positions_keyed(positions@)[l].0 != provider@
            },
            None => spec_lookup(positions_keyed(positions@), provider@) is None,
        },
{
    let n: usize = positions.len();
    let mut j: usize = 0;
    while j < n
        invariant
            n == positions@.len(),
            j <= n,
            positions_keyed(positions@).len() == n,
            forall|l: int| 0 <= l < j ==> positions_keyed(positions@)[l].0 != provider@,
        decreases n - j,
    {
        let p = &positions[j];
        if p.provider.same_as(provider) {
            proof {
                assert(positions_keyed(positions@)[j as int] == (p.provider@, p.balance));
                lemma_lookup_at_index(positions_keyed(positions@), j as int);
            }
            return Some(j);
        }
        proof {
            assert(positions_keyed(positions@)[j as int].0 == p.provider@);
        }
        j = j + 1;
    }
    proof {
        lemma_lookup_absent(positions_keyed(positions@), provider@);
    }
    None
}

} // verus!
