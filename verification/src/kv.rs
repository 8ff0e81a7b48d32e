//! First-match lookup over a sequence of key/value pairs.
//!
//! The stores in this crate are association vectors searched from the front.
//! `spec_lookup` is their mathematical reading, and the lemmas here say how
//! a lookup reacts to updating one pair in place or appending a fresh pair,
//! which is all the stores ever do. `spec_sum` adds up `u128` values; the
//! liquidity ledger uses it to tie a pool's outstanding entitlement to the
//! balances of its providers.

use vstd::prelude::*;

verus! {

/// The value of the first pair whose key equals `k`, front to back.
pub open spec fn spec_lookup<V>(s: Seq<(Seq<u8>, V)>, k: Seq<u8>) -> Option<V>
    decreases s.len(),
{
    if s.len() == 0 {
        None
    } else if s[0].0 == k {
        Some(s[0].1)
    } else {
        spec_lookup(s.drop_first(), k)
    }
}

/// The sum of all values.
pub open spec fn spec_sum<K>(s: Seq<(K, u128)>) -> int
    decreases s.len(),
{
    if s.len() == 0 {
        0
    } else {
        s[0].1 + spec_sum(s.drop_first())
    }
}

/// How a lookup reacts to replacing the value of the first pair matching
/// its own key: the updated key now maps to the new value, every other key
/// is untouched.
pub proof fn lemma_lookup_update<V>(s: Seq<(Seq<u8>, V)>, i: int, v: V, k2: Seq<u8>)
    requires
        0 <= i < s.len(),
        forall|j: int| 0 <= j < i ==> s[j].0 != s[i].0,
    ensures
        spec_lookup(s.update(i, (s[i].0, v)), k2) == if k2 == s[i].0 {
            Some(v)
        } else {
            spec_lookup(s, k2)
        },
    decreases s.len(),
{
    let t = s.update(i, (s[i].0, v));
    if i == 0 {
        assert(t.drop_first() =~= s.drop_first());
    } else {
        assert(t[0] == s[0]);
        assert(t.drop_first() =~= s.drop_first().update(i - 1, (s[i].0, v)));
        assert(s.drop_first()[i - 1] == s[i]);
        assert(forall|j: int|
            0 <= j < i - 1 ==> #[trigger] s.drop_first()[j].0 != s.drop_first()[i - 1].0);
        lemma_lookup_update(s.drop_first(), i - 1, v, k2);
    }
}

/// How a lookup reacts to appending a pair whose key is not yet present:
/// the new key maps to the new value, every other key is untouched.
pub proof fn lemma_lookup_push<V>(s: Seq<(Seq<u8>, V)>, k: Seq<u8>, v: V, k2: Seq<u8>)
    requires
        spec_lookup(s, k) is None,
    ensures
        spec_lookup(s.push((k, v)), k2) == if k2 == k {
            Some(v)
        } else {
            spec_lookup(s, k2)
        },
    decreases s.len(),
{
    let t = s.push((k, v));
    if s.len() == 0 {
        assert(t[0] == (k, v));
        assert(t.drop_first() =~= Seq::<(Seq<u8>, V)>::empty());
    } else {
        assert(t[0] == s[0]);
        assert(t.drop_first() =~= s.drop_first().push((k, v)));
        lemma_lookup_push(s.drop_first(), k, v, k2);
    }
}

/// A lookup that finds its key at a first-match position returns the value
/// stored there.
pub proof fn lemma_lookup_at_index<V>(s: Seq<(Seq<u8>, V)>, i: int)
    requires
        0 <= i < s.len(),
        forall|j: int| 0 <= j < i ==> s[j].0 != s[i].0,
    ensures
        spec_lookup(s, s[i].0) == Some(s[i].1),
    decreases s.len(),
{
    if i > 0 {
        assert(s.drop_first()[i - 1] == s[i]);
        assert(forall|j: int|
            0 <= j < i - 1 ==> #[trigger] s.drop_first()[j].0 != s.drop_first()[i - 1].0);
        lemma_lookup_at_index(s.drop_first(), i - 1);
    }
}

/// A key that matches no pair is absent.
pub proof fn lemma_lookup_absent<V>(s: Seq<(Seq<u8>, V)>, k: Seq<u8>)
    requires
        forall|j: int| 0 <= j < s.len() ==> s[j].0 != k,
    ensures
        spec_lookup(s, k) is None,
    decreases s.len(),
{
    if s.len() > 0 {
        assert(forall|j: int| 0 <= j < s.drop_first().len() ==> s.drop_first()[j].0 != k);
        lemma_lookup_absent(s.drop_first(), k);
    }
}

/// Replacing one value moves the sum by the difference of the values.
pub proof fn lemma_sum_update<K>(s: Seq<(K, u128)>, i: int, v: u128)
    requires
        0 <= i < s.len(),
    ensures
        spec_sum(s.update(i, (s[i].0, v))) == spec_sum(s) - s[i].1 + v,
    decreases s.len(),
{
    let t = s.update(i, (s[i].0, v));
    if i == 0 {
        assert(t.drop_first() =~= s.drop_first());
    } else {
        assert(t[0] == s[0]);
        assert(t.drop_first() =~= s.drop_first().update(i - 1, (s[i].0, v)));
        assert(s.drop_first()[i - 1] == s[i]);
        lemma_sum_update(s.drop_first(), i - 1, v);
    }
}

/// Appending a pair adds its value to the sum.
pub proof fn lemma_sum_push<K>(s: Seq<(K, u128)>, k: K, v: u128)
    ensures
        spec_sum(s.push((k, v))) == spec_sum(s) + v,
    decreases s.len(),
{
    let t = s.push((k, v));
    if s.len() == 0 {
        assert(t[0] == (k, v));
        assert(t.drop_first() =~= Seq::<(K, u128)>::empty());
        assert(spec_sum(Seq::<(K, u128)>::empty()) == 0);
        assert(spec_sum(t) == v + spec_sum(t.drop_first()));
    } else {
        assert(t[0] == s[0]);
        assert(t.drop_first() =~= s.drop_first().push((k, v)));
        lemma_sum_push(s.drop_first(), k, v);
    }
}

/// The sum of unsigned values is non-negative.
pub proof fn lemma_sum_non_negative<K>(s: Seq<(K, u128)>)
    ensures
        spec_sum(s) >= 0,
    decreases s.len(),
{
    if s.len() > 0 {
        lemma_sum_non_negative(s.drop_first());
    }
}

/// Any value a lookup can return is at most the sum of all values.
pub proof fn lemma_lookup_le_sum(s: Seq<(Seq<u8>, u128)>, k: Seq<u8>)
    requires
        spec_lookup(s, k) is Some,
    ensures
        spec_lookup(s, k)->Some_0 <= spec_sum(s),
    decreases s.len(),
{
    if s[0].0 == k {
        lemma_sum_non_negative(s.drop_first());
    } else {
        lemma_lookup_le_sum(s.drop_first(), k);
    }
}

} // verus!
