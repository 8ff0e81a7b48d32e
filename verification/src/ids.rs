//! Opaque identifiers: market ids and account addresses.
//!
//! Both are byte strings that the engine never interprets; it only compares
//! them for equality when looking records up. A market id is conventionally
//! 32 bytes, but nothing in the engine depends on its length.

use vstd::prelude::*;

verus! {

/// The identifier of one market. At most one pool exists per market id.
#[derive(Clone, Debug)]
pub struct MarketId {
    pub bytes: Vec<u8>,
}

impl View for MarketId {
    type V = Seq<u8>;

    closed spec fn view(&self) -> Seq<u8> {
        self.bytes@
    }
}

impl MarketId {
    /// Wraps raw bytes as a market id.
    pub fn new(bytes: Vec<u8>) -> (r: MarketId)
        ensures
            r@ == bytes@,
    {
        MarketId { bytes }
    }

    /// A fresh value holding the same bytes.
    pub fn duplicate(&self) -> (r: MarketId)
        ensures
            r@ == self@,
    {
        MarketId { bytes: copy_bytes(&self.bytes) }
    }

    /// Whether two market ids hold the same bytes.
    pub fn same_as(&self, other: &MarketId) -> (r: bool)
        ensures
            r == (self@ == other@),
    {
        bytes_equal(&self.bytes, &other.bytes)
    }
}

/// The identifier of one account: a trader, a liquidity provider, or a
/// configured role such as the admin.
#[derive(Clone, Debug)]
pub struct Address {
    pub bytes: Vec<u8>,
}

impl View for Address {
    type V = Seq<u8>;

    closed spec fn view(&self) -> Seq<u8> {
        self.bytes@
    }
}

impl Address {
    /// Wraps raw bytes as an address.
    pub fn new(bytes: Vec<u8>) -> (r: Address)
        ensures
            r@ == bytes@,
    {
        Address { bytes }
    }

    /// A fresh value holding the same bytes.
    pub fn duplicate(&self) -> (r: Address)
        ensures
            r@ == self@,
    {
        Address { bytes: copy_bytes(&self.bytes) }
    }

    /// Whether two addresses hold the same bytes.
    pub fn same_as(&self, other: &Address) -> (r: bool)
        ensures
            r == (self@ == other@),
    {
        bytes_equal(&self.bytes, &other.bytes)
    }
}

/// Byte-for-byte equality of two byte vectors.
fn bytes_equal(a: &Vec<u8>, b: &Vec<u8>) -> (r: bool)
    ensures
        r == (a@ == b@),
{
    if a.len() != b.len() {
        assert(a@ != b@) by {
            assert(a@.len() != b@.len());
        }
        return false;
    }
    let n: usize = a.len();
    let mut i: usize = 0;
    while i < n
        invariant
            n == a@.len(),
            n == b@.len(),
            i <= n,
            forall|j: int| 0 <= j < i ==> a@[j] == b@[j],
        decreases n - i,
    {
        if a[i] != b[i] {
            return false;
        }
        i = i + 1;
    }
    assert(a@ =~= b@);
    true
}

/// A fresh vector holding the same bytes.
fn copy_bytes(a: &Vec<u8>) -> (r: Vec<u8>)
    ensures
        r@ == a@,
{
    let n: usize = a.len();
    let mut out: Vec<u8> = Vec::new();
    let mut i: usize = 0;
    while i < n
        invariant
            n == a@.len(),
            i <= n,
            out@ =~= a@.subrange(0, i as int),
        decreases n - i,
    {
        out.push(a[i]);
        i = i + 1;
    }
    assert(out@ =~= a@);
    out
}

} // verus!
