//! Identities shared by the engines.

use vstd::prelude::*;

verus! {

broadcast use vstd::array::group_array_axioms;

/// An authenticated principal (a trader, liquidity provider, oracle or administrator).
///
/// The host proves who the caller is; the engines only compare identities.
#[derive(Clone, Copy, Debug, PartialEq, Eq, Structural)]
pub struct Address {
    pub id: u64,
}

impl Address {
    pub fn new(id: u64) -> (r: Address)
        ensures
            r.id == id,
    {
        Address { id }
    }
}

/// The 32-byte identifier of a market, shared between the engines.
#[derive(Clone, Copy, Debug, PartialEq, Eq)]
pub struct MarketId {
    pub bytes: [u8; 32],
}

impl MarketId {
    pub fn from_array(bytes: [u8; 32]) -> (r: MarketId)
        ensures
            r.bytes == bytes,
    {
        MarketId { bytes }
    }

    /// Byte-wise comparison of two identifiers.
    pub fn same(&self, other: &MarketId) -> (r: bool)
        ensures
            r == (*self == *other),
    {
        let mut i: usize = 0;
        while i < 32
            invariant
                i <= 32,
                forall|j: int| 0 <= j < i ==> self.bytes[j] == other.bytes[j],
            decreases 32 - i,
        {
            if self.bytes[i] != other.bytes[i] {
                return false;
            }
            i = i + 1;
        }
        proof {
            assert(self.bytes =~= other.bytes);
        }
        true
    }
}

} // verus!
