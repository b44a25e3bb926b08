//! Account identities as plain values.
//!
//! The surrounding runtime addresses accounts by 32-byte keys. The core
//! only ever stores, compares and orders them, so it holds a key as two
//! 128-bit halves, most significant first; the ordering below is the
//! byte-lexicographic order of the full 32-byte key.

use vstd::prelude::*;

verus! {

#[derive(Clone, Copy, Debug, PartialEq, Eq, Structural)]
pub struct AccountKey {
    /// The first sixteen bytes of the key, big-endian.
    pub hi: u128,
    /// The last sixteen bytes of the key, big-endian.
    pub lo: u128,
}

/// Byte-lexicographic `a <= b` on the full 32-byte keys.
pub open spec fn key_le(a: AccountKey, b: AccountKey) -> bool {
    a.hi < b.hi || (a.hi == b.hi && a.lo <= b.lo)
}

impl AccountKey {
    pub fn new(hi: u128, lo: u128) -> (r: Self)
        ensures
            r.hi == hi && r.lo == lo,
    {
        AccountKey { hi, lo }
    }

    pub fn zero() -> (r: Self)
        ensures
            r.hi == 0 && r.lo == 0,
    {
        AccountKey { hi: 0, lo: 0 }
    }

    pub fn le(&self, other: &Self) -> (r: bool)
        ensures
            r == key_le(*self, *other),
    {
        self.hi < other.hi || (self.hi == other.hi && self.lo <= other.lo)
    }

    pub fn same(&self, other: &Self) -> (r: bool)
        ensures
            r == (*self == *other),
    {
        self.hi == other.hi && self.lo == other.lo
    }
}

} // verus!
