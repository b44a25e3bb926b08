//! Structural checks on account headers and raw buffers.
//!
//! A buffer is only exposed through a typed view after its discriminant
//! matches the expected magic value; a brand-new buffer must be exactly
//! header-sized and all zero. These checks work on plain values and byte
//! slices; the runtime that owns the real account handles is outside.

use vstd::prelude::*;

use crate::account_key::AccountKey;
use crate::error::ManifestError;

verus! {

/// An account header that can vouch for its own discriminant.
pub trait ManifestAccount {
    /// Whether the stored discriminant is the expected magic value.
    spec fn discriminant_ok(self) -> bool;

    fn verify_discriminant(&self) -> (r: Result<(), ManifestError>)
        ensures
            match r {
                Ok(_) => self.discriminant_ok(),
                Err(e) => !self.discriminant_ok() && e == ManifestError::InvalidAccountData,
            },
    ;
}

/// The little-endian `u64` stored in the first eight bytes of a buffer,
/// where every header keeps its discriminant.
pub open spec fn le_u64_at(data: Seq<u8>, off: int) -> int {
    data[off] + data[off + 1] * 0x100 + data[off + 2] * 0x1_0000 + data[off + 3] * 0x100_0000
        + data[off + 4] * 0x1_0000_0000 + data[off + 5] * 0x100_0000_0000 + data[off + 6]
        * 0x1_0000_0000_0000 + data[off + 7] * 0x100_0000_0000_0000
}

/// Reads the discriminant from the head of a raw buffer.
pub fn read_discriminant(data: &[u8]) -> (r: Result<u64, ManifestError>)
    ensures
        match r {
            Ok(d) => data@.len() >= 8 && d == le_u64_at(data@, 0),
            Err(e) => data@.len() < 8 && e == ManifestError::InvalidAccountData,
        },
{
    if data.len() < 8 {
        return Err(ManifestError::InvalidAccountData);
    }
    let d: u64 = (data[0] as u64) + (data[1] as u64) * 0x100 + (data[2] as u64) * 0x1_0000 + (
    data[3] as u64) * 0x100_0000 + (data[4] as u64) * 0x1_0000_0000 + (data[5] as u64)
        * 0x100_0000_0000 + (data[6] as u64) * 0x1_0000_0000_0000 + (data[7] as u64)
        * 0x100_0000_0000_0000;
    Ok(d)
}

/// The big-endian 128-bit half of an account key stored at `off`.
pub open spec fn be_u128_at(data: Seq<u8>, off: int) -> int {
    data[off + 0] * 0x1000000000000000000000000000000 + data[off + 1] * 0x10000000000000000000000000000 + data[off + 2] * 0x100000000000000000000000000 + data[off + 3] * 0x1000000000000000000000000 + data[off + 4] * 0x10000000000000000000000 + data[off + 5] * 0x100000000000000000000 + data[off + 6] * 0x1000000000000000000 + data[off + 7] * 0x10000000000000000 + data[off + 8] * 0x100000000000000 + data[off + 9] * 0x1000000000000 + data[off + 10] * 0x10000000000 + data[off + 11] * 0x100000000 + data[off + 12] * 0x1000000 + data[off + 13] * 0x10000 + data[off + 14] * 0x100 + data[off + 15]
}

/// Reads the 32-byte account key stored at `off` (token accounts keep their
/// mint at the start and their owner right after it).
pub fn read_key_at(data: &[u8], off: usize) -> (r: Result<AccountKey, ManifestError>)
    ensures
        match r {
            Ok(key) => off + 32 <= data@.len() && key.hi == be_u128_at(data@, off as int)
                && key.lo == be_u128_at(data@, off as int + 16),
            Err(e) => off + 32 > data@.len() && e == ManifestError::InvalidAccountData,
        },
{
    if data.len() < 32 || off > data.len() - 32 {
        return Err(ManifestError::InvalidAccountData);
    }
    let hi: u128 = (data[off + 0] as u128) * 0x1000000000000000000000000000000 + (data[off + 1] as u128) * 0x10000000000000000000000000000 + (data[off + 2] as u128) * 0x100000000000000000000000000 + (data[off + 3] as u128) * 0x1000000000000000000000000 + (data[off + 4] as u128) * 0x10000000000000000000000 + (data[off + 5] as u128) * 0x100000000000000000000 + (data[off + 6] as u128) * 0x1000000000000000000 + (data[off + 7] as u128) * 0x10000000000000000 + (data[off + 8] as u128) * 0x100000000000000 + (data[off + 9] as u128) * 0x1000000000000 + (data[off + 10] as u128) * 0x10000000000 + (data[off + 11] as u128) * 0x100000000 + (data[off + 12] as u128) * 0x1000000 + (data[off + 13] as u128) * 0x10000 + (data[off + 14] as u128) * 0x100 + (data[off + 15] as u128);
    let lo: u128 = (data[off + 16] as u128) * 0x1000000000000000000000000000000 + (data[off + 17] as u128) * 0x10000000000000000000000000000 + (data[off + 18] as u128) * 0x100000000000000000000000000 + (data[off + 19] as u128) * 0x1000000000000000000000000 + (data[off + 20] as u128) * 0x10000000000000000000000 + (data[off + 21] as u128) * 0x100000000000000000000 + (data[off + 22] as u128) * 0x1000000000000000000 + (data[off + 23] as u128) * 0x10000000000000000 + (data[off + 24] as u128) * 0x100000000000000 + (data[off + 25] as u128) * 0x1000000000000 + (data[off + 26] as u128) * 0x10000000000 + (data[off + 27] as u128) * 0x100000000 + (data[off + 28] as u128) * 0x1000000 + (data[off + 29] as u128) * 0x10000 + (data[off + 30] as u128) * 0x100 + (data[off + 31] as u128);
    Ok(AccountKey { hi, lo })
}

/// Reads the little-endian `u64` at `off` (a token account keeps its
/// balance there).
pub fn read_le_u64_at(data: &[u8], off: usize) -> (r: Result<u64, ManifestError>)
    ensures
        match r {
            Ok(v) => off + 8 <= data@.len() && v == le_u64_at(data@, off as int),
            Err(e) => off + 8 > data@.len() && e == ManifestError::InvalidAccountData,
        },
{
    if data.len() < 8 || off > data.len() - 8 {
        return Err(ManifestError::InvalidAccountData);
    }
    let v: u64 = (data[off] as u64) + (data[off + 1] as u64) * 0x100 + (data[off + 2] as u64)
        * 0x1_0000 + (data[off + 3] as u64) * 0x100_0000 + (data[off + 4] as u64) * 0x1_0000_0000
        + (data[off + 5] as u64) * 0x100_0000_0000 + (data[off + 6] as u64) * 0x1_0000_0000_0000
        + (data[off + 7] as u64) * 0x100_0000_0000_0000;
    Ok(v)
}

/// A buffer about to be initialized must be exactly `expected_len` bytes
/// and hold nothing but zeros.
pub fn verify_uninitialized(data: &[u8], expected_len: usize) -> (r: Result<(), ManifestError>)
    ensures
        match r {
            Ok(_) => data@.len() == expected_len && (forall|i: int|
                0 <= i < data@.len() ==> data@[i] == 0),
            Err(e) => (data@.len() != expected_len || (exists|i: int|
                0 <= i < data@.len() && data@[i] != 0)) && e == ManifestError::InvalidAccountData,
        },
{
    if data.len() != expected_len {
        return Err(ManifestError::InvalidAccountData);
    }
    let mut i: usize = 0;
    while i < data.len()
        invariant
            0 <= i <= data@.len(),
            forall|j: int| 0 <= j < i as int ==> data@[j] == 0,
        decreases data@.len() - i,
    {
        if data[i] != 0 {
            return Err(ManifestError::InvalidAccountData);
        }
        i = i + 1;
    }
    Ok(())
}

} // verus!
