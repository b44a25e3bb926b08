//! Sizes, sentinels and discriminants shared across the account types.

use vstd::prelude::*;

verus! {

// Account sizes in bytes: the fixed header that precedes the block region.
pub const MARKET_FIXED_SIZE: usize = 256;
pub const GLOBAL_FIXED_SIZE: usize = 96;

// Uniform block sizes for the dynamic region of each account kind.
pub const MARKET_BLOCK_SIZE: usize = 80;
pub const GLOBAL_BLOCK_SIZE: usize = 64;

/// An expiration slot of zero means the order never expires.
pub const NO_EXPIRATION_LAST_VALID_SLOT: u32 = 0;

/// Sentinel index denoting absence; never a valid block index.
pub const NIL: u32 = 0xFFFF_FFFF;

// Discriminants: the first eight bytes of the keccak digest of the program
// identity followed by the canonical type-name seed, read little-endian.
pub const MARKET_FIXED_DISCRIMINANT: u64 = 4859840929024028656;
pub const GLOBAL_FIXED_DISCRIMINANT: u64 = 10787423733276977665;

/// Gas prepayment for global orders (economic spam deterrent).
pub const GAS_DEPOSIT_LAMPORTS: u64 = 5_000;

/// Limit on the number of global seats available.
pub const MAX_GLOBAL_SEATS: u16 = 999;

} // verus!
