//! Order-book storage and matching core for the Manifest exchange.
//!
//! The crate keeps the whole book state in plain values: a block arena with a
//! free list, ordered index lists threaded through the arena by integer
//! indices, fixed-point price arithmetic with directional rounding, and the
//! read-only impact simulators that walk a book side under price-time
//! priority. Every operation carries a contract; the surrounding runtime
//! (account loading, token transfers, address derivation) stays outside.

use vstd::prelude::*;

pub mod account_key;
pub mod arena;
pub mod claimed_seat;
pub mod constants;
pub mod error;
pub mod global;
pub mod impact;
pub mod laws;
pub mod market;
pub mod ordered;
pub mod quantities;
pub mod resting_order;
pub mod utils;
pub mod validation;

verus! {

/// The program identity that seeds every account discriminant.
pub const PROGRAM_ID_BYTES: [u8; 32] = [
    5, 55, 164, 119, 56, 218, 37, 169, 136, 249, 100, 217, 155, 164, 58, 136, 207, 17, 135, 57,
    91, 106, 207, 20, 131, 245, 112, 34, 141, 128, 2, 178,
];

} // verus!
