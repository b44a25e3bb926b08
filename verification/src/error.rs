//! Typed results for every fatal condition in the core.
//!
//! Structural faults, arithmetic overflow and allocator exhaustion all
//! surface as a variant here; the caller layer maps them onto its own error
//! space and discards the call's mutations as a unit.

use vstd::prelude::*;

verus! {

#[derive(Clone, Copy, Debug, PartialEq, Eq, Structural)]
pub enum ManifestError {
    /// A checked quantity or price computation left the representable range.
    ArithmeticOverflow,
    /// The arena has no free block left; the backing buffer must grow first.
    CapacityExhausted,
    /// A buffer failed a structural check (discriminant, size, zeroing).
    InvalidAccountData,
    /// An account is owned by the wrong program.
    IllegalOwner,
    /// The trader already holds a seat in this market.
    AlreadyClaimedSeat,
    /// An order's fields violate a construction invariant.
    InvalidOrder,
}

} // verus!
