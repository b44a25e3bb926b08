//! Resting orders and their type state machine.

use vstd::prelude::*;

use crate::constants::NO_EXPIRATION_LAST_VALID_SLOT;
use crate::error::ManifestError;
use crate::quantities::{BaseAtoms, QuoteAtomsPerBaseAtom, multiply_rational_spec};

verus! {

/// Spread denominator for plain reverse orders.
pub const REVERSE_SPREAD_BASE: u32 = 100_000;

/// Spread denominator for tight reverse orders: finer granularity for
/// stable pairs.
pub const REVERSE_TIGHT_SPREAD_BASE: u32 = 100_000_000;

#[derive(Clone, Copy, Debug, PartialEq, Eq, Structural)]
pub enum OrderType {
    /// Normal limit order.
    Limit,
    /// Does not rest. Take only.
    ImmediateOrCancel,
    /// Fails if it would cross the orderbook.
    PostOnly,
    /// Post only, but backed by funds in the global account.
    Global,
    /// Rests permanently; when filled, re-quotes on the other side of the
    /// book at a spread-adjusted price.
    Reverse,
    /// A reverse order with a much tighter spread denominator.
    ReverseTight,
}

impl Default for OrderType {
    fn default() -> (r: Self)
        ensures
            r == OrderType::Limit,
    {
        OrderType::Limit
    }
}

impl OrderType {
    pub open spec fn is_reversible_spec(self) -> bool {
        self == OrderType::Reverse || self == OrderType::ReverseTight
    }

    pub fn is_reversible(self) -> (r: bool)
        ensures
            r == self.is_reversible_spec(),
    {
        match self {
            OrderType::Reverse => true,
            OrderType::ReverseTight => true,
            _ => false,
        }
    }
}

#[derive(Clone, Copy, Debug)]
pub struct RestingOrder {
    pub price: QuoteAtomsPerBaseAtom,
    pub num_base_atoms: BaseAtoms,
    /// Strictly increasing per market; records placement order.
    pub sequence_number: u64,
    /// Back-reference to the owner's seat block; a lookup key, not ownership.
    pub trader_index: u32,
    /// Slot after which the order no longer matches; zero means never.
    pub last_valid_slot: u32,
    pub is_bid: bool,
    pub order_type: OrderType,
    /// Spread for reverse orders, in units of the type's spread base.
    pub reverse_spread: u16,
}

/// True once `current_slot` has passed a non-zero expiration.
pub open spec fn is_expired_spec(o: RestingOrder, current_slot: u32) -> bool {
    o.last_valid_slot != NO_EXPIRATION_LAST_VALID_SLOT && o.last_valid_slot < current_slot
}

/// The price an order re-quotes at on the opposite side, scaled by one
/// minus its spread; `None` when the scaling overflows.
pub open spec fn reverse_price_spec(o: RestingOrder) -> Option<u128> {
    if o.order_type == OrderType::Reverse || o.order_type == OrderType::ReverseTight {
        let base: u32 = if o.order_type == OrderType::Reverse {
            REVERSE_SPREAD_BASE
        } else {
            REVERSE_TIGHT_SPREAD_BASE
        };
        if o.is_bid {
            multiply_rational_spec(o.price, base, (base - o.reverse_spread) as u32, false)
        } else {
            multiply_rational_spec(o.price, (base - o.reverse_spread) as u32, base, true)
        }
    } else {
        Some(o.price.inner)
    }
}

/// Lookup equality: same owner and type, and the same price, where
/// reversible orders also accept a price off by one in either direction so
/// frequent re-quotes coalesce into a single node.
pub open spec fn lookup_key_match_spec(a: RestingOrder, b: RestingOrder) -> bool {
    &&& a.trader_index == b.trader_index
    &&& a.order_type == b.order_type
    &&& if a.order_type.is_reversible_spec() {
        a.price.inner == b.price.inner || a.price.inner + 1 == b.price.inner || b.price.inner + 1
            == a.price.inner
    } else {
        a.price.inner == b.price.inner
    }
}

impl RestingOrder {
    /// Builds a resting order. Reverse orders exist to be permanent
    /// liquidity, so a reversible type with an expiration is rejected.
    pub fn new(
        trader_index: u32,
        num_base_atoms: BaseAtoms,
        price: QuoteAtomsPerBaseAtom,
        sequence_number: u64,
        last_valid_slot: u32,
        is_bid: bool,
        order_type: OrderType,
    ) -> (r: Result<Self, ManifestError>)
        ensures
            match r {
                Ok(o) => {
                    &&& !(order_type.is_reversible_spec() && last_valid_slot
                        != NO_EXPIRATION_LAST_VALID_SLOT)
                    &&& o == (RestingOrder {
                        price,
                        num_base_atoms,
                        sequence_number,
                        trader_index,
                        last_valid_slot,
                        is_bid,
                        order_type,
                        reverse_spread: 0u16,
                    })
                },
                Err(e) => {
                    &&& order_type.is_reversible_spec() && last_valid_slot
                        != NO_EXPIRATION_LAST_VALID_SLOT
                    &&& e == ManifestError::InvalidOrder
                },
            },
    {
        if order_type.is_reversible() && last_valid_slot != NO_EXPIRATION_LAST_VALID_SLOT {
            return Err(ManifestError::InvalidOrder);
        }
        Ok(
            RestingOrder {
                price,
                num_base_atoms,
                sequence_number,
                trader_index,
                last_valid_slot,
                is_bid,
                order_type,
                reverse_spread: 0,
            },
        )
    }

    pub fn get_trader_index(&self) -> (r: u32)
        ensures
            r == self.trader_index,
    {
        self.trader_index
    }

    pub fn get_num_base_atoms(&self) -> (r: BaseAtoms)
        ensures
            r == self.num_base_atoms,
    {
        self.num_base_atoms
    }

    pub fn get_price(&self) -> (r: QuoteAtomsPerBaseAtom)
        ensures
            r == self.price,
    {
        self.price
    }

    pub fn get_order_type(&self) -> (r: OrderType)
        ensures
            r == self.order_type,
    {
        self.order_type
    }

    pub fn is_global(&self) -> (r: bool)
        ensures
            r == (self.order_type == OrderType::Global),
    {
        self.order_type == OrderType::Global
    }

    pub fn is_reverse(&self) -> (r: bool)
        ensures
            r == self.order_type.is_reversible_spec(),
    {
        self.order_type.is_reversible()
    }

    pub fn is_reversible(&self) -> (r: bool)
        ensures
            r == self.order_type.is_reversible_spec(),
    {
        self.order_type.is_reversible()
    }

    /// The opposite-side price for a reverse order; the order's own price
    /// for every other type.
    pub fn reverse_price(&self) -> (r: Result<QuoteAtomsPerBaseAtom, ManifestError>)
        ensures
            match r {
                Ok(p) => reverse_price_spec(*self) == Some(p.inner),
                Err(e) => reverse_price_spec(*self) is None && e
                    == ManifestError::ArithmeticOverflow,
            },
    {
        let base: u32 = match self.order_type {
            OrderType::Reverse => REVERSE_SPREAD_BASE,
            OrderType::ReverseTight => REVERSE_TIGHT_SPREAD_BASE,
            _ => {
                return Ok(self.price);
            },
        };
        if self.is_bid {
            // Bid @P * (1 - spread) --> Ask @P, so the re-quote divides by
            // (1 - spread), rounding down.
            self.price.checked_multiply_rational(base, base - (self.reverse_spread as u32), false)
        } else {
            // Ask @P --> Bid @P * (1 - spread), rounding up.
            self.price.checked_multiply_rational(base - (self.reverse_spread as u32), base, true)
        }
    }

    pub fn get_reverse_spread(self) -> (r: u16)
        ensures
            r == self.reverse_spread,
    {
        self.reverse_spread
    }

    pub fn set_reverse_spread(&mut self, spread: u16)
        ensures
            *final(self) == (RestingOrder { reverse_spread: spread, ..*old(self) }),
    {
        self.reverse_spread = spread;
    }

    pub fn get_sequence_number(&self) -> (r: u64)
        ensures
            r == self.sequence_number,
    {
        self.sequence_number
    }

    pub fn is_expired(&self, current_slot: u32) -> (r: bool)
        ensures
            r == is_expired_spec(*self, current_slot),
    {
        self.last_valid_slot != NO_EXPIRATION_LAST_VALID_SLOT && self.last_valid_slot
            < current_slot
    }

    pub fn get_is_bid(&self) -> (r: bool)
        ensures
            r == self.is_bid,
    {
        self.is_bid
    }

    /// Shrinks the resting quantity after a partial fill.
    pub fn reduce(&mut self, size: BaseAtoms) -> (r: Result<(), ManifestError>)
        ensures
            match r {
                Ok(_) => size.atoms <= old(self).num_base_atoms.atoms && *final(self) == (
                RestingOrder {
                    num_base_atoms: BaseAtoms {
                        atoms: (old(self).num_base_atoms.atoms - size.atoms) as u64,
                    },
                    ..*old(self)
                }),
                Err(e) => size.atoms > old(self).num_base_atoms.atoms && *final(self) == *old(self)
                    && e == ManifestError::ArithmeticOverflow,
            },
    {
        match self.num_base_atoms.checked_sub(size) {
            Ok(n) => {
                self.num_base_atoms = n;
                Ok(())
            },
            Err(e) => Err(e),
        }
    }

    /// Grows the resting quantity; only needed when coalescing orders.
    pub fn increase(&mut self, size: BaseAtoms) -> (r: Result<(), ManifestError>)
        ensures
            match r {
                Ok(_) => old(self).num_base_atoms.atoms + size.atoms <= u64::MAX && *final(self)
                    == (RestingOrder {
                    num_base_atoms: BaseAtoms {
                        atoms: (old(self).num_base_atoms.atoms + size.atoms) as u64,
                    },
                    ..*old(self)
                }),
                Err(e) => old(self).num_base_atoms.atoms + size.atoms > u64::MAX && *final(self)
                    == *old(self) && e == ManifestError::ArithmeticOverflow,
            },
    {
        match self.num_base_atoms.checked_add(size) {
            Ok(n) => {
                self.num_base_atoms = n;
                Ok(())
            },
            Err(e) => Err(e),
        }
    }

    /// The equality that lookups use; see [`lookup_key_match_spec`].
    pub fn matches_lookup_key(&self, other: &RestingOrder) -> (r: bool)
        ensures
            r == lookup_key_match_spec(*self, *other),
    {
        if self.trader_index != other.trader_index || self.order_type != other.order_type {
            return false;
        }
        if self.order_type.is_reversible() {
            self.price.inner == other.price.inner || (other.price.inner > 0 && self.price.inner
                == other.price.inner - 1) || (self.price.inner > 0 && other.price.inner
                == self.price.inner - 1)
        } else {
            self.price.inner == other.price.inner
        }
    }
}

} // verus!
