//! Market accounts: two book sides, the seat registry, and one shared arena.
//!
//! A market's dynamic region is a single arena whose blocks hold either a
//! resting order or a claimed seat; the bids, asks and seats indices thread
//! through it disjointly, and every reclaimed block is reusable by any of
//! the three. Bids keep the highest price first, asks the lowest; entries of
//! equal price keep their arrival order.

use vstd::prelude::*;

use crate::account_key::{AccountKey, key_le};
use crate::arena::Arena;
use crate::claimed_seat::ClaimedSeat;
use crate::constants::{MARKET_FIXED_DISCRIMINANT, NIL};
use crate::error::ManifestError;
use crate::ordered::{
    OrderedList, OrderedPayload, lemma_insert_contains, lemma_list_frame, lemma_remove_contains,
    list_collect, list_insert, list_lookup, list_remove, list_wf, payloads,
};
use crate::quantities::{BaseAtoms, QuoteAtoms};
use crate::resting_order::{RestingOrder, lookup_key_match_spec};
use crate::validation::ManifestAccount;

verus! {

#[derive(Clone, Copy, Debug)]
pub enum MarketPayload {
    Order(RestingOrder),
    Seat(ClaimedSeat),
}

/// Book priority: bids sort before asks, bids descending by price, asks
/// ascending; price ties leave the order unresolved so arrival order wins.
pub open spec fn order_before(a: RestingOrder, b: RestingOrder) -> bool {
    if a.is_bid != b.is_bid {
        a.is_bid
    } else if a.is_bid {
        a.price.inner >= b.price.inner
    } else {
        a.price.inner <= b.price.inner
    }
}

impl OrderedPayload for MarketPayload {
    open spec fn before_spec(self, other: Self) -> bool {
        match (self, other) {
            (MarketPayload::Order(x), MarketPayload::Order(y)) => order_before(x, y),
            (MarketPayload::Seat(x), MarketPayload::Seat(y)) => key_le(x.trader, y.trader),
            (MarketPayload::Order(_), MarketPayload::Seat(_)) => true,
            (MarketPayload::Seat(_), MarketPayload::Order(_)) => false,
        }
    }

    open spec fn key_match_spec(self, other: Self) -> bool {
        match (self, other) {
            (MarketPayload::Order(x), MarketPayload::Order(y)) => lookup_key_match_spec(x, y),
            (MarketPayload::Seat(x), MarketPayload::Seat(y)) => x.trader == y.trader,
            _ => false,
        }
    }

    proof fn lemma_before_total(a: Self, b: Self) {
    }

    proof fn lemma_before_trans(a: Self, b: Self, c: Self) {
    }

    fn before(&self, other: &Self) -> (r: bool) {
        match (self, other) {
            (MarketPayload::Order(x), MarketPayload::Order(y)) => {
                if x.is_bid != y.is_bid {
                    x.is_bid
                } else if x.is_bid {
                    x.price.inner >= y.price.inner
                } else {
                    x.price.inner <= y.price.inner
                }
            },
            (MarketPayload::Seat(x), MarketPayload::Seat(y)) => x.trader.le(&y.trader),
            (MarketPayload::Order(_), MarketPayload::Seat(_)) => true,
            (MarketPayload::Seat(_), MarketPayload::Order(_)) => false,
        }
    }

    fn key_match(&self, other: &Self) -> (r: bool) {
        match (self, other) {
            (MarketPayload::Order(x), MarketPayload::Order(y)) => x.matches_lookup_key(y),
            (MarketPayload::Seat(x), MarketPayload::Seat(y)) => x.trader.same(&y.trader),
            _ => false,
        }
    }
}

/// The fixed header of a market account.
#[derive(Clone, Copy, Debug)]
pub struct MarketFixed {
    /// Discriminant identifying this type of account.
    pub discriminant: u64,
    pub version: u8,
    pub base_mint_decimals: u8,
    pub quote_mint_decimals: u8,
    pub base_vault_bump: u8,
    pub quote_vault_bump: u8,
    pub base_mint: AccountKey,
    pub quote_mint: AccountKey,
    pub base_vault: AccountKey,
    pub quote_vault: AccountKey,
    /// The sequence number of the next order.
    pub order_sequence_number: u64,
    /// Lifetime quote volume; advisory only, may overflow.
    pub quote_volume: QuoteAtoms,
}

impl crate::utils::TypeName for MarketFixed {
    open spec fn name_spec() -> Seq<char> {
        "manifest::state::market::MarketFixed"@
    }

    fn canonical_name() -> (r: &'static str) {
        "manifest::state::market::MarketFixed"
    }
}

impl ManifestAccount for MarketFixed {
    open spec fn discriminant_ok(self) -> bool {
        self.discriminant == MARKET_FIXED_DISCRIMINANT
    }

    fn verify_discriminant(&self) -> (r: Result<(), ManifestError>) {
        if self.discriminant == MARKET_FIXED_DISCRIMINANT {
            Ok(())
        } else {
            Err(ManifestError::InvalidAccountData)
        }
    }
}

impl MarketFixed {
    pub fn get_base_mint(&self) -> (r: &AccountKey)
        ensures
            *r == self.base_mint,
    {
        &self.base_mint
    }

    pub fn get_quote_mint(&self) -> (r: &AccountKey)
        ensures
            *r == self.quote_mint,
    {
        &self.quote_mint
    }

    pub fn get_base_vault(&self) -> (r: &AccountKey)
        ensures
            *r == self.base_vault,
    {
        &self.base_vault
    }

    pub fn get_quote_vault(&self) -> (r: &AccountKey)
        ensures
            *r == self.quote_vault,
    {
        &self.quote_vault
    }

    pub fn get_base_mint_decimals(&self) -> (r: u8)
        ensures
            r == self.base_mint_decimals,
    {
        self.base_mint_decimals
    }

    pub fn get_quote_mint_decimals(&self) -> (r: u8)
        ensures
            r == self.quote_mint_decimals,
    {
        self.quote_mint_decimals
    }

    pub fn get_base_vault_bump(&self) -> (r: u8)
        ensures
            r == self.base_vault_bump,
    {
        self.base_vault_bump
    }

    pub fn get_quote_vault_bump(&self) -> (r: u8)
        ensures
            r == self.quote_vault_bump,
    {
        self.quote_vault_bump
    }

    pub fn get_quote_volume(&self) -> (r: QuoteAtoms)
        ensures
            r == self.quote_volume,
    {
        self.quote_volume
    }
}

/// A whole market: fixed header plus the dynamic block region.
pub struct Market {
    pub fixed: MarketFixed,
    pub arena: Arena<MarketPayload>,
    pub bids: OrderedList,
    pub asks: OrderedList,
    pub seats: OrderedList,
}

/// No block index appears in both lists.
pub open spec fn lists_disjoint(l1: OrderedList, l2: OrderedList) -> bool {
    forall|j: int, k: int|
        0 <= j < l1.elems@.len() && 0 <= k < l2.elems@.len() ==> #[trigger] l1.elems@[j]
            != #[trigger] l2.elems@[k]
}

impl Market {
    /// The resting orders of one side, best first.
    pub open spec fn side_view(self, is_bid: bool) -> Seq<RestingOrder> {
        let l = if is_bid {
            self.bids
        } else {
            self.asks
        };
        payloads(l, self.arena).map(|_k: int, p: MarketPayload| p->Order_0)
    }

    pub open spec fn bids_view(self) -> Seq<RestingOrder> {
        self.side_view(true)
    }

    pub open spec fn asks_view(self) -> Seq<RestingOrder> {
        self.side_view(false)
    }

    /// The claimed seats, ordered by trader key.
    pub open spec fn seats_view(self) -> Seq<ClaimedSeat> {
        payloads(self.seats, self.arena).map(|_k: int, p: MarketPayload| p->Seat_0)
    }

    /// The trader seated at block `i`.
    pub open spec fn seat_trader_of(self, i: u32) -> AccountKey {
        self.arena.payload_of(i)->Seat_0.trader
    }

    pub open spec fn is_seat_index(self, i: u32) -> bool {
        self.seats.elems@.contains(i)
    }

    pub open spec fn is_order_index(self, i: u32) -> bool {
        self.bids.elems@.contains(i) || self.asks.elems@.contains(i)
    }

    pub open spec fn has_seat(self, trader: AccountKey) -> bool {
        exists|k: int| 0 <= k < self.seats_view().len() && self.seats_view()[k].trader == trader
    }

    /// Every entry of a side is an order of that side whose seat reference
    /// is a live seat block.
    pub open spec fn side_ok(self, l: OrderedList, is_bid: bool) -> bool {
        forall|k: int|
            0 <= k < l.elems@.len() ==> {
                let p = #[trigger] payloads(l, self.arena)[k];
                &&& p is Order
                &&& p->Order_0.is_bid == is_bid
                &&& self.seats.elems@.contains(p->Order_0.trader_index)
            }
    }

    /// Every seat entry is a seat, and no trader holds two seats.
    pub open spec fn seats_ok(self) -> bool {
        &&& (forall|k: int|
            0 <= k < self.seats.elems@.len() ==> (#[trigger] payloads(self.seats, self.arena)[k])
                is Seat)
        &&& (forall|j: int, k: int|
            0 <= j < k < self.seats.elems@.len() ==> payloads(self.seats, self.arena)[j]->Seat_0.trader
                != payloads(self.seats, self.arena)[k]->Seat_0.trader)
    }

    /// Every live block belongs to exactly one of the three indices.
    pub open spec fn partition_ok(self) -> bool {
        &&& (forall|i: u32|
            #[trigger] self.arena.is_live(i) ==> self.bids.elems@.contains(i)
                || self.asks.elems@.contains(i) || self.seats.elems@.contains(i))
        &&& lists_disjoint(self.bids, self.asks)
        &&& lists_disjoint(self.bids, self.seats)
        &&& lists_disjoint(self.asks, self.seats)
    }

    pub open spec fn inv(self) -> bool {
        &&& self.arena.wf()
        &&& list_wf(self.bids, self.arena)
        &&& list_wf(self.asks, self.arena)
        &&& list_wf(self.seats, self.arena)
        &&& self.side_ok(self.bids, true)
        &&& self.side_ok(self.asks, false)
        &&& self.seats_ok()
        &&& self.partition_ok()
    }

    /// An empty market over a buffer of `capacity_blocks` blocks.
    pub fn new(
        base_mint: AccountKey,
        quote_mint: AccountKey,
        base_mint_decimals: u8,
        quote_mint_decimals: u8,
        base_vault: AccountKey,
        base_vault_bump: u8,
        quote_vault: AccountKey,
        quote_vault_bump: u8,
        capacity_blocks: u32,
    ) -> (r: Market)
        requires
            capacity_blocks < NIL,
        ensures
            r.inv(),
            r.fixed.discriminant == MARKET_FIXED_DISCRIMINANT,
            r.fixed.base_mint == base_mint,
            r.fixed.quote_mint == quote_mint,
            r.fixed.base_vault == base_vault,
            r.fixed.quote_vault == quote_vault,
            r.bids_view().len() == 0,
            r.asks_view().len() == 0,
            r.seats_view().len() == 0,
            r.arena.allocated() == 0,
            r.arena.capacity() == capacity_blocks,
    {
        let market = Market {
            fixed: MarketFixed {
                discriminant: MARKET_FIXED_DISCRIMINANT,
                version: 0,
                base_mint_decimals,
                quote_mint_decimals,
                base_vault_bump,
                quote_vault_bump,
                base_mint,
                quote_mint,
                base_vault,
                quote_vault,
                order_sequence_number: 0,
                quote_volume: QuoteAtoms { atoms: 0 },
            },
            arena: Arena::new(capacity_blocks),
            bids: OrderedList::new(),
            asks: OrderedList::new(),
            seats: OrderedList::new(),
        };
        market
    }

    /// Whether one more node can be indexed without growing the buffer.
    pub fn has_free_block(&self) -> (r: bool)
        requires
            self.inv(),
        ensures
            r == self.arena.can_allocate(),
    {
        if self.arena.has_free_head() {
            true
        } else {
            self.arena.num_allocated < self.arena.blocks.len() as u32
        }
    }

    /// Whether an operation that must remove and reinsert a node can commit
    /// to both halves before touching anything.
    pub fn has_two_free_blocks(&self) -> (r: bool)
        requires
            self.inv(),
        ensures
            r == (self.arena.free_count() >= 2 || (self.arena.free_count() >= 1 && self.arena.allocated()
                + 1 <= self.arena.capacity()) || self.arena.allocated() + 2
                <= self.arena.capacity()),
    {
        if self.arena.has_two_free() {
            return true;
        }
        if self.arena.has_free_head() {
            return self.arena.num_allocated < self.arena.blocks.len() as u32;
        }
        self.arena.num_allocated < u32::MAX && self.arena.num_allocated + 1 < self.arena.blocks.len() as u32
    }

    /// The key of the trader seated at block `index`.
    pub fn get_trader_key_by_index(&self, index: u32) -> (r: AccountKey)
        requires
            self.inv(),
            self.is_seat_index(index),
        ensures
            r == self.seat_trader_of(index),
    {
        proof {
            let k = choose|k: int|
                0 <= k < self.seats.elems@.len() && self.seats.elems@[k] == index;
            assert(payloads(self.seats, self.arena)[k] is Seat);
        }
        match self.arena.get_payload(index) {
            MarketPayload::Seat(s) => s.trader,
            _ => vstd::pervasive::unreached(),
        }
    }

    /// Claims the unique seat for `trader`; fails if the trader already
    /// holds one or no block is left.
    #[verifier::rlimit(100)]
    pub fn claim_seat(&mut self, trader: AccountKey) -> (r: Result<u32, ManifestError>)
        requires
            old(self).inv(),
        ensures
            final(self).inv(),
            final(self).fixed == old(self).fixed,
            final(self).bids_view() == old(self).bids_view(),
            final(self).asks_view() == old(self).asks_view(),
            match r {
                Ok(idx) => {
                    &&& !old(self).has_seat(trader)
                    &&& final(self).has_seat(trader)
                    &&& final(self).is_seat_index(idx)
                    &&& final(self).arena.is_live(idx)
                    &&& final(self).seat_trader_of(idx) == trader
                    &&& (exists|pos: int|
                        0 <= pos <= old(self).seats_view().len() && final(self).seats_view()
                            == #[trigger] old(self).seats_view().insert(
                            pos,
                            ClaimedSeat {
                                trader,
                                base_withdrawable_balance: crate::quantities::BaseAtoms {
                                    atoms: 0,
                                },
                                quote_withdrawable_balance: QuoteAtoms { atoms: 0 },
                                quote_volume: QuoteAtoms { atoms: 0 },
                            },
                        ))
                },
                Err(e) => {
                    &&& *final(self) == *old(self)
                    &&& (e == ManifestError::AlreadyClaimedSeat <==> old(self).has_seat(trader))
                    &&& (e != ManifestError::AlreadyClaimedSeat ==> e
                        == ManifestError::CapacityExhausted && !old(self).arena.can_allocate())
                },
            },
    {
        let seat = ClaimedSeat::new_empty(trader);
        let probe = MarketPayload::Seat(seat);
        let found: u32 = list_lookup(&self.seats, &self.arena, &probe);
        if found != NIL {
            proof {
                let j = choose|j: int|
                    0 <= j < self.seats.elems@.len() && self.seats.elems@[j] == found && payloads(
                        self.seats,
                        self.arena,
                    )[j].key_match_spec(probe) && (forall|j2: int|
                        0 <= j2 < j ==> !payloads(self.seats, self.arena)[j2].key_match_spec(
                            probe,
                        ));
                assert(self.seats_view()[j].trader == trader);
            }
            return Err(ManifestError::AlreadyClaimedSeat);
        }
        proof {
            if old(self).has_seat(trader) {
                let k = choose|k: int|
                    0 <= k < self.seats_view().len() && self.seats_view()[k].trader == trader;
                assert(payloads(self.seats, self.arena)[k].key_match_spec(probe));
                assert(false);
            }
        }
        let ghost pre = *self;
        let (res, pos_g) = list_insert(&mut self.seats, &mut self.arena, probe);
        let idx: u32 = match res {
            Ok(idx) => idx,
            Err(e) => {
                proof {
                    assert(*final(self) == *old(self));
                }
                return Err(e);
            },
        };
        proof {
            lemma_seat_insert_reestablishes(pre, *self, seat, trader, idx, pos_g@);
        }
        Ok(idx)
    }
}

impl Market {
    /// Rests `order` on its side of the book, behind every entry of equal
    /// or better priority, so equal prices match in arrival order.
    pub fn insert_order(&mut self, order: RestingOrder) -> (r: Result<u32, ManifestError>)
        requires
            old(self).inv(),
            old(self).is_seat_index(order.trader_index),
        ensures
            final(self).inv(),
            final(self).fixed == old(self).fixed,
            final(self).seats_view() == old(self).seats_view(),
            final(self).side_view(!order.is_bid) == old(self).side_view(!order.is_bid),
            r is Ok <==> old(self).arena.can_allocate(),
            match r {
                Ok(idx) => {
                    &&& final(self).arena.is_live(idx)
                    &&& final(self).is_order_index(idx)
                    &&& final(self).arena.payload_of(idx) == MarketPayload::Order(order)
                    &&& final(self).arena.allocated() - final(self).arena.free_count() == old(
                        self,
                    ).arena.allocated() - old(self).arena.free_count() + 1
                    &&& (exists|pos: int|
                        {
                            &&& 0 <= pos <= old(self).side_view(order.is_bid).len()
                            &&& final(self).side_view(order.is_bid) == #[trigger] old(
                                self,
                            ).side_view(order.is_bid).insert(pos, order)
                            &&& (forall|j: int|
                                0 <= j < pos ==> order_before(
                                    old(self).side_view(order.is_bid)[j],
                                    order,
                                ))
                            &&& (pos < old(self).side_view(order.is_bid).len() ==> !order_before(
                                old(self).side_view(order.is_bid)[pos],
                                order,
                            ))
                        })
                },
                Err(e) => {
                    &&& *final(self) == *old(self)
                    &&& e == ManifestError::CapacityExhausted
                },
            },
    {
        if order.get_is_bid() {
            let (res, pos_g) = self.insert_bid(order);
            proof {
                if res is Ok {
                    assert(old(self).side_view(order.is_bid) == old(self).bids_view());
                    assert(self.side_view(order.is_bid) == old(self).side_view(
                        order.is_bid,
                    ).insert(pos_g@, order));
                }
            }
            res
        } else {
            let (res, pos_g) = self.insert_ask(order);
            proof {
                if res is Ok {
                    assert(old(self).side_view(order.is_bid) == old(self).asks_view());
                    assert(self.side_view(order.is_bid) == old(self).side_view(
                        order.is_bid,
                    ).insert(pos_g@, order));
                }
            }
            res
        }
    }

    #[verifier::rlimit(100)]
    #[verifier::spinoff_prover]
    fn insert_bid(&mut self, order: RestingOrder) -> (r: (Result<u32, ManifestError>, Ghost<int>))
        requires
            old(self).inv(),
            old(self).is_seat_index(order.trader_index),
            order.is_bid,
        ensures
            final(self).inv(),
            final(self).fixed == old(self).fixed,
            final(self).seats_view() == old(self).seats_view(),
            final(self).asks_view() == old(self).asks_view(),
            r.0 is Ok <==> old(self).arena.can_allocate(),
            match r.0 {
                Ok(idx) => {
                    &&& final(self).arena.is_live(idx)
                    &&& final(self).is_order_index(idx)
                    &&& final(self).arena.payload_of(idx) == MarketPayload::Order(order)
                    &&& final(self).arena.allocated() - final(self).arena.free_count() == old(
                        self,
                    ).arena.allocated() - old(self).arena.free_count() + 1
                    &&& ({
                        let pos = r.1@;
                        &&& 0 <= pos <= old(self).bids_view().len()
                        &&& final(self).bids_view() == old(self).bids_view().insert(pos, order)
                        &&& (forall|j: int|
                            0 <= j < pos ==> order_before(old(self).bids_view()[j], order))
                        &&& (pos < old(self).bids_view().len() ==> !order_before(
                            old(self).bids_view()[pos],
                            order,
                        ))
                    })
                },
                Err(e) => {
                    &&& *final(self) == *old(self)
                    &&& e == ManifestError::CapacityExhausted
                },
            },
    {
        let payload = MarketPayload::Order(order);
        let (res, pos_g) = list_insert(&mut self.bids, &mut self.arena, payload);
        let idx: u32 = match res {
            Ok(idx) => idx,
            Err(e) => {
                proof {
                    assert(*final(self) == *old(self));
                }
                return (Err(e), Ghost(0int));
            },
        };
        proof {
            lemma_side_insert_reestablishes(*old(self), *self, order, idx, pos_g@);
            assert(old(self).side_view(order.is_bid) == old(self).bids_view());
            assert(self.side_view(order.is_bid) == self.bids_view());
            assert(old(self).side_view(!order.is_bid) == old(self).asks_view());
            assert(self.side_view(!order.is_bid) == self.asks_view());
            assert(self.bids_view() == old(self).bids_view().insert(pos_g@, order));
            assert forall|j: int| 0 <= j < pos_g@ implies order_before(
                old(self).bids_view()[j],
                order,
            ) by {
                assert(order_before(old(self).side_view(order.is_bid)[j], order));
            }
            if pos_g@ < old(self).bids_view().len() {
                assert(!order_before(old(self).side_view(order.is_bid)[pos_g@], order));
            }
            assert(self.bids.elems@[pos_g@] == idx);
            assert(self.arena.payload_of(idx) == payloads(self.bids, self.arena)[pos_g@]);
        }
        (Ok(idx), pos_g)
    }

    #[verifier::rlimit(100)]
    #[verifier::spinoff_prover]
    fn insert_ask(&mut self, order: RestingOrder) -> (r: (Result<u32, ManifestError>, Ghost<int>))
        requires
            old(self).inv(),
            old(self).is_seat_index(order.trader_index),
            !order.is_bid,
        ensures
            final(self).inv(),
            final(self).fixed == old(self).fixed,
            final(self).seats_view() == old(self).seats_view(),
            final(self).bids_view() == old(self).bids_view(),
            r.0 is Ok <==> old(self).arena.can_allocate(),
            match r.0 {
                Ok(idx) => {
                    &&& final(self).arena.is_live(idx)
                    &&& final(self).is_order_index(idx)
                    &&& final(self).arena.payload_of(idx) == MarketPayload::Order(order)
                    &&& final(self).arena.allocated() - final(self).arena.free_count() == old(
                        self,
                    ).arena.allocated() - old(self).arena.free_count() + 1
                    &&& ({
                        let pos = r.1@;
                        &&& 0 <= pos <= old(self).asks_view().len()
                        &&& final(self).asks_view() == old(self).asks_view().insert(pos, order)
                        &&& (forall|j: int|
                            0 <= j < pos ==> order_before(old(self).asks_view()[j], order))
                        &&& (pos < old(self).asks_view().len() ==> !order_before(
                            old(self).asks_view()[pos],
                            order,
                        ))
                    })
                },
                Err(e) => {
                    &&& *final(self) == *old(self)
                    &&& e == ManifestError::CapacityExhausted
                },
            },
    {
        let payload = MarketPayload::Order(order);
        let (res, pos_g) = list_insert(&mut self.asks, &mut self.arena, payload);
        let idx: u32 = match res {
            Ok(idx) => idx,
            Err(e) => {
                proof {
                    assert(*final(self) == *old(self));
                }
                return (Err(e), Ghost(0int));
            },
        };
        proof {
            lemma_side_insert_reestablishes(*old(self), *self, order, idx, pos_g@);
            assert(old(self).side_view(order.is_bid) == old(self).asks_view());
            assert(self.side_view(order.is_bid) == self.asks_view());
            assert(old(self).side_view(!order.is_bid) == old(self).bids_view());
            assert(self.side_view(!order.is_bid) == self.bids_view());
            assert(self.asks_view() == old(self).asks_view().insert(pos_g@, order));
            assert forall|j: int| 0 <= j < pos_g@ implies order_before(
                old(self).asks_view()[j],
                order,
            ) by {
                assert(order_before(old(self).side_view(order.is_bid)[j], order));
            }
            if pos_g@ < old(self).asks_view().len() {
                assert(!order_before(old(self).side_view(order.is_bid)[pos_g@], order));
            }
            assert(self.asks.elems@[pos_g@] == idx);
            assert(self.arena.payload_of(idx) == payloads(self.asks, self.arena)[pos_g@]);
        }
        (Ok(idx), pos_g)
    }


    /// Unlinks the resting order at block `index` and recycles its block.
    pub fn remove_order(&mut self, index: u32)
        requires
            old(self).inv(),
            old(self).is_order_index(index),
        ensures
            final(self).inv(),
            final(self).fixed == old(self).fixed,
            final(self).seats_view() == old(self).seats_view(),
            final(self).arena.allocated() == old(self).arena.allocated(),
            final(self).arena.free_count() == old(self).arena.free_count() + 1,
            !final(self).arena.is_live(index),
            ({
                let removed = old(self).arena.payload_of(index)->Order_0;
                &&& final(self).side_view(!removed.is_bid) == old(self).side_view(
                    !removed.is_bid,
                )
                &&& (exists|pos: int|
                    {
                        &&& 0 <= pos < old(self).side_view(removed.is_bid).len()
                        &&& old(self).side_view(removed.is_bid)[pos] == removed
                        &&& final(self).side_view(removed.is_bid) == #[trigger] old(
                            self,
                        ).side_view(removed.is_bid).remove(pos)
                    })
            }),
    {
        let ghost pre = *self;
        proof {
            if pre.bids.elems@.contains(index) {
                let k = choose|k: int|
                    0 <= k < pre.bids.elems@.len() && pre.bids.elems@[k] == index;
                assert(payloads(pre.bids, pre.arena)[k] is Order);
                assert(payloads(pre.bids, pre.arena)[k]->Order_0.is_bid == true);
            } else {
                let k = choose|k: int|
                    0 <= k < pre.asks.elems@.len() && pre.asks.elems@[k] == index;
                assert(payloads(pre.asks, pre.arena)[k] is Order);
                assert(payloads(pre.asks, pre.arena)[k]->Order_0.is_bid == false);
            }
        }
        let is_bid: bool = match self.arena.get_payload(index) {
            MarketPayload::Order(o) => o.is_bid,
            _ => vstd::pervasive::unreached(),
        };
        if is_bid {
            proof {
                if !pre.bids.elems@.contains(index) {
                    let k = choose|k: int|
                        0 <= k < pre.asks.elems@.len() && pre.asks.elems@[k] == index;
                    assert(false);
                }
            }
            let pos_g = list_remove(&mut self.bids, &mut self.arena, index);
            proof {
                lemma_side_remove_reestablishes(pre, *self, index, pos_g@, true);
            }
        } else {
            proof {
                if !pre.asks.elems@.contains(index) {
                    let k = choose|k: int|
                        0 <= k < pre.bids.elems@.len() && pre.bids.elems@[k] == index;
                    assert(false);
                }
            }
            let pos_g = list_remove(&mut self.asks, &mut self.arena, index);
            proof {
                lemma_side_remove_reestablishes(pre, *self, index, pos_g@, false);
            }
        }
    }
}

/// Re-establishes the market invariant after a fresh order block joined one
/// book side, given the footprint that `list_insert` reports.
#[verifier::rlimit(100)]
proof fn lemma_side_insert_reestablishes(
    pre: Market,
    post: Market,
    order: RestingOrder,
    idx: u32,
    pos: int,
)
    requires
        pre.inv(),
        pre.seats.elems@.contains(order.trader_index),
        post.fixed == pre.fixed,
        post.seats == pre.seats,
        post.arena.wf(),
        (if order.is_bid {
            &&& post.asks == pre.asks
            &&& list_wf(post.bids, post.arena)
            &&& 0 <= pos <= pre.bids.elems@.len()
            &&& post.bids.elems@ == pre.bids.elems@.insert(pos, idx)
            &&& payloads(post.bids, post.arena) == payloads(pre.bids, pre.arena).insert(
                pos,
                MarketPayload::Order(order),
            )
            &&& (forall|j: int|
                0 <= j < pos ==> payloads(pre.bids, pre.arena)[j].before_spec(
                    MarketPayload::Order(order),
                ))
            &&& (pos < pre.bids.elems@.len() ==> !payloads(pre.bids, pre.arena)[pos].before_spec(
                MarketPayload::Order(order),
            ))
            &&& (forall|i: u32|
                pre.arena.is_live(i) && !pre.bids.elems@.contains(i)
                    ==> #[trigger] post.arena.blocks@[i as int] == pre.arena.blocks@[i as int])
        } else {
            &&& post.bids == pre.bids
            &&& list_wf(post.asks, post.arena)
            &&& 0 <= pos <= pre.asks.elems@.len()
            &&& post.asks.elems@ == pre.asks.elems@.insert(pos, idx)
            &&& payloads(post.asks, post.arena) == payloads(pre.asks, pre.arena).insert(
                pos,
                MarketPayload::Order(order),
            )
            &&& (forall|j: int|
                0 <= j < pos ==> payloads(pre.asks, pre.arena)[j].before_spec(
                    MarketPayload::Order(order),
                ))
            &&& (pos < pre.asks.elems@.len() ==> !payloads(pre.asks, pre.arena)[pos].before_spec(
                MarketPayload::Order(order),
            ))
            &&& (forall|i: u32|
                pre.arena.is_live(i) && !pre.asks.elems@.contains(i)
                    ==> #[trigger] post.arena.blocks@[i as int] == pre.arena.blocks@[i as int])
        }),
        !pre.arena.is_live(idx),
        post.arena.is_live(idx),
        forall|i: u32| pre.arena.is_live(i) ==> #[trigger] post.arena.is_live(i),
        forall|i: u32| #[trigger] post.arena.is_live(i) ==> pre.arena.is_live(i) || i == idx,
        post.arena.num_allocated >= pre.arena.num_allocated,
        post.arena.blocks@.len() >= pre.arena.blocks@.len(),
    ensures
        post.inv(),
        post.seats_view() == pre.seats_view(),
        post.side_view(!order.is_bid) == pre.side_view(!order.is_bid),
        post.side_view(order.is_bid) == pre.side_view(order.is_bid).insert(pos, order),
        forall|j: int| 0 <= j < pos ==> order_before(pre.side_view(order.is_bid)[j], order),
        pos < pre.side_view(order.is_bid).len() ==> !order_before(
            pre.side_view(order.is_bid)[pos],
            order,
        ),
        post.is_order_index(idx),
{
    let payload = MarketPayload::Order(order);
    let target_pre = if order.is_bid {
        pre.bids
    } else {
        pre.asks
    };
    let target_post = if order.is_bid {
        post.bids
    } else {
        post.asks
    };
    let other = if order.is_bid {
        pre.asks
    } else {
        pre.bids
    };
    lemma_insert_contains(target_pre.elems@, pos, idx);
    // The untouched side and the seats are framed: their blocks are live
    // and outside the target side.
    assert forall|k: int|
        0 <= k < other.elems@.len() implies post.arena.blocks@[#[trigger] other.elems@[k] as int]
        == pre.arena.blocks@[other.elems@[k] as int] by {
        assert(pre.arena.is_live(other.elems@[k]));
        if target_pre.elems@.contains(other.elems@[k]) {
            let j = choose|j: int|
                0 <= j < target_pre.elems@.len() && target_pre.elems@[j] == other.elems@[k];
            assert(false);
        }
    }
    assert forall|k: int|
        0 <= k < pre.seats.elems@.len() implies post.arena.blocks@[#[trigger] pre.seats.elems@[k] as int]
        == pre.arena.blocks@[pre.seats.elems@[k] as int] by {
        assert(pre.arena.is_live(pre.seats.elems@[k]));
        if target_pre.elems@.contains(pre.seats.elems@[k]) {
            let j = choose|j: int|
                0 <= j < target_pre.elems@.len() && target_pre.elems@[j] == pre.seats.elems@[k];
            assert(false);
        }
    }
    lemma_list_frame(other, pre.arena, post.arena);
    lemma_list_frame(pre.seats, pre.arena, post.arena);
    assert(post.seats_view() =~= pre.seats_view());
    assert(post.side_view(!order.is_bid) =~= pre.side_view(!order.is_bid));
    // Entries of the target side: the old ones shifted, plus the new order.
    assert forall|k: int|
        0 <= k < target_post.elems@.len() implies {
        let p = #[trigger] payloads(target_post, post.arena)[k];
        p is Order && p->Order_0.is_bid == order.is_bid && post.seats.elems@.contains(
            p->Order_0.trader_index,
        )
    } by {
        if k < pos {
            assert(payloads(target_post, post.arena)[k] == payloads(target_pre, pre.arena)[k]);
        } else if k == pos {
            assert(payloads(target_post, post.arena)[k] == payload);
        } else {
            assert(payloads(target_post, post.arena)[k] == payloads(target_pre, pre.arena)[k - 1]);
        }
    }
    assert(post.side_view(order.is_bid) =~= pre.side_view(order.is_bid).insert(pos, order));
    assert forall|j: int| 0 <= j < pos implies order_before(
        pre.side_view(order.is_bid)[j],
        order,
    ) by {
        assert(payloads(target_pre, pre.arena)[j].before_spec(payload));
        assert(payloads(target_pre, pre.arena)[j] is Order);
    }
    // Partition and disjointness.
    assert forall|i: u32| #[trigger] post.arena.is_live(i) implies post.bids.elems@.contains(i)
        || post.asks.elems@.contains(i) || post.seats.elems@.contains(i) by {
        if i != idx {
            assert(pre.arena.is_live(i));
            if target_pre.elems@.contains(i) {
                assert(target_post.elems@.contains(i));
            }
        } else {
            assert(target_post.elems@.contains(idx));
        }
    }
    assert forall|j: int, k: int|
        0 <= j < target_post.elems@.len() && 0 <= k < other.elems@.len() implies #[trigger] target_post.elems@[j]
        != #[trigger] other.elems@[k] by {
        if target_post.elems@[j] == idx {
            assert(pre.arena.is_live(other.elems@[k]));
        } else {
            assert(target_pre.elems@.contains(target_post.elems@[j]));
            let j2 = choose|j2: int|
                0 <= j2 < target_pre.elems@.len() && target_pre.elems@[j2]
                    == target_post.elems@[j];
        }
    }
    assert forall|j: int, k: int|
        0 <= j < target_post.elems@.len() && 0 <= k < pre.seats.elems@.len() implies #[trigger] target_post.elems@[j]
        != #[trigger] pre.seats.elems@[k] by {
        if target_post.elems@[j] == idx {
            assert(pre.arena.is_live(pre.seats.elems@[k]));
        } else {
            assert(target_pre.elems@.contains(target_post.elems@[j]));
            let j2 = choose|j2: int|
                0 <= j2 < target_pre.elems@.len() && target_pre.elems@[j2]
                    == target_post.elems@[j];
        }
    }
    if order.is_bid {
        assert(post.side_ok(post.bids, true));
        assert(post.side_ok(post.asks, false)) by {
            assert forall|k: int|
                0 <= k < post.asks.elems@.len() implies {
                let p = #[trigger] payloads(post.asks, post.arena)[k];
                p is Order && p->Order_0.is_bid == false && post.seats.elems@.contains(
                    p->Order_0.trader_index,
                )
            } by {
                assert(payloads(post.asks, post.arena)[k] == payloads(pre.asks, pre.arena)[k]);
            }
        }
    } else {
        assert(post.side_ok(post.asks, false));
        assert(post.side_ok(post.bids, true)) by {
            assert forall|k: int|
                0 <= k < post.bids.elems@.len() implies {
                let p = #[trigger] payloads(post.bids, post.arena)[k];
                p is Order && p->Order_0.is_bid == true && post.seats.elems@.contains(
                    p->Order_0.trader_index,
                )
            } by {
                assert(payloads(post.bids, post.arena)[k] == payloads(pre.bids, pre.arena)[k]);
            }
        }
    }
    assert forall|k: int|
        0 <= k < post.seats.elems@.len() implies (#[trigger] payloads(post.seats, post.arena)[k])
        is Seat by {
        assert(payloads(post.seats, post.arena)[k] == payloads(pre.seats, pre.arena)[k]);
    }
    assert(post.seats_ok()) by {
        assert forall|j: int, k: int|
            0 <= j < k < post.seats.elems@.len() implies payloads(
            post.seats,
            post.arena,
        )[j]->Seat_0.trader != payloads(post.seats, post.arena)[k]->Seat_0.trader by {
            assert(payloads(post.seats, post.arena)[j] == payloads(pre.seats, pre.arena)[j]);
            assert(payloads(post.seats, post.arena)[k] == payloads(pre.seats, pre.arena)[k]);
        }
    }
    assert(target_post.elems@.contains(idx));
}

/// Re-establishes the market invariant after an order block left one book
/// side, given the footprint that `list_remove` reports.
#[verifier::rlimit(100)]
proof fn lemma_side_remove_reestablishes(
    pre: Market,
    post: Market,
    idx: u32,
    pos: int,
    is_bid: bool,
)
    requires
        pre.inv(),
        post.fixed == pre.fixed,
        post.seats == pre.seats,
        post.arena.wf(),
        (if is_bid {
            &&& post.asks == pre.asks
            &&& list_wf(post.bids, post.arena)
            &&& 0 <= pos < pre.bids.elems@.len()
            &&& pre.bids.elems@[pos] == idx
            &&& post.bids.elems@ == pre.bids.elems@.remove(pos)
            &&& payloads(post.bids, post.arena) == payloads(pre.bids, pre.arena).remove(pos)
            &&& (forall|i: u32|
                pre.arena.is_live(i) && !pre.bids.elems@.contains(i)
                    ==> #[trigger] post.arena.blocks@[i as int] == pre.arena.blocks@[i as int])
        } else {
            &&& post.bids == pre.bids
            &&& list_wf(post.asks, post.arena)
            &&& 0 <= pos < pre.asks.elems@.len()
            &&& pre.asks.elems@[pos] == idx
            &&& post.asks.elems@ == pre.asks.elems@.remove(pos)
            &&& payloads(post.asks, post.arena) == payloads(pre.asks, pre.arena).remove(pos)
            &&& (forall|i: u32|
                pre.arena.is_live(i) && !pre.asks.elems@.contains(i)
                    ==> #[trigger] post.arena.blocks@[i as int] == pre.arena.blocks@[i as int])
        }),
        !post.arena.is_live(idx),
        forall|i: u32| pre.arena.is_live(i) && i != idx ==> #[trigger] post.arena.is_live(i),
        forall|i: u32| #[trigger] post.arena.is_live(i) ==> pre.arena.is_live(i) && i != idx,
        post.arena.num_allocated == pre.arena.num_allocated,
        post.arena.blocks@.len() == pre.arena.blocks@.len(),
    ensures
        post.inv(),
        post.seats_view() == pre.seats_view(),
        post.side_view(!is_bid) == pre.side_view(!is_bid),
        post.side_view(is_bid) == pre.side_view(is_bid).remove(pos),
        pre.side_view(is_bid)[pos] == pre.arena.payload_of(idx)->Order_0,
{
    let target_pre = if is_bid {
        pre.bids
    } else {
        pre.asks
    };
    let target_post = if is_bid {
        post.bids
    } else {
        post.asks
    };
    let other = if is_bid {
        pre.asks
    } else {
        pre.bids
    };
    lemma_remove_contains(target_pre.elems@, pos);
    assert forall|k: int|
        0 <= k < other.elems@.len() implies post.arena.blocks@[#[trigger] other.elems@[k] as int]
        == pre.arena.blocks@[other.elems@[k] as int] by {
        assert(pre.arena.is_live(other.elems@[k]));
        if target_pre.elems@.contains(other.elems@[k]) {
            let j = choose|j: int|
                0 <= j < target_pre.elems@.len() && target_pre.elems@[j] == other.elems@[k];
            assert(false);
        }
    }
    assert forall|k: int|
        0 <= k < pre.seats.elems@.len() implies post.arena.blocks@[#[trigger] pre.seats.elems@[k] as int]
        == pre.arena.blocks@[pre.seats.elems@[k] as int] by {
        assert(pre.arena.is_live(pre.seats.elems@[k]));
        if target_pre.elems@.contains(pre.seats.elems@[k]) {
            let j = choose|j: int|
                0 <= j < target_pre.elems@.len() && target_pre.elems@[j] == pre.seats.elems@[k];
            assert(false);
        }
    }
    lemma_list_frame(other, pre.arena, post.arena);
    lemma_list_frame(pre.seats, pre.arena, post.arena);
    assert(post.seats_view() =~= pre.seats_view());
    assert(post.side_view(!is_bid) =~= pre.side_view(!is_bid));
    assert forall|k: int|
        0 <= k < target_post.elems@.len() implies {
        let p = #[trigger] payloads(target_post, post.arena)[k];
        p is Order && p->Order_0.is_bid == is_bid && post.seats.elems@.contains(
            p->Order_0.trader_index,
        )
    } by {
        if k < pos {
            assert(payloads(target_post, post.arena)[k] == payloads(target_pre, pre.arena)[k]);
        } else {
            assert(payloads(target_post, post.arena)[k] == payloads(target_pre, pre.arena)[k + 1]);
        }
    }
    assert(post.side_view(is_bid) =~= pre.side_view(is_bid).remove(pos));
    // Partition and disjointness survive shrinking one list.
    assert forall|i: u32| #[trigger] post.arena.is_live(i) implies post.bids.elems@.contains(i)
        || post.asks.elems@.contains(i) || post.seats.elems@.contains(i) by {
        assert(pre.arena.is_live(i));
        if target_pre.elems@.contains(i) {
            assert(i != idx);
            assert(i != target_pre.elems@[pos]);
            assert(target_post.elems@.contains(i));
        }
    }
    assert forall|j: int, k: int|
        0 <= j < target_post.elems@.len() && 0 <= k < other.elems@.len() implies #[trigger] target_post.elems@[j]
        != #[trigger] other.elems@[k] by {
        assert(target_pre.elems@.contains(target_post.elems@[j]));
        let j2 = choose|j2: int|
            0 <= j2 < target_pre.elems@.len() && target_pre.elems@[j2] == target_post.elems@[j];
    }
    assert forall|j: int, k: int|
        0 <= j < target_post.elems@.len() && 0 <= k < pre.seats.elems@.len() implies #[trigger] target_post.elems@[j]
        != #[trigger] pre.seats.elems@[k] by {
        assert(target_pre.elems@.contains(target_post.elems@[j]));
        let j2 = choose|j2: int|
            0 <= j2 < target_pre.elems@.len() && target_pre.elems@[j2] == target_post.elems@[j];
    }
    if is_bid {
        assert(post.side_ok(post.asks, false)) by {
            assert forall|k: int|
                0 <= k < post.asks.elems@.len() implies {
                let p = #[trigger] payloads(post.asks, post.arena)[k];
                p is Order && p->Order_0.is_bid == false && post.seats.elems@.contains(
                    p->Order_0.trader_index,
                )
            } by {
                assert(payloads(post.asks, post.arena)[k] == payloads(pre.asks, pre.arena)[k]);
            }
        }
    } else {
        assert(post.side_ok(post.bids, true)) by {
            assert forall|k: int|
                0 <= k < post.bids.elems@.len() implies {
                let p = #[trigger] payloads(post.bids, post.arena)[k];
                p is Order && p->Order_0.is_bid == true && post.seats.elems@.contains(
                    p->Order_0.trader_index,
                )
            } by {
                assert(payloads(post.bids, post.arena)[k] == payloads(pre.bids, pre.arena)[k]);
            }
        }
    }
    assert(post.seats_ok()) by {
        assert forall|k: int|
            0 <= k < post.seats.elems@.len() implies (#[trigger] payloads(
            post.seats,
            post.arena,
        )[k]) is Seat by {
            assert(payloads(post.seats, post.arena)[k] == payloads(pre.seats, pre.arena)[k]);
        }
        assert forall|j: int, k: int|
            0 <= j < k < post.seats.elems@.len() implies payloads(
            post.seats,
            post.arena,
        )[j]->Seat_0.trader != payloads(post.seats, post.arena)[k]->Seat_0.trader by {
            assert(payloads(post.seats, post.arena)[j] == payloads(pre.seats, pre.arena)[j]);
            assert(payloads(post.seats, post.arena)[k] == payloads(pre.seats, pre.arena)[k]);
        }
    }
    assert(pre.side_view(is_bid)[pos] == payloads(target_pre, pre.arena)[pos]->Order_0);
}

/// Re-establishes the market invariant after a fresh seat block joined the
/// seats index, given the footprint that `list_insert` reports.
#[verifier::rlimit(100)]
proof fn lemma_seat_insert_reestablishes(
    pre: Market,
    post: Market,
    seat: ClaimedSeat,
    trader: AccountKey,
    idx: u32,
    pos: int,
)
    requires
        pre.inv(),
        seat.trader == trader,
        !pre.has_seat(trader),
        post.fixed == pre.fixed,
        post.bids == pre.bids,
        post.asks == pre.asks,
        post.arena.wf(),
        list_wf(post.seats, post.arena),
        0 <= pos <= pre.seats.elems@.len(),
        post.seats.elems@ == pre.seats.elems@.insert(pos, idx),
        payloads(post.seats, post.arena) == payloads(pre.seats, pre.arena).insert(
            pos,
            MarketPayload::Seat(seat),
        ),
        !pre.arena.is_live(idx),
        post.arena.is_live(idx),
        forall|i: u32| pre.arena.is_live(i) ==> #[trigger] post.arena.is_live(i),
        forall|i: u32| #[trigger] post.arena.is_live(i) ==> pre.arena.is_live(i) || i == idx,
        forall|i: u32|
            pre.arena.is_live(i) && !pre.seats.elems@.contains(i)
                ==> #[trigger] post.arena.blocks@[i as int] == pre.arena.blocks@[i as int],
        post.arena.num_allocated >= pre.arena.num_allocated,
        post.arena.blocks@.len() >= pre.arena.blocks@.len(),
    ensures
        post.inv(),
        post.bids_view() == pre.bids_view(),
        post.asks_view() == pre.asks_view(),
        post.seats_view() == pre.seats_view().insert(pos, seat),
        post.seat_trader_of(idx) == trader,
        post.has_seat(trader),
        post.is_seat_index(idx),
{
    let probe = MarketPayload::Seat(seat);
    lemma_insert_contains(pre.seats.elems@, pos, idx);
    // The two book sides are untouched: their blocks are live and outside
    // the seats index.
    assert forall|k: int|
        0 <= k < pre.bids.elems@.len() implies post.arena.blocks@[#[trigger] pre.bids.elems@[k] as int]
        == pre.arena.blocks@[pre.bids.elems@[k] as int] by {
        assert(pre.arena.is_live(pre.bids.elems@[k]));
        if pre.seats.elems@.contains(pre.bids.elems@[k]) {
            let j = choose|j: int|
                0 <= j < pre.seats.elems@.len() && pre.seats.elems@[j] == pre.bids.elems@[k];
            assert(false);
        }
    }
    assert forall|k: int|
        0 <= k < pre.asks.elems@.len() implies post.arena.blocks@[#[trigger] pre.asks.elems@[k] as int]
        == pre.arena.blocks@[pre.asks.elems@[k] as int] by {
        assert(pre.arena.is_live(pre.asks.elems@[k]));
        if pre.seats.elems@.contains(pre.asks.elems@[k]) {
            let j = choose|j: int|
                0 <= j < pre.seats.elems@.len() && pre.seats.elems@[j] == pre.asks.elems@[k];
            assert(false);
        }
    }
    lemma_list_frame(pre.bids, pre.arena, post.arena);
    lemma_list_frame(pre.asks, pre.arena, post.arena);
    assert(post.bids_view() =~= pre.bids_view());
    assert(post.asks_view() =~= pre.asks_view());
    // Seat entries: the new payload sequence is the old one with the probe
    // inserted, so kinds and uniqueness carry over.
    assert forall|k: int|
        0 <= k < post.seats.elems@.len() implies (#[trigger] payloads(post.seats, post.arena)[k])
        is Seat by {
        if k > pos {
            assert(payloads(post.seats, post.arena)[k] == payloads(pre.seats, pre.arena)[k - 1]);
        }
    }
    assert(post.seats_view() =~= pre.seats_view().insert(pos, seat));
    assert forall|j: int, k: int|
        0 <= j < k < post.seats.elems@.len() implies payloads(
        post.seats,
        post.arena,
    )[j]->Seat_0.trader != payloads(post.seats, post.arena)[k]->Seat_0.trader by {
        let pj = if j < pos {
            j
        } else {
            j - 1
        };
        let pk = if k < pos {
            k
        } else {
            k - 1
        };
        if j == pos {
            assert(payloads(post.seats, post.arena)[j] == probe);
            assert(pre.seats_view()[pk].trader != trader);
        } else if k == pos {
            assert(payloads(post.seats, post.arena)[k] == probe);
            assert(pre.seats_view()[pj].trader != trader);
        }
    }
    // Partition: the fresh block joins the seats index; everything else
    // keeps its home.
    assert forall|i: u32| #[trigger] post.arena.is_live(i) implies post.bids.elems@.contains(i)
        || post.asks.elems@.contains(i) || post.seats.elems@.contains(i) by {
        if i != idx {
            assert(pre.arena.is_live(i));
        }
    }
    assert forall|j: int, k: int|
        0 <= j < post.bids.elems@.len() && 0 <= k < post.seats.elems@.len() implies #[trigger] post.bids.elems@[j]
        != #[trigger] post.seats.elems@[k] by {
        if post.seats.elems@[k] == idx {
            assert(pre.arena.is_live(pre.bids.elems@[j]));
        }
    }
    assert forall|j: int, k: int|
        0 <= j < post.asks.elems@.len() && 0 <= k < post.seats.elems@.len() implies #[trigger] post.asks.elems@[j]
        != #[trigger] post.seats.elems@[k] by {
        if post.seats.elems@[k] == idx {
            assert(pre.arena.is_live(pre.asks.elems@[j]));
        }
    }
    // Side entries still reference live seat blocks.
    assert forall|k: int|
        0 <= k < post.bids.elems@.len() implies {
        let p = #[trigger] payloads(post.bids, post.arena)[k];
        p is Order && p->Order_0.is_bid == true && post.seats.elems@.contains(
            p->Order_0.trader_index,
        )
    } by {
        assert(payloads(post.bids, post.arena)[k] == payloads(pre.bids, pre.arena)[k]);
        let ti = payloads(pre.bids, pre.arena)[k]->Order_0.trader_index;
        assert(pre.seats.elems@.contains(ti));
        assert(pre.seats.elems@.insert(pos, idx).contains(ti));
    }
    assert forall|k: int|
        0 <= k < post.asks.elems@.len() implies {
        let p = #[trigger] payloads(post.asks, post.arena)[k];
        p is Order && p->Order_0.is_bid == false && post.seats.elems@.contains(
            p->Order_0.trader_index,
        )
    } by {
        assert(payloads(post.asks, post.arena)[k] == payloads(pre.asks, pre.arena)[k]);
        let ti = payloads(pre.asks, pre.arena)[k]->Order_0.trader_index;
        assert(pre.seats.elems@.contains(ti));
        assert(pre.seats.elems@.insert(pos, idx).contains(ti));
    }
    assert(post.seats_view()[pos].trader == trader);
}

impl Market {
    pub fn get_base_mint(&self) -> (r: &AccountKey)
        ensures
            *r == self.fixed.base_mint,
    {
        self.fixed.get_base_mint()
    }

    pub fn get_quote_mint(&self) -> (r: &AccountKey)
        ensures
            *r == self.fixed.quote_mint,
    {
        self.fixed.get_quote_mint()
    }

    /// Shrinks the resting quantity of the order at block `index` in
    /// place, as a partial fill does; the order keeps its price, side and
    /// queue position.
    pub fn reduce_order(&mut self, index: u32, size: BaseAtoms) -> (r: (
        Result<(), ManifestError>,
        Ghost<int>,
    ))
        requires
            old(self).inv(),
            old(self).is_order_index(index),
        ensures
            final(self).inv(),
            final(self).fixed == old(self).fixed,
            final(self).seats_view() == old(self).seats_view(),
            match r.0 {
                Ok(_) => ({
                    let o = old(self).arena.payload_of(index)->Order_0;
                    let pos = r.1@;
                    &&& size.atoms <= o.num_base_atoms.atoms
                    &&& final(self).side_view(!o.is_bid) == old(self).side_view(!o.is_bid)
                    &&& 0 <= pos < old(self).side_view(o.is_bid).len()
                    &&& old(self).side_view(o.is_bid)[pos] == o
                    &&& final(self).side_view(o.is_bid) == old(self).side_view(o.is_bid).update(
                        pos,
                        RestingOrder {
                            num_base_atoms: BaseAtoms {
                                atoms: (o.num_base_atoms.atoms - size.atoms) as u64,
                            },
                            ..o
                        },
                    )
                }),
                Err(e) => {
                    &&& *final(self) == *old(self)
                    &&& size.atoms > old(self).arena.payload_of(index)->Order_0.num_base_atoms.atoms
                    &&& e == ManifestError::ArithmeticOverflow
                },
            },
    {
        self.resize_order(index, size, false)
    }

    /// Grows the resting quantity of the order at block `index` in place;
    /// only needed when coalescing orders.
    pub fn increase_order(&mut self, index: u32, size: BaseAtoms) -> (r: (
        Result<(), ManifestError>,
        Ghost<int>,
    ))
        requires
            old(self).inv(),
            old(self).is_order_index(index),
        ensures
            final(self).inv(),
            final(self).fixed == old(self).fixed,
            final(self).seats_view() == old(self).seats_view(),
            match r.0 {
                Ok(_) => ({
                    let o = old(self).arena.payload_of(index)->Order_0;
                    let pos = r.1@;
                    &&& o.num_base_atoms.atoms + size.atoms <= u64::MAX
                    &&& final(self).side_view(!o.is_bid) == old(self).side_view(!o.is_bid)
                    &&& 0 <= pos < old(self).side_view(o.is_bid).len()
                    &&& old(self).side_view(o.is_bid)[pos] == o
                    &&& final(self).side_view(o.is_bid) == old(self).side_view(o.is_bid).update(
                        pos,
                        RestingOrder {
                            num_base_atoms: BaseAtoms {
                                atoms: (o.num_base_atoms.atoms + size.atoms) as u64,
                            },
                            ..o
                        },
                    )
                }),
                Err(e) => {
                    &&& *final(self) == *old(self)
                    &&& old(self).arena.payload_of(index)->Order_0.num_base_atoms.atoms
                        + size.atoms > u64::MAX
                    &&& e == ManifestError::ArithmeticOverflow
                },
            },
    {
        self.resize_order(index, size, true)
    }

    #[verifier::rlimit(100)]
    #[verifier::spinoff_prover]
    fn resize_order(&mut self, index: u32, size: BaseAtoms, grow: bool) -> (r: (
        Result<(), ManifestError>,
        Ghost<int>,
    ))
        requires
            old(self).inv(),
            old(self).is_order_index(index),
        ensures
            final(self).inv(),
            final(self).fixed == old(self).fixed,
            final(self).seats_view() == old(self).seats_view(),
            match r.0 {
                Ok(_) => ({
                    let o = old(self).arena.payload_of(index)->Order_0;
                    let n = if grow {
                        o.num_base_atoms.atoms + size.atoms
                    } else {
                        o.num_base_atoms.atoms - size.atoms
                    };
                    let pos = r.1@;
                    &&& (if grow {
                        o.num_base_atoms.atoms + size.atoms <= u64::MAX
                    } else {
                        size.atoms <= o.num_base_atoms.atoms
                    })
                    &&& final(self).side_view(!o.is_bid) == old(self).side_view(!o.is_bid)
                    &&& 0 <= pos < old(self).side_view(o.is_bid).len()
                    &&& old(self).side_view(o.is_bid)[pos] == o
                    &&& final(self).side_view(o.is_bid) == old(self).side_view(o.is_bid).update(
                        pos,
                        RestingOrder { num_base_atoms: BaseAtoms { atoms: n as u64 }, ..o },
                    )
                }),
                Err(e) => {
                    &&& *final(self) == *old(self)
                    &&& (if grow {
                        old(self).arena.payload_of(index)->Order_0.num_base_atoms.atoms
                            + size.atoms > u64::MAX
                    } else {
                        size.atoms > old(self).arena.payload_of(
                            index,
                        )->Order_0.num_base_atoms.atoms
                    })
                    &&& e == ManifestError::ArithmeticOverflow
                },
            },
    {
        proof {
            if self.bids.elems@.contains(index) {
                let k = choose|k: int|
                    0 <= k < self.bids.elems@.len() && self.bids.elems@[k] == index;
                assert(payloads(self.bids, self.arena)[k] is Order);
            } else {
                let k = choose|k: int|
                    0 <= k < self.asks.elems@.len() && self.asks.elems@[k] == index;
                assert(payloads(self.asks, self.arena)[k] is Order);
            }
        }
        let mut o: RestingOrder = match self.arena.get_payload(index) {
            MarketPayload::Order(o) => *o,
            _ => vstd::pervasive::unreached(),
        };
        let update_result = if grow {
            o.increase(size)
        } else {
            o.reduce(size)
        };
        match update_result {
            Ok(_) => {},
            Err(e) => {
                return (Err(e), Ghost(0int));
            },
        }
        self.arena.set_payload(index, MarketPayload::Order(o));
        let ghost pos = lemma_order_resize_reestablishes(*old(self), *self, index, o);
        (Ok(()), Ghost(pos))
    }
}

/// Re-establishes the market invariant after the payload of one order
/// block is replaced by an order of the same price, side, owner and type.
#[verifier::rlimit(100)]
proof fn lemma_order_resize_reestablishes(
    pre: Market,
    post: Market,
    index: u32,
    o2: RestingOrder,
) -> (pos: int)
    requires
        pre.inv(),
        pre.is_order_index(index),
        pre.arena.payload_of(index) is Order,
        ({
            let o = pre.arena.payload_of(index)->Order_0;
            &&& o2.price == o.price
            &&& o2.is_bid == o.is_bid
            &&& o2.trader_index == o.trader_index
            &&& o2.order_type == o.order_type
        }),
        post.fixed == pre.fixed,
        post.bids == pre.bids,
        post.asks == pre.asks,
        post.seats == pre.seats,
        post.arena.wf(),
        post.arena.num_allocated == pre.arena.num_allocated,
        post.arena.blocks@ == pre.arena.blocks@.update(
            index as int,
            crate::arena::Block::Live {
                payload: MarketPayload::Order(o2),
                next: pre.arena.next_of(index),
            },
        ),
    ensures
        post.inv(),
        post.seats_view() == pre.seats_view(),
        ({
            let o = pre.arena.payload_of(index)->Order_0;
            &&& post.side_view(!o.is_bid) == pre.side_view(!o.is_bid)
            &&& 0 <= pos < pre.side_view(o.is_bid).len()
            &&& pre.side_view(o.is_bid)[pos] == o
            &&& post.side_view(o.is_bid) == pre.side_view(o.is_bid).update(pos, o2)
        }),
{
    let o = pre.arena.payload_of(index)->Order_0;
    let target = if o.is_bid {
        pre.bids
    } else {
        pre.asks
    };
    let other = if o.is_bid {
        pre.asks
    } else {
        pre.bids
    };
    // The block is on exactly one side, and the sides are disjoint from
    // each other and from the seats.
    assert(target.elems@.contains(index)) by {
        if o.is_bid {
            if pre.asks.elems@.contains(index) {
                let k = choose|k: int|
                    0 <= k < pre.asks.elems@.len() && pre.asks.elems@[k] == index;
                assert(payloads(pre.asks, pre.arena)[k] is Order);
                assert(payloads(pre.asks, pre.arena)[k]->Order_0.is_bid == false);
                assert(pre.arena.payload_of(pre.asks.elems@[k]) == pre.arena.payload_of(index));
                assert(false);
            }
        } else {
            if pre.bids.elems@.contains(index) {
                let k = choose|k: int|
                    0 <= k < pre.bids.elems@.len() && pre.bids.elems@[k] == index;
                assert(payloads(pre.bids, pre.arena)[k] is Order);
                assert(payloads(pre.bids, pre.arena)[k]->Order_0.is_bid == true);
                assert(pre.arena.payload_of(pre.bids.elems@[k]) == pre.arena.payload_of(index));
                assert(false);
            }
        }
    }
    let pos = choose|pos: int|
        0 <= pos < target.elems@.len() && target.elems@[pos] == index;
    assert forall|k: int|
        0 <= k < other.elems@.len() implies post.arena.blocks@[#[trigger] other.elems@[k] as int]
        == pre.arena.blocks@[other.elems@[k] as int] by {}
    assert forall|k: int|
        0 <= k < pre.seats.elems@.len() implies post.arena.blocks@[#[trigger] pre.seats.elems@[k] as int]
        == pre.arena.blocks@[pre.seats.elems@[k] as int] by {}
    lemma_list_frame(other, pre.arena, post.arena);
    lemma_list_frame(pre.seats, pre.arena, post.arena);
    assert(post.seats_view() =~= pre.seats_view());
    assert(post.side_view(!o.is_bid) =~= pre.side_view(!o.is_bid));
    // The target side keeps its links; only the one payload changes, and
    // its ordering-relevant fields are untouched.
    assert(payloads(target, post.arena) =~= payloads(target, pre.arena).update(
        pos,
        MarketPayload::Order(o2),
    ));
    assert forall|i: u32| #[trigger] post.arena.is_live(i) implies post.bids.elems@.contains(i)
        || post.asks.elems@.contains(i) || post.seats.elems@.contains(i) by {
        assert(pre.arena.is_live(i));
    }
    assert(crate::ordered::list_linked(target, post.arena)) by {
        assert forall|k: int|
            0 <= k < target.elems@.len() implies post.arena.is_live(#[trigger] target.elems@[k])
            && post.arena.next_of(target.elems@[k]) == (if k + 1 < target.elems@.len() {
            target.elems@[k + 1]
        } else {
            crate::constants::NIL
        }) by {
            assert(pre.arena.is_live(target.elems@[k]));
            if target.elems@[k] != index {
                assert(post.arena.blocks@[target.elems@[k] as int]
                    == pre.arena.blocks@[target.elems@[k] as int]);
            }
        }
    }
    assert(list_wf(target, post.arena)) by {
        assert forall|j: int, k: int|
            0 <= j < k < target.elems@.len() implies post.arena.payload_of(
            #[trigger] target.elems@[j],
        ).before_spec(post.arena.payload_of(#[trigger] target.elems@[k])) by {
            assert(pre.arena.payload_of(target.elems@[j]).before_spec(
                pre.arena.payload_of(target.elems@[k]),
            ));
        }
    }
    if o.is_bid {
        assert(list_wf(post.bids, post.arena));
        assert(post.side_ok(post.bids, true)) by {
            assert forall|k: int|
                0 <= k < post.bids.elems@.len() implies {
                let p = #[trigger] payloads(post.bids, post.arena)[k];
                p is Order && p->Order_0.is_bid == true && post.seats.elems@.contains(
                    p->Order_0.trader_index,
                )
            } by {
                if k != pos {
                    assert(payloads(post.bids, post.arena)[k] == payloads(
                        pre.bids,
                        pre.arena,
                    )[k]);
                }
            }
        }
        assert(post.side_ok(post.asks, false)) by {
            assert forall|k: int|
                0 <= k < post.asks.elems@.len() implies {
                let p = #[trigger] payloads(post.asks, post.arena)[k];
                p is Order && p->Order_0.is_bid == false && post.seats.elems@.contains(
                    p->Order_0.trader_index,
                )
            } by {
                assert(payloads(post.asks, post.arena)[k] == payloads(pre.asks, pre.arena)[k]);
            }
        }
    } else {
        assert(list_wf(post.asks, post.arena));
        assert(post.side_ok(post.asks, false)) by {
            assert forall|k: int|
                0 <= k < post.asks.elems@.len() implies {
                let p = #[trigger] payloads(post.asks, post.arena)[k];
                p is Order && p->Order_0.is_bid == false && post.seats.elems@.contains(
                    p->Order_0.trader_index,
                )
            } by {
                if k != pos {
                    assert(payloads(post.asks, post.arena)[k] == payloads(
                        pre.asks,
                        pre.arena,
                    )[k]);
                }
            }
        }
        assert(post.side_ok(post.bids, true)) by {
            assert forall|k: int|
                0 <= k < post.bids.elems@.len() implies {
                let p = #[trigger] payloads(post.bids, post.arena)[k];
                p is Order && p->Order_0.is_bid == true && post.seats.elems@.contains(
                    p->Order_0.trader_index,
                )
            } by {
                assert(payloads(post.bids, post.arena)[k] == payloads(pre.bids, pre.arena)[k]);
            }
        }
    }
    assert(post.seats_ok()) by {
        assert forall|k: int|
            0 <= k < post.seats.elems@.len() implies (#[trigger] payloads(
            post.seats,
            post.arena,
        )[k]) is Seat by {
            assert(payloads(post.seats, post.arena)[k] == payloads(pre.seats, pre.arena)[k]);
        }
        assert forall|j: int, k: int|
            0 <= j < k < post.seats.elems@.len() implies payloads(
            post.seats,
            post.arena,
        )[j]->Seat_0.trader != payloads(post.seats, post.arena)[k]->Seat_0.trader by {
            assert(payloads(post.seats, post.arena)[j] == payloads(pre.seats, pre.arena)[j]);
            assert(payloads(post.seats, post.arena)[k] == payloads(pre.seats, pre.arena)[k]);
        }
    }
    assert(post.side_view(o.is_bid) =~= pre.side_view(o.is_bid).update(pos, o2));
    assert(pre.side_view(o.is_bid)[pos] == o);
    pos
}

impl Market {
    /// The bids in priority order, best (highest price) first.
    pub fn get_bids(&self) -> (r: Vec<RestingOrder>)
        requires
            self.inv(),
        ensures
            r@ == self.bids_view(),
    {
        let payloads_vec: Vec<MarketPayload> = list_collect(&self.bids, &self.arena);
        let mut out: Vec<RestingOrder> = Vec::new();
        let mut i: usize = 0;
        while i < payloads_vec.len()
            invariant
                self.inv(),
                payloads_vec@ == payloads(self.bids, self.arena),
                0 <= i <= payloads_vec@.len(),
                out@ == self.bids_view().take(i as int),
            decreases payloads_vec@.len() - i,
        {
            proof {
                assert(payloads(self.bids, self.arena)[i as int] is Order);
            }
            match &payloads_vec[i] {
                MarketPayload::Order(o) => out.push(*o),
                _ => vstd::pervasive::unreached(),
            }
            i = i + 1;
            proof {
                assert(out@ =~= self.bids_view().take(i as int));
            }
        }
        proof {
            assert(out@ =~= self.bids_view());
        }
        out
    }

    /// The asks in priority order, best (lowest price) first.
    pub fn get_asks(&self) -> (r: Vec<RestingOrder>)
        requires
            self.inv(),
        ensures
            r@ == self.asks_view(),
    {
        let payloads_vec: Vec<MarketPayload> = list_collect(&self.asks, &self.arena);
        let mut out: Vec<RestingOrder> = Vec::new();
        let mut i: usize = 0;
        while i < payloads_vec.len()
            invariant
                self.inv(),
                payloads_vec@ == payloads(self.asks, self.arena),
                0 <= i <= payloads_vec@.len(),
                out@ == self.asks_view().take(i as int),
            decreases payloads_vec@.len() - i,
        {
            proof {
                assert(payloads(self.asks, self.arena)[i as int] is Order);
            }
            match &payloads_vec[i] {
                MarketPayload::Order(o) => out.push(*o),
                _ => vstd::pervasive::unreached(),
            }
            i = i + 1;
            proof {
                assert(out@ =~= self.asks_view().take(i as int));
            }
        }
        proof {
            assert(out@ =~= self.asks_view());
        }
        out
    }

    /// The claimed seats in trader-key order.
    pub fn get_seats(&self) -> (r: Vec<ClaimedSeat>)
        requires
            self.inv(),
        ensures
            r@ == self.seats_view(),
    {
        let payloads_vec: Vec<MarketPayload> = list_collect(&self.seats, &self.arena);
        let mut out: Vec<ClaimedSeat> = Vec::new();
        let mut i: usize = 0;
        while i < payloads_vec.len()
            invariant
                self.inv(),
                payloads_vec@ == payloads(self.seats, self.arena),
                0 <= i <= payloads_vec@.len(),
                out@ == self.seats_view().take(i as int),
            decreases payloads_vec@.len() - i,
        {
            proof {
                assert(payloads(self.seats, self.arena)[i as int] is Seat);
            }
            match &payloads_vec[i] {
                MarketPayload::Seat(seat) => out.push(*seat),
                _ => vstd::pervasive::unreached(),
            }
            i = i + 1;
            proof {
                assert(out@ =~= self.seats_view().take(i as int));
            }
        }
        proof {
            assert(out@ =~= self.seats_view());
        }
        out
    }
}

} // verus!
