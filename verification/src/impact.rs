//! Read-only impact simulation: what a marketable order would get.
//!
//! Both simulators walk the opposite book side in priority order. An
//! expired order is skipped; a global order met without any backing context
//! stops the walk, holding its queue position; a global order whose deposit
//! cannot cover the match is skipped alone. Quantities convert between the
//! base and quote axes through the fixed-point price, rounding in the
//! taker's favor exactly when the resting order is fully consumed. The walk
//! ends when a resting order is only partly consumed or the cap is
//! exhausted, and the total is returned as-is: a thin book yields what it
//! has, with no distinct underfill signal.

use vstd::prelude::*;

use crate::constants::NIL;
use crate::error::ManifestError;
use crate::global::{GlobalBacking, backing_inv, can_back_order, can_back_spec};
use crate::market::{Market, MarketPayload};
use crate::ordered::{list_wf, payloads};
use crate::quantities::{
    BaseAtoms, GlobalAtoms, QuoteAtoms, base_for_quote_spec, quote_for_base_spec,
};
use crate::resting_order::{OrderType, RestingOrder, is_expired_spec};

verus! {

pub open spec fn min_u64(a: u64, b: u64) -> u64 {
    if a <= b {
        a
    } else {
        b
    }
}

/// The side a taker of direction `is_bid` walks: asks for a buyer, bids
/// for a seller.
pub open spec fn walked_side(m: Market, is_bid: bool) -> Seq<RestingOrder> {
    if is_bid {
        m.asks_view()
    } else {
        m.bids_view()
    }
}

/// A global order that the supplied context cannot cover for the amount
/// this match would need on the backing axis.
pub open spec fn is_unbacked_global_spec(
    m: Market,
    o: RestingOrder,
    is_bid: bool,
    backing: GlobalBacking,
    matched_base: u64,
    matched_quote: u64,
) -> bool {
    o.order_type == OrderType::Global && !can_back_spec(
        backing,
        m.seat_trader_of(o.trader_index),
        if is_bid {
            matched_base
        } else {
            matched_quote
        },
    )
}

/// One walk of `orders` from entry `k` on, accumulating quote atoms for a
/// base-capped taker; `None` is an arithmetic failure of the whole call.
pub open spec fn impact_quote_go(
    m: Market,
    orders: Seq<RestingOrder>,
    is_bid: bool,
    k: int,
    remaining_base: u64,
    backing: GlobalBacking,
    now_slot: u32,
    acc: u64,
) -> Option<u64>
    decreases orders.len() - k,
{
    if k < 0 || k >= orders.len() {
        Some(acc)
    } else {
        let o = orders[k];
        if is_expired_spec(o, now_slot) {
            impact_quote_go(m, orders, is_bid, k + 1, remaining_base, backing, now_slot, acc)
        } else if o.order_type == OrderType::Global && backing is Missing {
            Some(acc)
        } else {
            let matched_base = min_u64(o.num_base_atoms.atoms, remaining_base);
            let fully = remaining_base >= o.num_base_atoms.atoms;
            match quote_for_base_spec(o.price, matched_base, is_bid != fully) {
                None => None,
                Some(mq) => {
                    if is_unbacked_global_spec(m, o, is_bid, backing, matched_base, mq) {
                        impact_quote_go(
                            m,
                            orders,
                            is_bid,
                            k + 1,
                            remaining_base,
                            backing,
                            now_slot,
                            acc,
                        )
                    } else if acc + mq > u64::MAX {
                        None
                    } else if !fully {
                        Some((acc + mq) as u64)
                    } else {
                        impact_quote_go(
                            m,
                            orders,
                            is_bid,
                            k + 1,
                            (remaining_base - matched_base) as u64,
                            backing,
                            now_slot,
                            (acc + mq) as u64,
                        )
                    }
                },
            }
        }
    }
}

/// The whole quote-impact outcome for a base-capped taker.
pub open spec fn impact_quote_spec(
    m: Market,
    is_bid: bool,
    limit_base: u64,
    backing: GlobalBacking,
    now_slot: u32,
) -> Option<u64> {
    impact_quote_go(m, walked_side(m, is_bid), is_bid, 0, limit_base, backing, now_slot, 0)
}

/// One walk of `orders` from entry `k` on, accumulating base atoms for a
/// quote-capped taker.
pub open spec fn impact_base_go(
    m: Market,
    orders: Seq<RestingOrder>,
    is_bid: bool,
    k: int,
    remaining_quote: u64,
    backing: GlobalBacking,
    now_slot: u32,
    acc: u64,
) -> Option<u64>
    decreases orders.len() - k,
{
    if k < 0 || k >= orders.len() {
        Some(acc)
    } else {
        let o = orders[k];
        if is_expired_spec(o, now_slot) {
            impact_base_go(m, orders, is_bid, k + 1, remaining_quote, backing, now_slot, acc)
        } else if o.order_type == OrderType::Global && backing is Missing {
            Some(acc)
        } else {
            match base_for_quote_spec(o.price, remaining_quote, !is_bid) {
                None => None,
                Some(base_limit) => {
                    let matched_base = min_u64(o.num_base_atoms.atoms, base_limit);
                    let fully = base_limit >= o.num_base_atoms.atoms;
                    match quote_for_base_spec(o.price, matched_base, is_bid != fully) {
                        None => None,
                        Some(mq) => {
                            if is_unbacked_global_spec(m, o, is_bid, backing, matched_base, mq) {
                                impact_base_go(
                                    m,
                                    orders,
                                    is_bid,
                                    k + 1,
                                    remaining_quote,
                                    backing,
                                    now_slot,
                                    acc,
                                )
                            } else if acc + matched_base > u64::MAX {
                                None
                            } else if !fully {
                                Some((acc + matched_base) as u64)
                            } else if mq > remaining_quote {
                                None
                            } else if remaining_quote == mq {
                                Some((acc + matched_base) as u64)
                            } else {
                                impact_base_go(
                                    m,
                                    orders,
                                    is_bid,
                                    k + 1,
                                    (remaining_quote - mq) as u64,
                                    backing,
                                    now_slot,
                                    (acc + matched_base) as u64,
                                )
                            }
                        },
                    }
                },
            }
        }
    }
}

/// The whole base-impact outcome for a quote-capped taker.
pub open spec fn impact_base_spec(
    m: Market,
    is_bid: bool,
    limit_quote: u64,
    backing: GlobalBacking,
    now_slot: u32,
) -> Option<u64> {
    impact_base_go(m, walked_side(m, is_bid), is_bid, 0, limit_quote, backing, now_slot, 0)
}

/// The backing context relevant for a taker of direction `is_bid`.
pub open spec fn selected_backing(backings: [GlobalBacking; 2], is_bid: bool) -> GlobalBacking {
    if is_bid {
        backings[0]
    } else {
        backings[1]
    }
}

impl Market {
    /// Whether the global deposit behind `resting_order` fails to cover the
    /// amount this match would need.
    fn is_unbacked_global_order(
        &self,
        resting_order: &RestingOrder,
        is_bid: bool,
        global_backing: &GlobalBacking<'_>,
        matched_base_atoms: BaseAtoms,
        matched_quote_atoms: QuoteAtoms,
    ) -> (r: bool)
        requires
            self.inv(),
            self.is_seat_index(resting_order.trader_index),
            backing_inv(*global_backing),
        ensures
            r == is_unbacked_global_spec(
                *self,
                *resting_order,
                is_bid,
                *global_backing,
                matched_base_atoms.atoms,
                matched_quote_atoms.atoms,
            ),
    {
        if resting_order.is_global() {
            let has_enough_tokens: bool = can_back_order(
                global_backing,
                self.get_trader_key_by_index(resting_order.get_trader_index()),
                GlobalAtoms::new(
                    if is_bid {
                        matched_base_atoms.as_u64()
                    } else {
                        matched_quote_atoms.as_u64()
                    },
                ),
            );
            if !has_enough_tokens {
                return true;
            }
        }
        false
    }

    /// Quote atoms obtainable for at most `limit_base_atoms` base atoms,
    /// walking the opposite side under price-time priority at `now_slot`.
    pub fn impact_quote_atoms_with_slot(
        &self,
        is_bid: bool,
        limit_base_atoms: BaseAtoms,
        global_trade_backings: &[GlobalBacking<'_>; 2],
        now_slot: u32,
    ) -> (r: Result<QuoteAtoms, ManifestError>)
        requires
            self.inv(),
            backing_inv(global_trade_backings[0]),
            backing_inv(global_trade_backings[1]),
        ensures
            match r {
                Ok(q) => impact_quote_spec(
                    *self,
                    is_bid,
                    limit_base_atoms.atoms,
                    selected_backing(*global_trade_backings, is_bid),
                    now_slot,
                ) == Some(q.atoms),
                Err(e) => impact_quote_spec(
                    *self,
                    is_bid,
                    limit_base_atoms.atoms,
                    selected_backing(*global_trade_backings, is_bid),
                    now_slot,
                ) is None && e == ManifestError::ArithmeticOverflow,
            },
    {
        let required_global: &GlobalBacking = if is_bid {
            &global_trade_backings[0]
        } else {
            &global_trade_backings[1]
        };
        let ghost list = if is_bid {
            self.asks
        } else {
            self.bids
        };
        let ghost orders = walked_side(*self, is_bid);
        let ghost backing = *required_global;
        let mut total: u64 = 0;
        let mut remaining: u64 = limit_base_atoms.as_u64();
        let mut cur: u32 = if is_bid {
            self.asks.best()
        } else {
            self.bids.best()
        };
        let ghost mut k: int = 0;
        loop
            invariant_except_break
                self.inv(),
                backing_inv(backing),
                backing == *required_global,
                *required_global == (if is_bid {
                    global_trade_backings[0]
                } else {
                    global_trade_backings[1]
                }),
                list == (if is_bid {
                    self.asks
                } else {
                    self.bids
                }),
                orders == walked_side(*self, is_bid),
                orders.len() == list.elems@.len(),
                0 <= k <= orders.len(),
                cur == (if k < list.elems@.len() {
                    list.elems@[k]
                } else {
                    NIL
                }),
                impact_quote_go(
                    *self,
                    orders,
                    is_bid,
                    0,
                    limit_base_atoms.atoms,
                    backing,
                    now_slot,
                    0,
                ) == impact_quote_go(*self, orders, is_bid, k, remaining, backing, now_slot, total),
            ensures
                impact_quote_go(
                    *self,
                    orders,
                    is_bid,
                    0,
                    limit_base_atoms.atoms,
                    backing,
                    now_slot,
                    0,
                ) == Some(total),
            decreases orders.len() - k,
        {
            if cur == NIL {
                proof {
                    assert(k == orders.len());
                }
                break ;
            }
            proof {
                assert(list_wf(list, self.arena));
                assert(self.arena.is_live(cur));
                assert(payloads(list, self.arena)[k] is Order);
                assert(self.is_seat_index(payloads(list, self.arena)[k]->Order_0.trader_index));
            }
            let o: RestingOrder = match self.arena.get_payload(cur) {
                MarketPayload::Order(o) => *o,
                _ => vstd::pervasive::unreached(),
            };
            proof {
                assert(orders[k] == o);
            }
            let next: u32 = self.arena.read_next(cur);
            // Skip expired orders.
            if o.is_expired(now_slot) {
                proof {
                    k = k + 1;
                }
                cur = next;
                continue ;
            }
            // Stop walking if we cannot service the first needed global
            // order: it keeps its queue position.
            if o.is_global() && matches!(required_global, GlobalBacking::Missing) {
                break ;
            }
            // Either fill the entire resting order, or only the remaining
            // cap, in which case this is the last iteration.
            let matched_base_atoms: BaseAtoms = o.get_num_base_atoms().min(
                BaseAtoms::new(remaining),
            );
            let did_fully_match_resting_order: bool = remaining >= o.get_num_base_atoms().as_u64();
            // Round in taker favor exactly on a full match.
            let matched_quote_atoms: QuoteAtoms = match o.get_price().checked_quote_for_base(
                matched_base_atoms,
                is_bid != did_fully_match_resting_order,
            ) {
                Ok(q) => q,
                Err(e) => {
                    return Err(e);
                },
            };
            // Skip unbacked global orders.
            if self.is_unbacked_global_order(
                &o,
                is_bid,
                required_global,
                matched_base_atoms,
                matched_quote_atoms,
            ) {
                proof {
                    k = k + 1;
                }
                cur = next;
                continue ;
            }
            if total > u64::MAX - matched_quote_atoms.as_u64() {
                return Err(ManifestError::ArithmeticOverflow);
            }
            total = total + matched_quote_atoms.as_u64();
            if !did_fully_match_resting_order {
                break ;
            }
            remaining = remaining - matched_base_atoms.as_u64();
            proof {
                k = k + 1;
            }
            cur = next;
        }
        Ok(QuoteAtoms::new(total))
    }

    /// Base atoms obtainable for at most `limit_quote_atoms` quote atoms,
    /// walking the opposite side under price-time priority at `now_slot`.
    pub fn impact_base_atoms_with_slot(
        &self,
        is_bid: bool,
        limit_quote_atoms: QuoteAtoms,
        global_trade_backings: &[GlobalBacking<'_>; 2],
        now_slot: u32,
    ) -> (r: Result<BaseAtoms, ManifestError>)
        requires
            self.inv(),
            backing_inv(global_trade_backings[0]),
            backing_inv(global_trade_backings[1]),
        ensures
            match r {
                Ok(b) => impact_base_spec(
                    *self,
                    is_bid,
                    limit_quote_atoms.atoms,
                    selected_backing(*global_trade_backings, is_bid),
                    now_slot,
                ) == Some(b.atoms),
                Err(e) => impact_base_spec(
                    *self,
                    is_bid,
                    limit_quote_atoms.atoms,
                    selected_backing(*global_trade_backings, is_bid),
                    now_slot,
                ) is None && e == ManifestError::ArithmeticOverflow,
            },
    {
        let required_global: &GlobalBacking = if is_bid {
            &global_trade_backings[0]
        } else {
            &global_trade_backings[1]
        };
        let ghost list = if is_bid {
            self.asks
        } else {
            self.bids
        };
        let ghost orders = walked_side(*self, is_bid);
        let ghost backing = *required_global;
        let mut total: u64 = 0;
        let mut remaining: u64 = limit_quote_atoms.as_u64();
        let mut cur: u32 = if is_bid {
            self.asks.best()
        } else {
            self.bids.best()
        };
        let ghost mut k: int = 0;
        loop
            invariant_except_break
                self.inv(),
                backing_inv(backing),
                backing == *required_global,
                *required_global == (if is_bid {
                    global_trade_backings[0]
                } else {
                    global_trade_backings[1]
                }),
                list == (if is_bid {
                    self.asks
                } else {
                    self.bids
                }),
                orders == walked_side(*self, is_bid),
                orders.len() == list.elems@.len(),
                0 <= k <= orders.len(),
                cur == (if k < list.elems@.len() {
                    list.elems@[k]
                } else {
                    NIL
                }),
                impact_base_go(
                    *self,
                    orders,
                    is_bid,
                    0,
                    limit_quote_atoms.atoms,
                    backing,
                    now_slot,
                    0,
                ) == impact_base_go(*self, orders, is_bid, k, remaining, backing, now_slot, total),
            ensures
                impact_base_go(
                    *self,
                    orders,
                    is_bid,
                    0,
                    limit_quote_atoms.atoms,
                    backing,
                    now_slot,
                    0,
                ) == Some(total),
            decreases orders.len() - k,
        {
            if cur == NIL {
                proof {
                    assert(k == orders.len());
                }
                break ;
            }
            proof {
                assert(list_wf(list, self.arena));
                assert(self.arena.is_live(cur));
                assert(payloads(list, self.arena)[k] is Order);
                assert(self.is_seat_index(payloads(list, self.arena)[k]->Order_0.trader_index));
            }
            let o: RestingOrder = match self.arena.get_payload(cur) {
                MarketPayload::Order(o) => *o,
                _ => vstd::pervasive::unreached(),
            };
            proof {
                assert(orders[k] == o);
            }
            let next: u32 = self.arena.read_next(cur);
            // Skip expired orders.
            if o.is_expired(now_slot) {
                proof {
                    k = k + 1;
                }
                cur = next;
                continue ;
            }
            // Stop walking if we cannot service the first needed global
            // order: it keeps its queue position.
            if o.is_global() && matches!(required_global, GlobalBacking::Missing) {
                break ;
            }
            // The base you would get for every remaining quote atom at this
            // price; at the limit it is a full match, so round taker-ward.
            let base_atoms_limit: BaseAtoms = match o.get_price().checked_base_for_quote(
                QuoteAtoms::new(remaining),
                !is_bid,
            ) {
                Ok(b) => b,
                Err(e) => {
                    return Err(e);
                },
            };
            // Either fill the entire resting order, or only the base limit,
            // in which case this is the last iteration.
            let matched_base_atoms: BaseAtoms = o.get_num_base_atoms().min(base_atoms_limit);
            let did_fully_match_resting_order: bool = base_atoms_limit.as_u64()
                >= o.get_num_base_atoms().as_u64();
            let matched_quote_atoms: QuoteAtoms = match o.get_price().checked_quote_for_base(
                matched_base_atoms,
                is_bid != did_fully_match_resting_order,
            ) {
                Ok(q) => q,
                Err(e) => {
                    return Err(e);
                },
            };
            // Skip unbacked global orders.
            if self.is_unbacked_global_order(
                &o,
                is_bid,
                required_global,
                matched_base_atoms,
                matched_quote_atoms,
            ) {
                proof {
                    k = k + 1;
                }
                cur = next;
                continue ;
            }
            if total > u64::MAX - matched_base_atoms.as_u64() {
                return Err(ManifestError::ArithmeticOverflow);
            }
            total = total + matched_base_atoms.as_u64();
            if !did_fully_match_resting_order {
                break ;
            }
            if matched_quote_atoms.as_u64() > remaining {
                return Err(ManifestError::ArithmeticOverflow);
            }
            remaining = remaining - matched_quote_atoms.as_u64();
            // The base can match exactly while the quote is depleted at the
            // same time.
            if remaining == 0 {
                break ;
            }
            proof {
                k = k + 1;
            }
            cur = next;
        }
        Ok(BaseAtoms::new(total))
    }
}

} // verus!
