//! Laws the book structures and simulators obey, stated once and proved
//! from the public contracts and the market invariant.

use vstd::prelude::*;

use vstd::set_lib::{lemma_int_range, set_int_range};

use crate::global::GlobalBacking;
use crate::impact::{impact_base_spec, impact_quote_go, impact_quote_spec};
use crate::market::{Market, order_before};
use crate::ordered::{OrderedPayload, lemma_insert_to_multiset, payloads};
use crate::quantities::quote_for_base_spec;
use crate::resting_order::{OrderType, RestingOrder, is_expired_spec};

verus! {

/// Ascending iteration of a side yields monotonic prices: bids
/// non-increasing, asks non-decreasing, whatever sequence of inserts and
/// removals produced the book.
pub proof fn lemma_iteration_price_monotonic(m: Market)
    requires
        m.inv(),
    ensures
        forall|j: int, k: int|
            0 <= j < k < m.bids_view().len() ==> m.bids_view()[j].price.inner
                >= m.bids_view()[k].price.inner,
        forall|j: int, k: int|
            0 <= j < k < m.asks_view().len() ==> m.asks_view()[j].price.inner
                <= m.asks_view()[k].price.inner,
{
    assert forall|j: int, k: int| 0 <= j < k < m.bids_view().len() implies m.bids_view()[j].price.inner
        >= m.bids_view()[k].price.inner by {
        assert(m.arena.payload_of(m.bids.elems@[j]).before_spec(
            m.arena.payload_of(m.bids.elems@[k]),
        ));
        assert(payloads(m.bids, m.arena)[j] is Order);
        assert(payloads(m.bids, m.arena)[k] is Order);
        assert(order_before(m.bids_view()[j], m.bids_view()[k]));
    }
    assert forall|j: int, k: int| 0 <= j < k < m.asks_view().len() implies m.asks_view()[j].price.inner
        <= m.asks_view()[k].price.inner by {
        assert(m.arena.payload_of(m.asks.elems@[j]).before_spec(
            m.arena.payload_of(m.asks.elems@[k]),
        ));
        assert(payloads(m.asks, m.arena)[j] is Order);
        assert(payloads(m.asks, m.arena)[k] is Order);
        assert(order_before(m.asks_view()[j], m.asks_view()[k]));
    }
}

/// Every allocated block has exactly one home: the free count plus the
/// node counts of the three indices add up to the allocation count, and no
/// block index appears twice across them.
pub proof fn lemma_block_accounting(m: Market)
    requires
        m.inv(),
    ensures
        m.arena.free_count() + m.bids.elems@.len() + m.asks.elems@.len() + m.seats.elems@.len()
            == m.arena.allocated(),
        (m.bids.elems@ + m.asks.elems@ + m.seats.elems@ + m.arena.free_order@).no_duplicates(),
{
    let c = m.bids.elems@ + m.asks.elems@ + m.seats.elems@ + m.arena.free_order@;
    let nb = m.bids.elems@.len() as int;
    let na = m.asks.elems@.len() as int;
    let ns = m.seats.elems@.len() as int;
    // Where each segment of the concatenation sits.
    assert forall|i: int| 0 <= i < c.len() implies c[i] == (if i < nb {
        m.bids.elems@[i]
    } else if i < nb + na {
        m.asks.elems@[i - nb]
    } else if i < nb + na + ns {
        m.seats.elems@[i - nb - na]
    } else {
        m.arena.free_order@[i - nb - na - ns]
    }) by {}
    // Free blocks are free, list blocks are live, so the free segment is
    // disjoint from the rest; the three lists are pairwise disjoint and
    // individually duplicate-free by the invariant.
    assert forall|i: int, j: int| 0 <= i < j < c.len() implies c[i] != c[j] by {
        if j >= nb + na + ns && i < nb + na + ns {
            assert(m.arena.blocks@[c[j] as int] is Free);
            assert(m.arena.is_live(c[i]));
        }
    }
    assert(c.no_duplicates());
    // Cast to integers to count: the set of indices is exactly the
    // allocated range.
    let ci = c.map(|_k: int, x: u32| x as int);
    assert(ci.no_duplicates()) by {
        assert forall|i: int, j: int| 0 <= i < j < ci.len() implies ci[i] != ci[j] by {
            assert(c[i] != c[j]);
        }
    }
    let range = set_int_range(0, m.arena.allocated());
    assert(ci.to_set() =~= range) by {
        assert forall|x: int| ci.to_set().contains(x) implies range.contains(x) by {
            let i = choose|i: int| 0 <= i < ci.len() && ci[i] == x;
            assert(c[i] as int == x);
            if i < nb + na + ns {
                assert(m.arena.is_live(c[i]));
            } else {
                assert(m.arena.free_order@[i - nb - na - ns] < m.arena.num_allocated);
            }
        }
        assert forall|x: int| range.contains(x) implies ci.to_set().contains(x) by {
            let w: u32 = x as u32;
            assert(!(m.arena.blocks@[x] is Unused));
            if m.arena.blocks@[x] is Free {
                assert(m.arena.free_order@.contains(w));
                let i = choose|i: int|
                    0 <= i < m.arena.free_order@.len() && m.arena.free_order@[i] == w;
                assert(c[nb + na + ns + i] == w);
                assert(ci[nb + na + ns + i] == x);
            } else {
                assert(m.arena.is_live(w));
                if m.bids.elems@.contains(w) {
                    let i = choose|i: int|
                        0 <= i < m.bids.elems@.len() && m.bids.elems@[i] == w;
                    assert(ci[i] == x);
                } else if m.asks.elems@.contains(w) {
                    let i = choose|i: int|
                        0 <= i < m.asks.elems@.len() && m.asks.elems@[i] == w;
                    assert(ci[nb + i] == x);
                } else {
                    assert(m.seats.elems@.contains(w));
                    let i = choose|i: int|
                        0 <= i < m.seats.elems@.len() && m.seats.elems@[i] == w;
                    assert(ci[nb + na + i] == x);
                }
            }
        }
    }
    ci.unique_seq_to_set();
    lemma_int_range(0, m.arena.allocated());
}

/// Writing an order into a side and reading the side back yields the same
/// multiset of entries plus the new one, wherever it was slotted in.
pub proof fn lemma_insert_round_trip_multiset(s: Seq<RestingOrder>, pos: int, o: RestingOrder)
    requires
        0 <= pos <= s.len(),
    ensures
        s.insert(pos, o).to_multiset() == s.to_multiset().insert(o),
{
    lemma_insert_to_multiset(s, pos, o);
}

/// Repeating an impact computation without intervening mutation yields
/// identical output: both simulators are functions of the market state and
/// their arguments alone.
pub proof fn lemma_impact_idempotent(
    m: Market,
    is_bid: bool,
    limit: u64,
    backing: GlobalBacking,
    now_slot: u32,
    r1: Option<u64>,
    r2: Option<u64>,
)
    requires
        r1 == impact_quote_spec(m, is_bid, limit, backing, now_slot) || r1 == impact_base_spec(
            m,
            is_bid,
            limit,
            backing,
            now_slot,
        ),
        r2 == impact_quote_spec(m, is_bid, limit, backing, now_slot) || r2 == impact_base_spec(
            m,
            is_bid,
            limit,
            backing,
            now_slot,
        ),
        r1 == impact_quote_spec(m, is_bid, limit, backing, now_slot) <==> r2 == impact_quote_spec(
            m,
            is_bid,
            limit,
            backing,
            now_slot,
        ),
    ensures
        r1 == r2,
{
}

/// Two walks over suffixes that hold the same orders come out equal.
proof fn lemma_quote_go_align(
    m: Market,
    o1: Seq<RestingOrder>,
    o2: Seq<RestingOrder>,
    is_bid: bool,
    k1: int,
    k2: int,
    remaining: u64,
    backing: GlobalBacking,
    now_slot: u32,
    acc: u64,
)
    requires
        0 <= k1 <= o1.len(),
        0 <= k2 <= o2.len(),
        o1.len() - k1 == o2.len() - k2,
        forall|d: int| 0 <= d < o1.len() - k1 ==> #[trigger] o1[k1 + d] == o2[k2 + d],
    ensures
        impact_quote_go(m, o1, is_bid, k1, remaining, backing, now_slot, acc) == impact_quote_go(
            m,
            o2,
            is_bid,
            k2,
            remaining,
            backing,
            now_slot,
            acc,
        ),
    decreases o1.len() - k1,
{
    if k1 < o1.len() {
        assert(o1[k1 + 0] == o2[k2 + 0]);
        assert forall|d: int| 0 <= d < o1.len() - (k1 + 1) implies #[trigger] o1[(k1 + 1) + d]
            == o2[(k2 + 1) + d] by {
            assert(o1[k1 + (d + 1)] == o2[k2 + (d + 1)]);
        }
        let o = o1[k1];
        if is_expired_spec(o, now_slot) {
            lemma_quote_go_align(m, o1, o2, is_bid, k1 + 1, k2 + 1, remaining, backing, now_slot, acc);
        } else if o.order_type == OrderType::Global && backing is Missing {
        } else {
            let matched_base = crate::impact::min_u64(o.num_base_atoms.atoms, remaining);
            let fully = remaining >= o.num_base_atoms.atoms;
            match quote_for_base_spec(o.price, matched_base, is_bid != fully) {
                None => {},
                Some(mq) => {
                    if crate::impact::is_unbacked_global_spec(
                        m,
                        o,
                        is_bid,
                        backing,
                        matched_base,
                        mq,
                    ) {
                        lemma_quote_go_align(
                            m,
                            o1,
                            o2,
                            is_bid,
                            k1 + 1,
                            k2 + 1,
                            remaining,
                            backing,
                            now_slot,
                            acc,
                        );
                    } else if acc + mq > u64::MAX {
                    } else if !fully {
                    } else {
                        lemma_quote_go_align(
                            m,
                            o1,
                            o2,
                            is_bid,
                            k1 + 1,
                            k2 + 1,
                            (remaining - matched_base) as u64,
                            backing,
                            now_slot,
                            (acc + mq) as u64,
                        );
                    }
                },
            }
        }
    }
}

/// An expired order contributes nothing to a quote-impact walk: the
/// outcome over a book holding it equals the outcome with it removed. It
/// stays indexed all the same; only an explicit removal unlinks it.
pub proof fn lemma_expired_order_excluded(
    m: Market,
    orders: Seq<RestingOrder>,
    is_bid: bool,
    pos: int,
    k: int,
    remaining: u64,
    backing: GlobalBacking,
    now_slot: u32,
    acc: u64,
)
    requires
        0 <= k <= pos < orders.len(),
        is_expired_spec(orders[pos], now_slot),
    ensures
        impact_quote_go(m, orders, is_bid, k, remaining, backing, now_slot, acc)
            == impact_quote_go(m, orders.remove(pos), is_bid, k, remaining, backing, now_slot, acc),
    decreases pos - k,
{
    let trimmed = orders.remove(pos);
    if k == pos {
        assert(impact_quote_go(m, orders, is_bid, k, remaining, backing, now_slot, acc)
            == impact_quote_go(m, orders, is_bid, k + 1, remaining, backing, now_slot, acc));
        lemma_quote_go_align(
            m,
            orders,
            trimmed,
            is_bid,
            k + 1,
            k,
            remaining,
            backing,
            now_slot,
            acc,
        );
    } else {
        assert(trimmed[k] == orders[k]);
        let o = orders[k];
        if is_expired_spec(o, now_slot) {
            lemma_expired_order_excluded(
                m,
                orders,
                is_bid,
                pos,
                k + 1,
                remaining,
                backing,
                now_slot,
                acc,
            );
        } else if o.order_type == OrderType::Global && backing is Missing {
        } else {
            let matched_base = crate::impact::min_u64(o.num_base_atoms.atoms, remaining);
            let fully = remaining >= o.num_base_atoms.atoms;
            match quote_for_base_spec(o.price, matched_base, is_bid != fully) {
                None => {},
                Some(mq) => {
                    if crate::impact::is_unbacked_global_spec(
                        m,
                        o,
                        is_bid,
                        backing,
                        matched_base,
                        mq,
                    ) {
                        lemma_expired_order_excluded(
                            m,
                            orders,
                            is_bid,
                            pos,
                            k + 1,
                            remaining,
                            backing,
                            now_slot,
                            acc,
                        );
                    } else if acc + mq > u64::MAX {
                    } else if !fully {
                    } else {
                        lemma_expired_order_excluded(
                            m,
                            orders,
                            is_bid,
                            pos,
                            k + 1,
                            (remaining - matched_base) as u64,
                            backing,
                            now_slot,
                            (acc + mq) as u64,
                        );
                    }
                },
            }
        }
    }
}

} // verus!
