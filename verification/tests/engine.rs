use manifest_core::account_key::AccountKey;
use manifest_core::error::ManifestError;
use manifest_core::global::{Global, GlobalBacking, can_back_order};
use manifest_core::market::Market;
use manifest_core::quantities::{BaseAtoms, GlobalAtoms, PRICE_SCALE, QuoteAtoms, QuoteAtomsPerBaseAtom};
use manifest_core::resting_order::{OrderType, RestingOrder};

fn key(n: u128) -> AccountKey {
    AccountKey::new(0, n)
}

fn new_market(capacity: u32) -> Market {
    Market::new(key(1), key(2), 9, 6, key(3), 255, key(4), 254, capacity)
}

fn price(units: u128) -> QuoteAtomsPerBaseAtom {
    QuoteAtomsPerBaseAtom::new_scaled(units * PRICE_SCALE)
}

fn ask(
    seat: u32,
    qty: u64,
    p: QuoteAtomsPerBaseAtom,
    seq: u64,
    last_valid_slot: u32,
    order_type: OrderType,
) -> RestingOrder {
    RestingOrder::new(seat, BaseAtoms::new(qty), p, seq, last_valid_slot, false, order_type)
        .unwrap()
}

fn bid(seat: u32, qty: u64, p: QuoteAtomsPerBaseAtom, seq: u64) -> RestingOrder {
    RestingOrder::new(seat, BaseAtoms::new(qty), p, seq, 0, true, OrderType::Limit).unwrap()
}

const NO_GLOBALS: [GlobalBacking; 2] = [GlobalBacking::Missing, GlobalBacking::Missing];

#[test]
fn impact_partial_fill_rounds_for_taker() {
    let mut m = new_market(8);
    let seat = m.claim_seat(key(10)).unwrap();
    m.insert_order(ask(seat, 100, price(2), 0, 0, OrderType::Limit))
        .unwrap();
    let q = m
        .impact_quote_atoms_with_slot(true, BaseAtoms::new(50), &NO_GLOBALS, 0)
        .unwrap();
    assert_eq!(q.as_u64(), 100);
}

#[test]
fn impact_thin_book_underfill() {
    let mut m = new_market(8);
    let seat = m.claim_seat(key(10)).unwrap();
    m.insert_order(ask(seat, 100, price(2), 0, 0, OrderType::Limit))
        .unwrap();
    let q = m
        .impact_quote_atoms_with_slot(true, BaseAtoms::new(200), &NO_GLOBALS, 0)
        .unwrap();
    // The cap exceeds the book: the full resting amount converts, with no
    // distinct underfill signal.
    assert_eq!(q.as_u64(), 200);
}

#[test]
fn impact_unbacked_global_blocks_walk() {
    let mut m = new_market(8);
    let seat = m.claim_seat(key(10)).unwrap();
    m.insert_order(ask(seat, 100, price(2), 0, 0, OrderType::Global))
        .unwrap();
    let q = m
        .impact_quote_atoms_with_slot(true, BaseAtoms::new(50), &NO_GLOBALS, 0)
        .unwrap();
    assert_eq!(q.as_u64(), 0);
}

#[test]
fn impact_underfunded_global_is_skipped_not_blocking() {
    let mut m = new_market(8);
    let trader = key(10);
    let seat = m.claim_seat(trader).unwrap();
    m.insert_order(ask(seat, 100, price(1), 0, 0, OrderType::Global))
        .unwrap();
    m.insert_order(ask(seat, 10, price(3), 1, 0, OrderType::Limit))
        .unwrap();
    let mut g = Global::new_empty(key(1), key(5), 253, 252, 8);
    g.add_trader(trader, GlobalAtoms::new(10)).unwrap();
    let backings = [GlobalBacking::Ledger(&g), GlobalBacking::Ledger(&g)];
    let q = m
        .impact_quote_atoms_with_slot(true, BaseAtoms::new(100), &backings, 0)
        .unwrap();
    // The global ask would need 100 backed atoms but only 10 are deposited,
    // so it is skipped; the worse-priced limit ask still counts.
    assert_eq!(q.as_u64(), 30);
}

#[test]
fn impact_funded_global_counts() {
    let mut m = new_market(8);
    let trader = key(10);
    let seat = m.claim_seat(trader).unwrap();
    m.insert_order(ask(seat, 100, price(1), 0, 0, OrderType::Global))
        .unwrap();
    let mut g = Global::new_empty(key(1), key(5), 253, 252, 8);
    g.add_trader(trader, GlobalAtoms::new(1_000)).unwrap();
    let backings = [GlobalBacking::Ledger(&g), GlobalBacking::Ledger(&g)];
    let q = m
        .impact_quote_atoms_with_slot(true, BaseAtoms::new(100), &backings, 0)
        .unwrap();
    assert_eq!(q.as_u64(), 100);
}

#[test]
fn impact_expired_order_excluded_but_still_indexed() {
    let mut m = new_market(8);
    let seat = m.claim_seat(key(10)).unwrap();
    m.insert_order(ask(seat, 100, price(2), 0, 5, OrderType::Limit))
        .unwrap();
    let q_late = m
        .impact_quote_atoms_with_slot(true, BaseAtoms::new(50), &NO_GLOBALS, 10)
        .unwrap();
    assert_eq!(q_late.as_u64(), 0);
    // At its last valid slot the order still matches.
    let q_valid = m
        .impact_quote_atoms_with_slot(true, BaseAtoms::new(50), &NO_GLOBALS, 5)
        .unwrap();
    assert_eq!(q_valid.as_u64(), 100);
    // The expired order remains on the book until removed.
    assert_eq!(m.get_asks().len(), 1);
}

#[test]
fn impact_repeat_is_identical() {
    let mut m = new_market(8);
    let seat = m.claim_seat(key(10)).unwrap();
    m.insert_order(ask(seat, 100, price(2), 0, 0, OrderType::Limit))
        .unwrap();
    m.insert_order(bid(seat, 40, price(1), 1)).unwrap();
    let a = m.impact_quote_atoms_with_slot(true, BaseAtoms::new(70), &NO_GLOBALS, 0);
    let b = m.impact_quote_atoms_with_slot(true, BaseAtoms::new(70), &NO_GLOBALS, 0);
    assert_eq!(a, b);
    let c = m.impact_base_atoms_with_slot(false, QuoteAtoms::new(30), &NO_GLOBALS, 0);
    let d = m.impact_base_atoms_with_slot(false, QuoteAtoms::new(30), &NO_GLOBALS, 0);
    assert_eq!(c, d);
}

#[test]
fn impact_base_for_quote_cap() {
    let mut m = new_market(8);
    let seat = m.claim_seat(key(10)).unwrap();
    m.insert_order(ask(seat, 100, price(2), 0, 0, OrderType::Limit))
        .unwrap();
    // 60 quote at 2.0 quote per base buys 30 base.
    let b = m
        .impact_base_atoms_with_slot(true, QuoteAtoms::new(60), &NO_GLOBALS, 0)
        .unwrap();
    assert_eq!(b.as_u64(), 30);
    // More quote than the book holds: all 100 base come out.
    let b2 = m
        .impact_base_atoms_with_slot(true, QuoteAtoms::new(500), &NO_GLOBALS, 0)
        .unwrap();
    assert_eq!(b2.as_u64(), 100);
}

#[test]
fn iteration_is_price_monotonic() {
    let mut m = new_market(16);
    let seat = m.claim_seat(key(10)).unwrap();
    for (i, p) in [5u128, 3, 8].into_iter().enumerate() {
        m.insert_order(bid(seat, 10, price(p), i as u64)).unwrap();
        m.insert_order(ask(seat, 10, price(p), 10 + i as u64, 0, OrderType::Limit))
            .unwrap();
    }
    let bid_prices: Vec<u128> = m.get_bids().iter().map(|o| o.get_price().inner).collect();
    let ask_prices: Vec<u128> = m.get_asks().iter().map(|o| o.get_price().inner).collect();
    assert_eq!(bid_prices, vec![8 * PRICE_SCALE, 5 * PRICE_SCALE, 3 * PRICE_SCALE]);
    assert_eq!(ask_prices, vec![3 * PRICE_SCALE, 5 * PRICE_SCALE, 8 * PRICE_SCALE]);
}

#[test]
fn equal_prices_keep_arrival_order() {
    let mut m = new_market(8);
    let seat = m.claim_seat(key(10)).unwrap();
    m.insert_order(ask(seat, 10, price(2), 1, 0, OrderType::Limit))
        .unwrap();
    m.insert_order(ask(seat, 20, price(2), 2, 0, OrderType::Limit))
        .unwrap();
    let seqs: Vec<u64> = m.get_asks().iter().map(|o| o.get_sequence_number()).collect();
    assert_eq!(seqs, vec![1, 2]);
}

#[test]
fn round_trip_multiset_preserved() {
    let mut m = new_market(16);
    let seat = m.claim_seat(key(10)).unwrap();
    let written = [(2u128, 10u64, 1u64), (1, 5, 2), (2, 7, 3), (9, 1, 4)];
    for (p, qty, seq) in written {
        m.insert_order(ask(seat, qty, price(p), seq, 0, OrderType::Limit))
            .unwrap();
    }
    let mut seen: Vec<(u128, u64, u64)> = m
        .get_asks()
        .iter()
        .map(|o| (o.get_price().inner, o.get_num_base_atoms().as_u64(), o.get_sequence_number()))
        .collect();
    let mut expected: Vec<(u128, u64, u64)> = written
        .iter()
        .map(|&(p, qty, seq)| (p * PRICE_SCALE, qty, seq))
        .collect();
    seen.sort();
    expected.sort();
    assert_eq!(seen, expected);
}

#[test]
fn capacity_and_block_reuse() {
    let mut m = new_market(2);
    let seat = m.claim_seat(key(10)).unwrap();
    assert!(m.has_free_block());
    assert!(!m.has_two_free_blocks());
    let idx = m.insert_order(ask(seat, 10, price(2), 1, 0, OrderType::Limit)).unwrap();
    assert!(!m.has_free_block());
    let err = m
        .insert_order(ask(seat, 10, price(3), 2, 0, OrderType::Limit))
        .unwrap_err();
    assert_eq!(err, ManifestError::CapacityExhausted);
    // Removing an order frees its block for reuse.
    m.remove_order(idx);
    assert!(m.has_free_block());
    m.insert_order(ask(seat, 4, price(5), 3, 0, OrderType::Limit))
        .unwrap();
    let asks = m.get_asks();
    assert_eq!(asks.len(), 1);
    assert_eq!(asks[0].get_num_base_atoms().as_u64(), 4);
}

#[test]
fn claim_seat_is_unique_per_trader() {
    let mut m = new_market(8);
    m.claim_seat(key(10)).unwrap();
    let err = m.claim_seat(key(10)).unwrap_err();
    assert_eq!(err, ManifestError::AlreadyClaimedSeat);
    m.claim_seat(key(11)).unwrap();
    assert_eq!(m.get_seats().len(), 2);
}

#[test]
fn reverse_orders_cannot_expire() {
    let r = RestingOrder::new(
        0,
        BaseAtoms::new(10),
        price(2),
        1,
        7,
        false,
        OrderType::Reverse,
    );
    assert_eq!(r.unwrap_err(), ManifestError::InvalidOrder);
    let rt = RestingOrder::new(
        0,
        BaseAtoms::new(10),
        price(2),
        1,
        7,
        false,
        OrderType::ReverseTight,
    );
    assert_eq!(rt.unwrap_err(), ManifestError::InvalidOrder);
    // Without an expiration the same construction succeeds.
    assert!(RestingOrder::new(0, BaseAtoms::new(10), price(2), 1, 0, false, OrderType::Reverse)
        .is_ok());
}

#[test]
fn reverse_price_scales_by_spread() {
    let mut a = ask(0, 10, price(2), 1, 0, OrderType::Reverse);
    a.set_reverse_spread(1_000);
    // Ask at 2.0 re-quotes as a bid at 2.0 * (1 - 1000/100000) = 1.98.
    assert_eq!(a.reverse_price().unwrap().inner, 2 * PRICE_SCALE / 100 * 99);
    let mut b = RestingOrder::new(0, BaseAtoms::new(10), price(2), 1, 0, true, OrderType::Reverse)
        .unwrap();
    b.set_reverse_spread(50_000);
    // Bid at 2.0 re-quotes as an ask at 2.0 / (1 - 1/2) = 4.0.
    assert_eq!(b.reverse_price().unwrap().inner, 4 * PRICE_SCALE);
    // Non-reversible orders keep their own price.
    let plain = ask(0, 10, price(7), 1, 0, OrderType::Limit);
    assert_eq!(plain.reverse_price().unwrap().inner, 7 * PRICE_SCALE);
}

#[test]
fn lookup_key_coalesces_adjacent_reverse_prices() {
    let mk = |inner: u128, t: OrderType| {
        RestingOrder::new(0, BaseAtoms::new(1), QuoteAtomsPerBaseAtom::new_scaled(inner), 0, 0, false, t)
            .unwrap()
    };
    let a = mk(100, OrderType::Reverse);
    assert!(a.matches_lookup_key(&mk(100, OrderType::Reverse)));
    assert!(a.matches_lookup_key(&mk(101, OrderType::Reverse)));
    assert!(a.matches_lookup_key(&mk(99, OrderType::Reverse)));
    assert!(!a.matches_lookup_key(&mk(102, OrderType::Reverse)));
    let l = mk(100, OrderType::Limit);
    assert!(l.matches_lookup_key(&mk(100, OrderType::Limit)));
    assert!(!l.matches_lookup_key(&mk(101, OrderType::Limit)));
    assert!(!l.matches_lookup_key(&a));
}

#[test]
fn order_flags_and_reduce_increase() {
    let mut o = ask(3, 10, price(2), 9, 0, OrderType::Global);
    assert!(o.is_global());
    assert!(!o.is_reverse());
    assert!(!o.is_reversible());
    assert_eq!(o.get_trader_index(), 3);
    assert!(!o.get_is_bid());
    assert!(!o.is_expired(0));
    o.reduce(BaseAtoms::new(4)).unwrap();
    assert_eq!(o.get_num_base_atoms().as_u64(), 6);
    o.increase(BaseAtoms::new(1)).unwrap();
    assert_eq!(o.get_num_base_atoms().as_u64(), 7);
    assert_eq!(
        o.reduce(BaseAtoms::new(8)).unwrap_err(),
        ManifestError::ArithmeticOverflow
    );
    assert!(OrderType::Reverse.is_reversible());
    assert!(!OrderType::PostOnly.is_reversible());
    assert_eq!(OrderType::default(), OrderType::Limit);
}

#[test]
fn global_balance_lookup() {
    let mut g = Global::new_empty(key(1), key(5), 253, 252, 8);
    assert_eq!(g.get_balance_atoms(&key(10)).as_u64(), 0);
    g.add_trader(key(10), GlobalAtoms::new(77)).unwrap();
    g.add_trader(key(11), GlobalAtoms::new(5)).unwrap();
    assert_eq!(g.get_balance_atoms(&key(10)).as_u64(), 77);
    assert_eq!(g.get_balance_atoms(&key(11)).as_u64(), 5);
    // An absent (for example evicted) trader reads as zero, not an error.
    assert_eq!(g.get_balance_atoms(&key(12)).as_u64(), 0);
    assert_eq!(
        g.add_trader(key(10), GlobalAtoms::new(1)).unwrap_err(),
        ManifestError::AlreadyClaimedSeat
    );
}

#[test]
fn can_back_order_cases() {
    let mut g = Global::new_empty(key(1), key(5), 253, 252, 8);
    g.add_trader(key(10), GlobalAtoms::new(50)).unwrap();
    assert!(!can_back_order(&GlobalBacking::Missing, key(10), GlobalAtoms::new(1)));
    assert!(!can_back_order(&GlobalBacking::Contended, key(10), GlobalAtoms::new(1)));
    assert!(can_back_order(&GlobalBacking::Ledger(&g), key(10), GlobalAtoms::new(50)));
    assert!(!can_back_order(&GlobalBacking::Ledger(&g), key(10), GlobalAtoms::new(51)));
    assert!(!can_back_order(&GlobalBacking::Ledger(&g), key(99), GlobalAtoms::new(1)));
}

#[test]
fn in_place_reduce_and_increase() {
    let mut m = new_market(8);
    let seat = m.claim_seat(key(10)).unwrap();
    let idx = m
        .insert_order(ask(seat, 10, price(2), 1, 0, OrderType::Limit))
        .unwrap();
    m.insert_order(ask(seat, 5, price(3), 2, 0, OrderType::Limit))
        .unwrap();
    m.reduce_order(idx, BaseAtoms::new(4)).0.unwrap();
    assert_eq!(m.get_asks()[0].get_num_base_atoms().as_u64(), 6);
    m.increase_order(idx, BaseAtoms::new(10)).0.unwrap();
    assert_eq!(m.get_asks()[0].get_num_base_atoms().as_u64(), 16);
    assert_eq!(m.get_asks()[1].get_num_base_atoms().as_u64(), 5);
    let (res, _) = m.reduce_order(idx, BaseAtoms::new(100));
    assert_eq!(res.unwrap_err(), ManifestError::ArithmeticOverflow);
    // The order kept its queue position throughout.
    let seqs: Vec<u64> = m.get_asks().iter().map(|o| o.get_sequence_number()).collect();
    assert_eq!(seqs, vec![1, 2]);
}
