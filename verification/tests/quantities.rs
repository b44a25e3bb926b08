use manifest_core::error::ManifestError;
use manifest_core::quantities::{BaseAtoms, PRICE_SCALE, QuoteAtoms, QuoteAtomsPerBaseAtom};

fn price(units: u128, fraction_scaled: u128) -> QuoteAtomsPerBaseAtom {
    QuoteAtomsPerBaseAtom::new_scaled(units * PRICE_SCALE + fraction_scaled)
}

#[test]
fn quote_for_base_exact() {
    // 3 base at 1.5 quote per base: 4.5 quote, rounded per direction.
    let p = price(1, PRICE_SCALE / 2);
    let down = p
        .checked_quote_for_base(BaseAtoms::new(3), false)
        .unwrap();
    let up = p.checked_quote_for_base(BaseAtoms::new(3), true).unwrap();
    assert_eq!(down.as_u64(), 4);
    assert_eq!(up.as_u64(), 5);
}

#[test]
fn quote_for_base_whole_price() {
    let p = price(2, 0);
    let q = p
        .checked_quote_for_base(BaseAtoms::new(100), false)
        .unwrap();
    assert_eq!(q.as_u64(), 200);
    // An exact product rounds the same in both directions.
    let q_up = p.checked_quote_for_base(BaseAtoms::new(100), true).unwrap();
    assert_eq!(q_up.as_u64(), 200);
}

#[test]
fn quote_for_base_overflow() {
    let p = QuoteAtomsPerBaseAtom::new_scaled(u128::MAX);
    let r = p.checked_quote_for_base(BaseAtoms::new(2), false);
    assert_eq!(r.unwrap_err(), ManifestError::ArithmeticOverflow);
}

#[test]
fn base_for_quote_exact() {
    let p = price(2, 0);
    let b = p
        .checked_base_for_quote(QuoteAtoms::new(100), false)
        .unwrap();
    assert_eq!(b.as_u64(), 50);
    // 100 quote at 1.001: 99.9000999... base, up rounds to 100.
    let p2 = price(1, PRICE_SCALE / 1000);
    let b_up = p2
        .checked_base_for_quote(QuoteAtoms::new(100), true)
        .unwrap();
    assert_eq!(b_up.as_u64(), 100);
    let b_down = p2
        .checked_base_for_quote(QuoteAtoms::new(100), false)
        .unwrap();
    assert_eq!(b_down.as_u64(), 99);
}

#[test]
fn base_for_quote_zero_price() {
    let p = QuoteAtomsPerBaseAtom::zero();
    let b = p
        .checked_base_for_quote(QuoteAtoms::new(500), true)
        .unwrap();
    assert_eq!(b.as_u64(), 0);
}

#[test]
fn multiply_rational_rounding() {
    let p = price(2, 0);
    // Scaling by 99_000 / 100_000 with rounding up.
    let scaled = p.checked_multiply_rational(99_000, 100_000, true).unwrap();
    assert_eq!(scaled.inner, 2 * PRICE_SCALE / 100 * 99);
    // 1 / 3 of one quote-per-base rounds differently per direction.
    let third_down = price(1, 0).checked_multiply_rational(1, 3, false).unwrap();
    let third_up = price(1, 0).checked_multiply_rational(1, 3, true).unwrap();
    assert_eq!(third_up.inner, third_down.inner + 1);
}

#[test]
fn checked_add_sub_bounds() {
    let a = BaseAtoms::new(u64::MAX - 1);
    assert_eq!(a.checked_add(BaseAtoms::new(1)).unwrap().as_u64(), u64::MAX);
    assert_eq!(
        a.checked_add(BaseAtoms::new(2)).unwrap_err(),
        ManifestError::ArithmeticOverflow
    );
    assert_eq!(
        BaseAtoms::new(1).checked_sub(BaseAtoms::new(2)).unwrap_err(),
        ManifestError::ArithmeticOverflow
    );
    let q = QuoteAtoms::new(7);
    assert_eq!(q.checked_sub(QuoteAtoms::new(7)).unwrap().as_u64(), 0);
    assert_eq!(q.checked_add(QuoteAtoms::new(3)).unwrap().as_u64(), 10);
}
