use manifest_core::account_key::AccountKey;
use manifest_core::constants::{
    GLOBAL_FIXED_DISCRIMINANT, MARKET_FIXED_DISCRIMINANT, MARKET_FIXED_SIZE,
};
use manifest_core::error::ManifestError;
use manifest_core::global::GlobalFixed;
use manifest_core::market::{Market, MarketFixed};
use manifest_core::utils::get_discriminant;
use manifest_core::validation::{
    ManifestAccount, read_discriminant, read_key_at, read_le_u64_at, verify_uninitialized,
};

fn key(n: u128) -> AccountKey {
    AccountKey::new(0, n)
}

#[test]
fn test_get_discriminant() {
    // Update this when updating program id.
    assert_eq!(get_discriminant::<MarketFixed>(), 4859840929024028656);
}

#[test]
fn market_header_fields_and_discriminant() {
    let m = Market::new(key(1), key(2), 9, 6, key(3), 255, key(4), 254, 4);
    assert_eq!(m.fixed.discriminant, MARKET_FIXED_DISCRIMINANT);
    assert!(m.fixed.verify_discriminant().is_ok());
    assert_eq!(*m.fixed.get_base_mint(), key(1));
    assert_eq!(*m.fixed.get_quote_mint(), key(2));
    assert_eq!(*m.fixed.get_base_vault(), key(3));
    assert_eq!(*m.fixed.get_quote_vault(), key(4));
    assert_eq!(m.fixed.get_base_mint_decimals(), 9);
    assert_eq!(m.fixed.get_quote_mint_decimals(), 6);
    assert_eq!(m.fixed.get_base_vault_bump(), 255);
    assert_eq!(m.fixed.get_quote_vault_bump(), 254);
    assert_eq!(m.fixed.get_quote_volume().as_u64(), 0);
    let mut bad = m.fixed;
    bad.discriminant = 7;
    assert_eq!(
        bad.verify_discriminant().unwrap_err(),
        ManifestError::InvalidAccountData
    );
}

#[test]
fn global_header_fields_and_discriminant() {
    let g = GlobalFixed::new_empty(key(9), key(8), 251, 250);
    assert_eq!(g.discriminant, GLOBAL_FIXED_DISCRIMINANT);
    assert!(g.verify_discriminant().is_ok());
    assert_eq!(*g.get_mint(), key(9));
    assert_eq!(*g.get_vault(), key(8));
    assert_eq!(g.get_vault_bump(), 251);
}

#[test]
fn discriminant_reads_little_endian() {
    let data = [1u8, 2, 3, 4, 5, 6, 7, 8, 99];
    assert_eq!(read_discriminant(&data).unwrap(), 0x0807060504030201);
    assert_eq!(
        read_discriminant(&[1, 2, 3]).unwrap_err(),
        ManifestError::InvalidAccountData
    );
    let mut market_bytes = [0u8; 16];
    market_bytes[..8].copy_from_slice(&MARKET_FIXED_DISCRIMINANT.to_le_bytes());
    assert_eq!(read_discriminant(&market_bytes).unwrap(), MARKET_FIXED_DISCRIMINANT);
}

#[test]
fn uninitialized_buffer_checks() {
    let zeroed = vec![0u8; MARKET_FIXED_SIZE];
    assert!(verify_uninitialized(&zeroed, MARKET_FIXED_SIZE).is_ok());
    assert_eq!(
        verify_uninitialized(&zeroed, MARKET_FIXED_SIZE + 1).unwrap_err(),
        ManifestError::InvalidAccountData
    );
    let mut dirty = zeroed.clone();
    dirty[100] = 1;
    assert_eq!(
        verify_uninitialized(&dirty, MARKET_FIXED_SIZE).unwrap_err(),
        ManifestError::InvalidAccountData
    );
}

#[test]
fn token_account_byte_readers() {
    // A token account keeps mint at 0..32, owner at 32..64, amount at 64..72.
    let mut data = [0u8; 72];
    data[31] = 7;
    data[32] = 1;
    data[64..72].copy_from_slice(&123_456u64.to_le_bytes());
    let mint = read_key_at(&data, 0).unwrap();
    assert_eq!(mint, AccountKey::new(0, 7));
    let owner = read_key_at(&data, 32).unwrap();
    assert_eq!(owner.hi, 1u128 << 120);
    assert_eq!(owner.lo, 0);
    assert_eq!(read_le_u64_at(&data, 64).unwrap(), 123_456);
    assert_eq!(
        read_key_at(&data, 41).unwrap_err(),
        ManifestError::InvalidAccountData
    );
    assert_eq!(
        read_le_u64_at(&data, 65).unwrap_err(),
        ManifestError::InvalidAccountData
    );
}

#[test]
fn account_key_ordering_is_lexicographic() {
    let a = AccountKey::new(0, 5);
    let b = AccountKey::new(0, 6);
    let c = AccountKey::new(1, 0);
    assert!(a.le(&b));
    assert!(!b.le(&a));
    assert!(b.le(&c));
    assert!(a.le(&a));
    assert!(a.same(&AccountKey::new(0, 5)));
    assert!(!a.same(&b));
}
