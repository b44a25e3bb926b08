//! Discriminant derivation for account headers.

use vstd::prelude::*;

use crate::PROGRAM_ID_BYTES;

verus! {

/// A type with a canonical name; the name seeds its account discriminant.
pub trait TypeName {
    spec fn name_spec() -> Seq<char>;

    fn canonical_name() -> (r: &'static str)
        ensures
            r@ == Self::name_spec(),
    ;
}

/// The first eight bytes, read little-endian, of the keccak digest of a
/// 32-byte seed followed by a type name. The digest is a function of those
/// inputs alone.
pub uninterp spec fn type_discriminant(seed: Seq<u8>, name: Seq<char>) -> u64;

/// Relies on const_crypto's `Keccak256` (`new`, `update`, `finalize`): the
/// digest depends on the absorbed bytes alone.
#[verifier::external_body]
fn keccak_discriminant(seed: &[u8; 32], name: &str) -> (r: u64)
    ensures
        r == type_discriminant(seed@, name@),
{
    let digest: [u8; 32] = const_crypto::sha3::Keccak256::new().update(seed).update(
        name.as_bytes(),
    ).finalize();
    u64::from_le_bytes([
        digest[0],
        digest[1],
        digest[2],
        digest[3],
        digest[4],
        digest[5],
        digest[6],
        digest[7],
    ])
}

/// Canonical discriminant of the given struct: the hash of the program
/// identity and the name of the type.
pub fn get_discriminant<T: TypeName>() -> (r: u64)
    ensures
        r == type_discriminant(PROGRAM_ID_BYTES@, T::name_spec()),
{
    keccak_discriminant(&PROGRAM_ID_BYTES, T::canonical_name())
}

} // verus!
