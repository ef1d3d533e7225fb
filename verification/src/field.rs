//! The hashing capability the Merkle tree is built on: BN254 scalar-field
//! reduction of commitment bytes and the Poseidon two-to-one hash, both
//! supplied by outside cryptographic libraries and named, not restated.

use vstd::prelude::*;
use ark_ff::BigInteger;
use ark_ff::PrimeField;
use arkworks_native_gadgets::poseidon::FieldHasher;

verus! {

/// The canonical 32-byte big-endian representative of the given bytes read as
/// a big-endian integer and reduced modulo the BN254 scalar-field order.
pub uninterp spec fn reduce_of(bytes: Seq<u8>) -> Seq<u8>;

/// The canonical 32-byte big-endian representative of the Poseidon hash of the
/// two inputs, each first reduced as `reduce_of` does.
pub uninterp spec fn hash_of(left: Seq<u8>, right: Seq<u8>) -> Seq<u8>;

/// Relies on `ark_ff::PrimeField::from_be_bytes_mod_order` for the BN254
/// scalar field `ark_bn254::Fr` (reads the bytes big-endian and reduces modulo
/// the field order; total, deterministic in the bytes alone) and on
/// `into_repr().to_bytes_be()` (the canonical 32-byte big-endian
/// representative; `BigInteger256` always serializes to 32 bytes).
#[verifier::external_body]
pub(crate) fn field_reduce(bytes: &Vec<u8>) -> (r: Vec<u8>)
    ensures
        r@ == reduce_of(bytes@),
        r@.len() == 32,
{
    let elem = ark_bn254::Fr::from_be_bytes_mod_order(bytes.as_slice());
    elem.into_repr().to_bytes_be()
}

/// Relies on `arkworks_native_gadgets::poseidon::Poseidon::hash_two` with the
/// BN254 width-3, exponent-5 parameters from
/// `arkworks_setups::common::setup_params`: the hash of two field elements is
/// deterministic in the two inputs alone. With exponent 5 the s-box never
/// fails, and two inputs fit width 3, so `hash_two`'s error paths are
/// unreachable; the inputs are reduced by `from_be_bytes_mod_order` and the
/// result is the canonical 32-byte representative, as in `field_reduce`.
#[verifier::external_body]
pub(crate) fn poseidon_hash_two(left: &Vec<u8>, right: &Vec<u8>) -> (r: Vec<u8>)
    ensures
        r@ == hash_of(left@, right@),
        r@.len() == 32,
{
    let params = arkworks_setups::common::setup_params::<ark_bn254::Fr>(
        arkworks_setups::Curve::Bn254,
        5,
        3,
    );
    let hasher = arkworks_native_gadgets::poseidon::Poseidon::new(params);
    let l = ark_bn254::Fr::from_be_bytes_mod_order(left.as_slice());
    let r = ark_bn254::Fr::from_be_bytes_mod_order(right.as_slice());
    let out = hasher.hash_two(&l, &r).expect("width-3 parameters accept two inputs");
    out.into_repr().to_bytes_be()
}

} // verus!
