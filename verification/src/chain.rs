//! The trusted boundary to the chain's cryptographic primitives.
//!
//! Everything the engine needs from the platform that cannot be written as a
//! few lines of plain arithmetic — field-element parsing, Poseidon hashing,
//! short-string packing, deterministic address derivation and the Cairo
//! `ByteArray` calldata encoding — is reached through the wrappers below.
//! Each result that is a pure function of the arguments is given an
//! uninterpreted name, and every verified contract above this module speaks
//! of those names.

use core::str::FromStr;
use vstd::prelude::*;
use vstd::utf8::is_ascii_chars;

use crate::felt::FieldElement;

verus! {

/// What `Felt::from_str` parses out of a decimal or `0x`-prefixed
/// hexadecimal string; `None` where the string is malformed.
pub uninterp spec fn parsed_felt(s: Seq<char>) -> Option<FieldElement>;

/// The field element that an ASCII string of at most 31 bytes packs to.
pub uninterp spec fn short_string_felt(s: Seq<char>) -> FieldElement;

/// The Poseidon hash of one field element.
pub uninterp spec fn poseidon_single(x: FieldElement) -> FieldElement;

/// The deterministic address of a contract deployed with the given salt,
/// class hash, constructor calldata and deployer address.
pub uninterp spec fn deployed_address(
    salt: FieldElement,
    class_hash: FieldElement,
    calldata: Seq<FieldElement>,
    deployer: FieldElement,
) -> FieldElement;

/// The calldata encoding of a string as a Cairo `ByteArray`: the packed
/// 31-byte words, the pending word and the pending word length.
pub uninterp spec fn byte_array_encoding(s: Seq<char>) -> Seq<FieldElement>;

#[verifier::external_type_specification]
#[verifier::external_body]
pub struct ExChainFelt(starknet_crypto::Felt);

/// Relies on `starknet_crypto::Felt::from_bytes_be`: builds the chain's field
/// element out of the 32 big-endian bytes that `hi` and `lo` hold. A value at
/// or above the field modulus wraps, so every pair maps to a definite element.
#[verifier::external_body]
fn to_chain(f: &FieldElement) -> starknet_crypto::Felt {
    let mut b = [0u8; 32];
    b[..16].copy_from_slice(&f.hi.to_be_bytes());
    b[16..].copy_from_slice(&f.lo.to_be_bytes());
    starknet_crypto::Felt::from_bytes_be(&b)
}

/// Relies on `starknet_crypto::Felt::to_bytes_be`: the canonical big-endian
/// serialization of a field element, split back into two 128-bit halves.
#[verifier::external_body]
fn from_chain(f: &starknet_crypto::Felt) -> FieldElement {
    let b = f.to_bytes_be();
    let mut hi = [0u8; 16];
    let mut lo = [0u8; 16];
    hi.copy_from_slice(&b[..16]);
    lo.copy_from_slice(&b[16..]);
    FieldElement { hi: u128::from_be_bytes(hi), lo: u128::from_be_bytes(lo) }
}

/// Relies on `starknet_crypto::Felt::from_str`: parses a decimal or
/// `0x`-prefixed hexadecimal string into a field element; the result depends
/// on the string alone, and malformed strings are rejected.
#[verifier::external_body]
pub fn parse_felt(s: &str) -> (r: Option<FieldElement>)
    ensures
        r == parsed_felt(s@),
{
    match starknet_crypto::Felt::from_str(s) {
        Ok(f) => Some(from_chain(&f)),
        Err(_) => None,
    }
}

/// Relies on `starknet_core::utils::cairo_short_string_to_felt`: packs an
/// ASCII string of at most 31 bytes into one field element and rejects every
/// other string; the packed value depends on the string alone.
#[verifier::external_body]
pub fn cairo_short_string(s: &str) -> (r: Option<FieldElement>)
    ensures
        r is Some <==> (is_ascii_chars(s@) && s@.len() <= 31),
        r is Some ==> r == Some(short_string_felt(s@)),
{
    match starknet_core::utils::cairo_short_string_to_felt(s) {
        Ok(f) => Some(from_chain(&f)),
        Err(_) => None,
    }
}

/// Relies on `starknet_crypto::poseidon_hash_single`: the Poseidon hash of
/// one field element; the result depends on the input alone.
#[verifier::external_body]
pub fn poseidon_hash_one(x: &FieldElement) -> (r: FieldElement)
    ensures
        r == poseidon_single(*x),
{
    from_chain(&starknet_crypto::poseidon_hash_single(to_chain(x)))
}

/// Relies on `starknet_core::utils::get_contract_address`: the deterministic
/// deployment address, a pure function of salt, class hash, constructor
/// calldata and deployer address. A non-unique deployment through the
/// universal deployer resolves to a zero deployer address.
#[verifier::external_body]
pub fn compute_contract_address(
    salt: &FieldElement,
    class_hash: &FieldElement,
    calldata: &Vec<FieldElement>,
    deployer: &FieldElement,
) -> (r: FieldElement)
    ensures
        r == deployed_address(*salt, *class_hash, calldata@, *deployer),
{
    let cd: std::vec::Vec<starknet_crypto::Felt> = calldata.iter().map(to_chain).collect();
    let a = starknet_core::utils::get_contract_address(
        to_chain(salt),
        to_chain(class_hash),
        &cd,
        to_chain(deployer),
    );
    from_chain(&a)
}

/// Relies on `cainome_cairo_serde::ByteArray::from_string` and its
/// `CairoSerde` implementation: encodes a string as Cairo `ByteArray`
/// calldata. Total for every string — each packed chunk holds at most 31
/// bytes, which always fits in a field element — and a function of the
/// string alone.
#[verifier::external_body]
pub fn encode_byte_array(s: &str) -> (r: Vec<FieldElement>)
    ensures
        r@ == byte_array_encoding(s@),
{
    let ba = cainome_cairo_serde::ByteArray::from_string(s)
        .expect("chunks of at most 31 bytes always fit in a field element");
    let felts = <cainome_cairo_serde::ByteArray as cainome_cairo_serde::CairoSerde>::cairo_serialize(&ba);
    felts.iter().map(from_chain).collect()
}

} // verus!
