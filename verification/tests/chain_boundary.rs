use core::str::FromStr;

use sozo_migrate::chain::{
    cairo_short_string, compute_contract_address, encode_byte_array, parse_felt,
    poseidon_hash_one,
};
use sozo_migrate::felt::FieldElement;
use sozo_migrate::migrate::world_salt;

fn fe(lo: u64) -> FieldElement {
    FieldElement { hi: 0, lo: lo as u128 }
}

fn conv(f: starknet_crypto::Felt) -> FieldElement {
    let b = f.to_bytes_be();
    let mut hi = [0u8; 16];
    let mut lo = [0u8; 16];
    hi.copy_from_slice(&b[..16]);
    lo.copy_from_slice(&b[16..]);
    FieldElement { hi: u128::from_be_bytes(hi), lo: u128::from_be_bytes(lo) }
}

/// Decimal and hexadecimal strings parse to the same field elements the
/// chain library parses them to, and malformed ones are rejected.
#[test]
fn felt_parsing_follows_the_chain_library() {
    assert_eq!(parse_felt("123"), Some(fe(123)));
    assert_eq!(parse_felt("0xff"), Some(fe(255)));
    assert_eq!(parse_felt("not a number"), None);
    assert_eq!(parse_felt(""), None);
    let big = "3618502788666131213697322783095070105623107215331596699973092056135872020480";
    assert_eq!(
        parse_felt(big),
        Some(conv(starknet_crypto::Felt::from_str(big).unwrap()))
    );
}

/// Short strings pack exactly as the chain library packs them; strings
/// over 31 bytes or with non-ASCII characters are rejected.
#[test]
fn short_string_packing_follows_the_chain_library() {
    let expected = conv(starknet_core::utils::cairo_short_string_to_felt("hello").unwrap());
    assert_eq!(cairo_short_string("hello"), Some(expected));
    assert_eq!(cairo_short_string(""), Some(fe(0)));
    assert_eq!(cairo_short_string("abcdefghijklmnopqrstuvwxyz-abcde-f"), None);
    assert_eq!(cairo_short_string("héllo"), None);
}

/// The Poseidon wrapper hashes, rather than handing its argument back.
#[test]
fn poseidon_hash_matches_the_chain_library() {
    let x = fe(7);
    let h = poseidon_hash_one(&x);
    let expected = conv(starknet_crypto::poseidon_hash_single(
        starknet_crypto::Felt::from(7u64),
    ));
    assert_eq!(h, expected);
    assert_ne!(h, x);
}

/// The world's deployment salt is the Poseidon hash of the packed seed.
#[test]
fn world_salt_derivation() {
    let expected = conv(starknet_crypto::poseidon_hash_single(
        starknet_core::utils::cairo_short_string_to_felt("sozo_test").unwrap(),
    ));
    assert_eq!(world_salt("sozo_test"), Some(expected));
    assert_eq!(world_salt("a-seed-that-is-much-longer-than-thirty-one-bytes"), None);
}

/// The deterministic address wrapper follows the platform's derivation for
/// every argument, not just the empty calldata case.
#[test]
fn contract_address_follows_the_chain_library() {
    let salt = fe(11);
    let class_hash = fe(22);
    let deployer = fe(33);
    let calldata = vec![fe(1), fe(2), fe(3)];
    let got = compute_contract_address(&salt, &class_hash, &calldata, &deployer);
    let expected = conv(starknet_core::utils::get_contract_address(
        starknet_crypto::Felt::from(11u64),
        starknet_crypto::Felt::from(22u64),
        &[
            starknet_crypto::Felt::from(1u64),
            starknet_crypto::Felt::from(2u64),
            starknet_crypto::Felt::from(3u64),
        ],
        starknet_crypto::Felt::from(33u64),
    ));
    assert_eq!(got, expected);
}

/// Strings encode to the exact Cairo `ByteArray` calldata the serde
/// library produces: packed words, pending word, pending length.
#[test]
fn byte_array_encoding_follows_the_serde_library() {
    for s in ["", "ns", "exactly-thirty-one-bytes-long!!", "a string that spans more than thirty one bytes"] {
        let got = encode_byte_array(s);
        let ba = cainome_cairo_serde::ByteArray::from_string(s).unwrap();
        let felts =
            <cainome_cairo_serde::ByteArray as cainome_cairo_serde::CairoSerde>::cairo_serialize(
                &ba,
            );
        let expected: Vec<FieldElement> = felts.into_iter().map(conv).collect();
        assert_eq!(got, expected);
    }
    // The empty string still encodes to the three-felt frame.
    assert_eq!(encode_byte_array(""), vec![fe(0), fe(0), fe(0)]);
}
