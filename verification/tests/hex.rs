use merkle_tree::hex::{hex_to_biguint, HexError};
use num::BigUint;

#[test]
fn hex_with_marker() {
    assert_eq!(hex_to_biguint("0xff"), Ok(BigUint::from(255u32)));
    assert_eq!(hex_to_biguint("0x0"), Ok(BigUint::from(0u32)));
    assert_eq!(hex_to_biguint("0xDeadBeef"), Ok(BigUint::from(0xdeadbeefu32)));
}

#[test]
fn hex_without_marker_or_with_several() {
    assert_eq!(hex_to_biguint("10"), Ok(BigUint::from(16u32)));
    assert_eq!(hex_to_biguint("0x0x10"), Ok(BigUint::from(16u32)));
    assert_eq!(hex_to_biguint("00x10"), Err(HexError));
}

#[test]
fn hex_of_a_field_element() {
    let text = "0x30644e72e131a029b85045b68181585d2833e84879b9709143e1f593f0000000";
    let expected = BigUint::parse_bytes(
        b"21888242871839275222246405745257275088548364400416034343698204186575808495616",
        10,
    )
    .unwrap();
    assert_eq!(hex_to_biguint(text), Ok(expected));
}

#[test]
fn hex_signs_and_underscores() {
    assert_eq!(hex_to_biguint("+ff"), Ok(BigUint::from(255u32)));
    assert_eq!(hex_to_biguint("0x+ff"), Ok(BigUint::from(255u32)));
    assert_eq!(hex_to_biguint("++ff"), Err(HexError));
    assert_eq!(hex_to_biguint("-ff"), Err(HexError));
    assert_eq!(hex_to_biguint("f_f"), Ok(BigUint::from(255u32)));
    assert_eq!(hex_to_biguint("ff_"), Ok(BigUint::from(255u32)));
    assert_eq!(hex_to_biguint("_ff"), Err(HexError));
    assert_eq!(hex_to_biguint("+_ff"), Err(HexError));
}

#[test]
fn hex_rejects_what_is_no_number() {
    assert_eq!(hex_to_biguint(""), Err(HexError));
    assert_eq!(hex_to_biguint("0x"), Err(HexError));
    assert_eq!(hex_to_biguint("+"), Err(HexError));
    assert_eq!(hex_to_biguint("0xg"), Err(HexError));
    assert_eq!(hex_to_biguint("0x12 "), Err(HexError));
    assert_eq!(hex_to_biguint(" 0x12"), Err(HexError));
    assert_eq!(hex_to_biguint("0x1\u{e9}"), Err(HexError));
    assert_eq!(hex_to_biguint("0X12"), Err(HexError));
}
