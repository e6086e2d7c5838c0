//! Numbers written in hexadecimal, as the hashing program prints them.

use vstd::prelude::*;
use num::bigint::ParseBigIntError;
use num::BigUint;
use crate::text::chars_of;

verus! {

/// `num`'s unsigned integer of any size, carried through as it is.
#[verifier::external_type_specification]
#[verifier::external_body]
pub struct ExBigUint(BigUint);

/// `num`'s reason for not reading a number, carried through as it is.
#[verifier::external_type_specification]
#[verifier::external_body]
pub struct ExParseBigIntError(ParseBigIntError);

/// The text is no number in hexadecimal.
#[derive(Debug, Clone, Copy, PartialEq, Eq)]
pub struct HexError;

/// One of `0` to `9`, `a` to `f` and `A` to `F`.
pub open spec fn is_hex_digit(c: char) -> bool {
    let n = c as u32;
    0x30 <= n <= 0x39 || 0x61 <= n <= 0x66 || 0x41 <= n <= 0x46
}

/// `text` without a `+` at its start, unless a second `+` follows it.
pub open spec fn unsigned_part(text: Seq<char>) -> Seq<char> {
    if text.len() > 0 && text[0] == '+' && !(text.len() > 1 && text[1] == '+') {
        text.drop_first()
    } else {
        text
    }
}

/// `text` is a number in hexadecimal: after an optional `+`, at least one
/// character, the first no `_`, and all of them digits or `_`.
pub open spec fn is_hex_number(text: Seq<char>) -> bool {
    let body = unsigned_part(text);
    &&& body.len() > 0
    &&& body[0] != '_'
    &&& forall|i: int| 0 <= i < body.len() ==> is_hex_digit(#[trigger] body[i]) || body[i] == '_'
}

/// The number that `text` is read as in base 16.
pub uninterp spec fn hex_number(text: Seq<char>) -> BigUint;

/// `text` without every `0x` at its start.
pub open spec fn without_marker(text: Seq<char>) -> Seq<char>
    decreases text.len(),
{
    if text.len() >= 2 && text[0] == '0' && text[1] == 'x' {
        without_marker(text.skip(2))
    } else {
        text
    }
}

/// `BigUint::from_str_radix` of `num`, in base 16. It accepts exactly the
/// texts of `is_hex_number`, and what it returns for a text is a function of
/// that text; the contract names it and says no more of it.
#[verifier::external_body]
fn parse_radix16(text: &str) -> (out: Result<BigUint, ParseBigIntError>)
    ensures
        out is Ok <==> is_hex_number(text@),
        out matches Ok(n) ==> n == hex_number(text@),
{
    <BigUint as num::Num>::from_str_radix(text, 16)
}

/// The number that `hex` denotes once every `0x` is taken from its start.
pub fn hex_to_biguint(hex: &str) -> (out: Result<BigUint, HexError>)
    ensures
        out is Ok <==> is_hex_number(without_marker(hex@)),
        out matches Ok(n) ==> n == hex_number(without_marker(hex@)),
{
    let chars = chars_of(hex);
    let mut from: usize = 0;
    assert(hex@.skip(0) =~= hex@);
    while chars.len() - from >= 2 && chars[from] == '0' && chars[from + 1] == 'x'
        invariant
            chars@ == hex@,
            from <= chars.len(),
            without_marker(hex@) == without_marker(hex@.skip(from as int)),
        decreases chars.len() - from,
    {
        assert(hex@.skip(from as int).skip(2) =~= hex@.skip(from + 2));
        from += 2;
    }
    assert(hex@.skip(from as int) =~= hex@.subrange(from as int, chars.len() as int));
    match parse_radix16(hex.substring_char(from, chars.len())) {
        Ok(n) => Ok(n),
        Err(_) => Err(HexError),
    }
}

} // verus!
