//! The JSON form of amounts: a JSON string that holds the amount in decimal
//! notation. Strings are read and written by `serde_json_wasm`.

use crate::errors::StdError;
use crate::math::Uint128;
use crate::text::{all_digits, char_is_digit, chars_of, decimal, digits_value, parse_u128};
use vstd::prelude::*;
use vstd::string::*;

verus! {

#[verifier::external_type_specification]
#[verifier::external_body]
pub struct ExDecodeError(serde_json_wasm::de::Error);

#[verifier::external_type_specification]
#[verifier::external_body]
pub struct ExEncodeError(serde_json_wasm::ser::Error);

/// The text that `bytes` hold as one JSON string; `None` where they are no
/// JSON string.
pub uninterp spec fn json_text(bytes: Seq<u8>) -> Option<Seq<char>>;

/// The bytes of the JSON string that holds `text`; `None` where the text
/// cannot be written.
pub uninterp spec fn json_of_text(text: Seq<char>) -> Option<Seq<u8>>;

/// `serde_json_wasm::from_slice` at the type `String`: reads the bytes as
/// one JSON string. The outcome depends on the bytes alone.
#[verifier::external_body]
fn decode_text(bytes: &[u8]) -> (r: Result<String, serde_json_wasm::de::Error>)
    ensures
        match r {
            Ok(text) => json_text(bytes@) == Some(text@),
            Err(_) => json_text(bytes@) is None,
        },
{
    serde_json_wasm::from_slice::<String>(bytes)
}

/// `serde_json_wasm::to_vec` at the type `str`: writes the text as one JSON
/// string. The outcome depends on the text alone.
#[verifier::external_body]
fn encode_text(text: &str) -> (r: Result<Vec<u8>, serde_json_wasm::ser::Error>)
    ensures
        match r {
            Ok(bytes) => json_of_text(text@) == Some(bytes@),
            Err(_) => json_of_text(text@) is None,
        },
{
    serde_json_wasm::to_vec(text)
}

/// The `Display` form of a `serde_json_wasm::de::Error`. Nothing is claimed
/// of the text.
#[verifier::external_body]
fn decode_error_text(e: &serde_json_wasm::de::Error) -> (s: String) {
    e.to_string()
}

/// The `Display` form of a `serde_json_wasm::ser::Error`. Nothing is claimed
/// of the text.
#[verifier::external_body]
fn encode_error_text(e: &serde_json_wasm::ser::Error) -> (s: String) {
    e.to_string()
}

/// The amount that a text denotes: digits, which a plus sign may precede.
/// There must be a digit, and the number must fit in 128 bits.
pub open spec fn uint_text(text: Seq<char>) -> Option<u128> {
    let digits = if text.len() > 0 && text[0] == '+' {
        text.drop_first()
    } else {
        text
    };
    if digits.len() > 0 && all_digits(digits) && digits_value(digits) <= u128::MAX {
        Some(digits_value(digits) as u128)
    } else {
        None
    }
}

/// Reads an amount from its text.
pub fn parse_uint_text(text: &str) -> (r: Option<u128>)
    ensures
        r == uint_text(text@),
{
    let v = chars_of(text);
    let from: usize = if v.len() > 0 && v[0] == '+' {
        1
    } else {
        0
    };
    let ghost digits = v@.subrange(from as int, v.len() as int);
    proof {
        if from == 1 {
            assert(digits =~= v@.drop_first());
        } else {
            assert(digits =~= v@);
        }
    }
    if from == v.len() {
        return None;
    }
    let mut i: usize = from;
    while i < v.len()
        invariant
            from <= i <= v.len(),
            from < v.len(),
            v@ == text@,
            digits == v@.subrange(from as int, v.len() as int),
            digits == (if text@.len() > 0 && text@[0] == '+' {
                text@.drop_first()
            } else {
                text@
            }),
            forall|j: int| 0 <= j < i - from ==> crate::text::is_digit(#[trigger] digits[j]),
        decreases v.len() - i,
    {
        if !char_is_digit(v[i]) {
            assert(digits[i - from] == v@[i as int]);
            assert(!crate::text::is_digit(digits[i - from]));
            assert(!all_digits(digits));
            return None;
        }
        assert(digits[i - from] == v@[i as int]);
        i += 1;
    }
    parse_u128(&v, from, v.len())
}

/// The JSON form of an amount: its decimal notation, as a JSON string.
pub fn uint128_to_json(value: Uint128) -> (r: Result<Vec<u8>, StdError>)
    ensures
        match r {
            Ok(bytes) => json_of_text(decimal(value.0 as nat)) == Some(bytes@),
            Err(e) => json_of_text(decimal(value.0 as nat)) is None && e.is_serialize_err(
                "Uint128"@,
            ),
        },
{
    let text = value.to_string();
    match encode_text(text.as_str()) {
        Ok(bytes) => Ok(bytes),
        Err(e) => Err(StdError::serialize_err("Uint128", encode_error_text(&e))),
    }
}

/// What bytes denote as an amount: they must hold one JSON string, and its
/// text must denote an amount.
pub open spec fn uint128_of_json(bytes: Seq<u8>) -> Option<u128> {
    match json_text(bytes) {
        Some(text) => uint_text(text),
        None => None,
    }
}

/// Reads an amount from its JSON form.
pub fn uint128_from_json(bytes: &[u8]) -> (r: Result<Uint128, StdError>)
    ensures
        match r {
            Ok(value) => uint128_of_json(bytes@) == Some(value.0),
            Err(e) => uint128_of_json(bytes@) is None && e.is_parse_err("Uint128"@),
        },
{
    match decode_text(bytes) {
        Ok(text) => match parse_uint_text(text.as_str()) {
            Some(n) => Ok(Uint128(n)),
            None => {
                let mut msg = "invalid Uint128 '".to_owned();
                msg.append(text.as_str());
                msg.append("'");
                Err(StdError::parse_err("Uint128", msg))
            },
        },
        Err(e) => Err(StdError::parse_err("Uint128", decode_error_text(&e))),
    }
}

} // verus!
