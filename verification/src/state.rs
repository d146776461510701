//! The state of a staking contract in storage: what it holds, under which
//! keys, and how amounts are read and written.

use crate::addresses::{base64, Addr, CanonicalAddr};
use crate::errors::StdError;
use crate::json::{json_of_text, uint128_from_json, uint128_of_json, uint128_to_json};
use crate::math::{Decimal, Uint128};
use crate::storage::{
    length_prefixed, namespace_with_key, namespaces_prefixed, slices_bytes, to_length_prefixed,
    Storage,
};
use crate::text::decimal;
use vstd::prelude::*;
use vstd::string::*;

verus! {

/// The key of the investment info.
pub const KEY_INVESTMENT: [u8; 6] = [105, 110, 118, 101, 115, 116];

/// The key of the token info.
pub const KEY_TOKEN_INFO: [u8; 5] = [116, 111, 107, 101, 110];

/// The key of the total supply.
pub const KEY_TOTAL_SUPPLY: [u8; 12] = [116, 111, 116, 97, 108, 95, 115, 117, 112, 112, 108, 121];

/// The namespace of the balances.
pub const PREFIX_BALANCE: [u8; 7] = [98, 97, 108, 97, 110, 99, 101];

/// The namespace of the claims.
pub const PREFIX_CLAIMS: [u8; 5] = [99, 108, 97, 105, 109];

/// How the contract invests.
#[derive(Clone, Debug, PartialEq, Eq)]
pub struct InvestmentInfo {
    /// Who may change the investment.
    pub owner: Addr,
    /// The denomination that is staked.
    pub bond_denom: String,
    /// The share that is kept back on exit.
    pub exit_tax: Decimal,
    /// The validator that all tokens are bonded to.
    pub validator: String,
    /// The smallest amount that may be withdrawn.
    pub min_withdrawal: Uint128,
}

/// The token of the contract.
#[derive(Clone, Debug, PartialEq, Eq)]
pub struct TokenInfo {
    /// The name of the token.
    pub name: String,
    /// The ticker symbol of the token.
    pub symbol: String,
    /// The number of fractional digits shown.
    pub decimals: u8,
}

/// The supply of the token.
#[derive(Clone, Copy, Debug, PartialEq, Eq, Structural)]
pub struct Supply {
    /// The tokens issued.
    pub issued: Uint128,
    /// The native tokens bonded.
    pub bonded: Uint128,
    /// The native tokens claimed and not yet paid out.
    pub claims: Uint128,
}

impl Default for Supply {
    /// The supply with all amounts at zero.
    fn default() -> (s: Supply)
        ensures
            s == (Supply { issued: Uint128(0), bonded: Uint128(0), claims: Uint128(0) }),
    {
        Supply { issued: Uint128(0), bonded: Uint128(0), claims: Uint128(0) }
    }
}

/// The key under which a map with the namespace `prefix` keeps the value of
/// `key`.
pub open spec fn map_key(prefix: Seq<u8>, key: Seq<u8>) -> Seq<u8> {
    length_prefixed(prefix) + key
}

/// The message of the error for an address without value.
pub open spec fn missing_value(key: Seq<u8>) -> Seq<char> {
    "Value not found for key: "@ + base64(key)
}

/// The storage key of `key` in the map `prefix`.
fn key_in_map(prefix: &[u8], key: &CanonicalAddr) -> (out: Vec<u8>)
    requires
        prefix@.len() <= 0xFFFF,
    ensures
        out@ == map_key(prefix@, key.0@),
{
    let namespaces: [&[u8]; 1] = [prefix];
    proof {
        let all = slices_bytes(namespaces@);
        assert(all.len() == 1 && all[0] == prefix@);
        assert(all.drop_last() =~= Seq::<Seq<u8>>::empty());
        assert(namespaces_prefixed(all.drop_last()) =~= Seq::<u8>::empty());
        assert(namespaces_prefixed(all) =~= length_prefixed(prefix@));
    }
    namespace_with_key(namespaces.as_slice(), key.as_slice())
}

/// The amount that the map `prefix` holds for `key`, where it holds one. The
/// namespace is at most 65535 bytes long. What is stored must be the JSON
/// form of an amount.
pub fn may_load_map<S: Storage>(storage: &S, prefix: &[u8], key: &CanonicalAddr) -> (r: Result<
    Option<Uint128>,
    StdError,
>)
    requires
        prefix@.len() <= 0xFFFF,
    ensures
        match r {
            Ok(None) => !storage.contents().contains_key(map_key(prefix@, key.0@)),
            Ok(Some(amount)) => {
                &&& storage.contents().contains_key(map_key(prefix@, key.0@))
                &&& uint128_of_json(storage.contents()[map_key(prefix@, key.0@)]) == Some(
                    amount.0,
                )
            },
            Err(e) => {
                &&& storage.contents().contains_key(map_key(prefix@, key.0@))
                &&& uint128_of_json(storage.contents()[map_key(prefix@, key.0@)]) is None
                &&& e.is_parse_err("Uint128"@)
            },
        },
{
    let full_key = key_in_map(prefix, key);
    match storage.get(full_key.as_slice()) {
        None => Ok(None),
        Some(bytes) => match uint128_from_json(bytes.as_slice()) {
            Ok(amount) => Ok(Some(amount)),
            Err(e) => Err(e),
        },
    }
}

/// Puts the JSON form of `value` into the map `prefix` for `key`. The
/// namespace is at most 65535 bytes long. Nothing changes where the value
/// cannot be written.
pub fn save_map<S: Storage>(
    storage: &mut S,
    prefix: &[u8],
    key: &CanonicalAddr,
    value: Uint128,
) -> (r: Result<(), StdError>)
    requires
        prefix@.len() <= 0xFFFF,
    ensures
        match r {
            Ok(_) => {
                &&& json_of_text(decimal(value.0 as nat)) is Some
                &&& final(storage).contents() == old(storage).contents().insert(
                    map_key(prefix@, key.0@),
                    json_of_text(decimal(value.0 as nat))->0,
                )
            },
            Err(e) => {
                &&& json_of_text(decimal(value.0 as nat)) is None
                &&& final(storage).contents() == old(storage).contents()
                &&& e.is_serialize_err("Uint128"@)
            },
        },
{
    let full_key = key_in_map(prefix, key);
    match uint128_to_json(value) {
        Ok(bytes) => {
            storage.set(full_key.as_slice(), bytes.as_slice());
            Ok(())
        },
        Err(e) => Err(e),
    }
}

/// The amount that the map `prefix` holds for `key`. That it holds none is
/// an error, whose message shows the key.
pub fn load_map<S: Storage>(storage: &S, prefix: &[u8], key: &CanonicalAddr) -> (r: Result<
    Uint128,
    StdError,
>)
    requires
        prefix@.len() <= 0xFFFF,
    ensures
        match r {
            Ok(amount) => {
                &&& storage.contents().contains_key(map_key(prefix@, key.0@))
                &&& uint128_of_json(storage.contents()[map_key(prefix@, key.0@)]) == Some(
                    amount.0,
                )
            },
            Err(e) => if storage.contents().contains_key(map_key(prefix@, key.0@)) {
                &&& uint128_of_json(storage.contents()[map_key(prefix@, key.0@)]) is None
                &&& e.is_parse_err("Uint128"@)
            } else {
                e.is_not_found(missing_value(key.0@))
            },
        },
{
    match may_load_map(storage, prefix, key) {
        Ok(Some(amount)) => Ok(amount),
        Ok(None) => {
            let mut kind = "Value not found for key: ".to_owned();
            let shown = key.to_string();
            kind.append(shown.as_str());
            Err(StdError::not_found(kind))
        },
        Err(e) => Err(e),
    }
}

/// The bytes kept under the single key `key`. That there are none is the
/// not-found error for `kind`. The key is at most 65535 bytes long.
pub fn load_item<S: Storage>(storage: &S, key: &[u8], kind: &str) -> (r: Result<
    Vec<u8>,
    StdError,
>)
    requires
        key@.len() <= 0xFFFF,
    ensures
        match r {
            Ok(bytes) => {
                &&& storage.contents().contains_key(length_prefixed(key@))
                &&& bytes@ == storage.contents()[length_prefixed(key@)]
            },
            Err(e) => {
                &&& !storage.contents().contains_key(length_prefixed(key@))
                &&& e.is_not_found(kind@)
            },
        },
{
    let full_key = to_length_prefixed(key);
    match storage.get(full_key.as_slice()) {
        Some(bytes) => Ok(bytes),
        None => Err(StdError::not_found(kind.to_owned())),
    }
}

/// Puts `item` under the single key `key`. The key is at most 65535 bytes
/// long.
pub fn save_item<S: Storage>(storage: &mut S, key: &[u8], item: &[u8])
    requires
        key@.len() <= 0xFFFF,
    ensures
        final(storage).contents() == old(storage).contents().insert(
            length_prefixed(key@),
            item@,
        ),
{
    let full_key = to_length_prefixed(key);
    storage.set(full_key.as_slice(), item);
}

/// Changes what is kept under the single key `key`: loads it, hands it to
/// `action`, and saves what `action` gives. Where nothing is kept, or where
/// `action` fails, nothing changes and that error comes back.
pub fn update_item<S: Storage, A: FnOnce(Vec<u8>) -> Result<Vec<u8>, StdError>>(
    storage: &mut S,
    key: &[u8],
    kind: &str,
    action: A,
) -> (r: Result<Vec<u8>, StdError>)
    requires
        key@.len() <= 0xFFFF,
        forall|input: Vec<u8>| action.requires((input,)),
    ensures
        match r {
            Ok(output) => {
                &&& old(storage).contents().contains_key(length_prefixed(key@))
                &&& exists|input: Vec<u8>|
                    input@ == old(storage).contents()[length_prefixed(key@)] && action.ensures(
                        (input,),
                        Ok(output),
                    )
                &&& final(storage).contents() == old(storage).contents().insert(
                    length_prefixed(key@),
                    output@,
                )
            },
            Err(e) => {
                &&& final(storage).contents() == old(storage).contents()
                &&& if old(storage).contents().contains_key(length_prefixed(key@)) {
                    exists|input: Vec<u8>|
                        input@ == old(storage).contents()[length_prefixed(key@)]
                            && action.ensures((input,), Err(e))
                } else {
                    e.is_not_found(kind@)
                }
            },
        },
{
    let input = match load_item(storage, key, kind) {
        Ok(input) => input,
        Err(e) => {
            return Err(e);
        },
    };
    let ghost taken = input;
    match action(input) {
        Ok(output) => {
            save_item(storage, key, output.as_slice());
            assert(action.ensures((taken,), Ok(output)));
            Ok(output)
        },
        Err(e) => {
            assert(action.ensures((taken,), Err(e)));
            Err(e)
        },
    }
}

} // verus!
