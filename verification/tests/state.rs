use cosmwasm_core::addresses::{to_base64, Addr, CanonicalAddr};
use cosmwasm_core::errors::StdError;
use cosmwasm_core::json::{parse_uint_text, uint128_from_json, uint128_to_json};
use cosmwasm_core::math::{Decimal, Uint128};
use cosmwasm_core::state::{
    load_item, load_map, may_load_map, save_item, save_map, update_item, InvestmentInfo, Supply,
    TokenInfo, KEY_INVESTMENT, KEY_TOKEN_INFO, KEY_TOTAL_SUPPLY, PREFIX_BALANCE, PREFIX_CLAIMS,
};
use cosmwasm_core::storage::{
    namespace_with_key, same_bytes, to_length_prefixed, MemoryStorage, Storage,
};

#[test]
fn keys_are_the_names() {
    assert_eq!(&KEY_INVESTMENT, b"invest");
    assert_eq!(&KEY_TOKEN_INFO, b"token");
    assert_eq!(&KEY_TOTAL_SUPPLY, b"total_supply");
    assert_eq!(&PREFIX_BALANCE, b"balance");
    assert_eq!(&PREFIX_CLAIMS, b"claim");
}

#[test]
fn length_prefix_is_two_bytes_big_endian() {
    assert_eq!(to_length_prefixed(b""), b"\x00\x00");
    assert_eq!(to_length_prefixed(b"a"), b"\x00\x01a");
    assert_eq!(to_length_prefixed(b"balance"), b"\x00\x07balance");
    let long = vec![7u8; 0x0102];
    let prefixed = to_length_prefixed(&long);
    assert_eq!(&prefixed[..2], &[0x01, 0x02]);
    assert_eq!(&prefixed[2..], &long[..]);
    let longest = vec![1u8; 0xFFFF];
    assert_eq!(&to_length_prefixed(&longest)[..2], &[0xFF, 0xFF]);
}

#[test]
fn namespaces_come_before_the_key() {
    assert_eq!(namespace_with_key(&[], b"key"), b"key");
    assert_eq!(namespace_with_key(&[b"balance"], b"key"), b"\x00\x07balancekey");
    assert_eq!(namespace_with_key(&[b"a", b"bc"], b""), b"\x00\x01a\x00\x02bc");
    assert_eq!(namespace_with_key(&[b""], b"k"), b"\x00\x00k");
}

#[test]
fn memory_storage_keeps_the_last_value() {
    let mut storage = MemoryStorage::new();
    assert_eq!(storage.get(b"a"), None);
    storage.set(b"a", b"1");
    storage.set(b"ab", b"2");
    storage.set(b"", b"empty key");
    storage.set(b"a", b"3");
    assert_eq!(storage.get(b"a"), Some(b"3".to_vec()));
    assert_eq!(storage.get(b"ab"), Some(b"2".to_vec()));
    assert_eq!(storage.get(b""), Some(b"empty key".to_vec()));
    assert_eq!(storage.get(b"b"), None);
    assert_eq!(storage.len(), 3);
    storage.set(b"ab", b"");
    assert_eq!(storage.get(b"ab"), Some(vec![]));
    assert!(same_bytes(b"ab", b"ab") && !same_bytes(b"ab", b"abc") && !same_bytes(b"ab", b"ac"));
}

#[test]
fn amounts_are_json_strings() {
    assert_eq!(uint128_to_json(Uint128::new(0)).unwrap(), b"\"0\"");
    assert_eq!(uint128_to_json(Uint128::new(12345)).unwrap(), b"\"12345\"");
    assert_eq!(
        uint128_to_json(Uint128::new(u128::MAX)).unwrap(),
        b"\"340282366920938463463374607431768211455\""
    );
    assert_eq!(uint128_from_json(b"\"12345\"").unwrap(), Uint128::new(12345));
    assert_eq!(uint128_from_json(b"\"0012\"").unwrap(), Uint128::new(12));
    assert_eq!(uint128_from_json(b"\"+7\"").unwrap(), Uint128::new(7));
    assert_eq!(uint128_from_json(b" \"7\"\n").unwrap(), Uint128::new(7));
    assert_eq!(uint128_from_json(b"\"\\u0031\"").unwrap(), Uint128::new(1));
    assert_eq!(
        uint128_from_json(b"\"340282366920938463463374607431768211455\"").unwrap(),
        Uint128::new(u128::MAX)
    );
}

#[test]
fn what_is_no_amount_is_a_parse_error() {
    for bad in [
        &b"12345"[..],
        b"\"\"",
        b"\"+\"",
        b"\"-1\"",
        b"\"1 \"",
        b"\"12a\"",
        b"\"340282366920938463463374607431768211456\"",
        b"\"1\"x",
        b"\"1",
        b"",
        b"null",
    ] {
        match uint128_from_json(bad) {
            Err(StdError::ParseErr { target_type, .. }) => assert_eq!(target_type, "Uint128"),
            other => panic!("{:?} gave {:?}", bad, other),
        }
    }
    assert_eq!(
        uint128_from_json(b"\"12a\"").unwrap_err().to_string(),
        "Error parsing into type Uint128: invalid Uint128 '12a'"
    );
    assert_eq!(parse_uint_text("+18"), Some(18));
    assert_eq!(parse_uint_text("++18"), None);
    assert_eq!(parse_uint_text(""), None);
    assert_eq!(parse_uint_text("1_000"), None);
}

#[test]
fn base64_notation() {
    assert_eq!(to_base64(b""), "");
    assert_eq!(to_base64(b"f"), "Zg==");
    assert_eq!(to_base64(b"fo"), "Zm8=");
    assert_eq!(to_base64(b"foo"), "Zm9v");
    assert_eq!(to_base64(b"foob"), "Zm9vYg==");
    assert_eq!(to_base64(b"fooba"), "Zm9vYmE=");
    assert_eq!(to_base64(b"foobar"), "Zm9vYmFy");
    assert_eq!(to_base64(&[1, 2, 3]), "AQID");
    assert_eq!(to_base64(&[0xff]), "/w==");
    assert_eq!(to_base64(&[0xfb, 0xef, 0xbe]), "++++");
    assert_eq!(to_base64(&[0xff, 0xff, 0xff, 0x00]), "////AA==");
    assert_eq!(CanonicalAddr(vec![1, 2, 3]).to_string(), "AQID");
    assert_eq!(CanonicalAddr(vec![9]).as_slice(), &[9]);
    assert_eq!(Addr::unchecked("owner").as_str(), "owner");
}

#[test]
fn map_values_round_trip() {
    let mut storage = MemoryStorage::new();
    let alice = CanonicalAddr(vec![1, 2, 3]);
    let bob = CanonicalAddr(vec![1, 2]);

    assert_eq!(may_load_map(&storage, &PREFIX_BALANCE, &alice), Ok(None));
    save_map(&mut storage, &PREFIX_BALANCE, &alice, Uint128::new(1000)).unwrap();
    save_map(&mut storage, &PREFIX_CLAIMS, &alice, Uint128::new(5)).unwrap();
    assert_eq!(may_load_map(&storage, &PREFIX_BALANCE, &alice), Ok(Some(Uint128::new(1000))));
    assert_eq!(load_map(&storage, &PREFIX_BALANCE, &alice), Ok(Uint128::new(1000)));
    assert_eq!(load_map(&storage, &PREFIX_CLAIMS, &alice), Ok(Uint128::new(5)));
    assert_eq!(may_load_map(&storage, &PREFIX_BALANCE, &bob), Ok(None));

    // the value lies under the namespace after its length, then the address
    assert_eq!(storage.get(b"\x00\x07balance\x01\x02\x03"), Some(b"\"1000\"".to_vec()));

    save_map(&mut storage, &PREFIX_BALANCE, &alice, Uint128::new(0)).unwrap();
    assert_eq!(load_map(&storage, &PREFIX_BALANCE, &alice), Ok(Uint128::zero()));
}

#[test]
fn missing_map_value_names_the_key() {
    let storage = MemoryStorage::new();
    let err = load_map(&storage, &PREFIX_BALANCE, &CanonicalAddr(vec![1, 2, 3])).unwrap_err();
    assert_eq!(err, StdError::NotFound { kind: "Value not found for key: AQID".to_string() });
    assert_eq!(err.to_string(), "Value not found for key: AQID not found");
}

#[test]
fn broken_map_value_is_a_parse_error() {
    let mut storage = MemoryStorage::new();
    storage.set(b"\x00\x07balance\x07", b"1000");
    let key = CanonicalAddr(vec![7]);
    assert!(matches!(
        may_load_map(&storage, &PREFIX_BALANCE, &key),
        Err(StdError::ParseErr { .. })
    ));
    assert!(matches!(load_map(&storage, &PREFIX_BALANCE, &key), Err(StdError::ParseErr { .. })));
}

#[test]
fn items_round_trip() {
    let mut storage = MemoryStorage::new();
    assert_eq!(
        load_item(&storage, &KEY_TOKEN_INFO, "TokenInfo"),
        Err(StdError::NotFound { kind: "TokenInfo".to_string() })
    );
    save_item(&mut storage, &KEY_TOKEN_INFO, b"{\"name\":\"x\"}");
    assert_eq!(load_item(&storage, &KEY_TOKEN_INFO, "TokenInfo"), Ok(b"{\"name\":\"x\"}".to_vec()));
    assert_eq!(storage.get(b"\x00\x05token"), Some(b"{\"name\":\"x\"}".to_vec()));
}

#[test]
fn update_item_saves_what_the_action_gives() {
    let mut storage = MemoryStorage::new();
    save_item(&mut storage, &KEY_TOTAL_SUPPLY, b"1");

    let out = update_item(&mut storage, &KEY_TOTAL_SUPPLY, "Supply", |mut bytes| {
        bytes.push(b'2');
        Ok(bytes)
    });
    assert_eq!(out, Ok(b"12".to_vec()));
    assert_eq!(load_item(&storage, &KEY_TOTAL_SUPPLY, "Supply"), Ok(b"12".to_vec()));

    // a failing action changes nothing
    let out = update_item(&mut storage, &KEY_TOTAL_SUPPLY, "Supply", |_| {
        Err(StdError::generic_err("no".to_string()))
    });
    assert_eq!(out, Err(StdError::GenericErr { msg: "no".to_string() }));
    assert_eq!(load_item(&storage, &KEY_TOTAL_SUPPLY, "Supply"), Ok(b"12".to_vec()));

    // nothing to update
    let out = update_item(&mut storage, &KEY_INVESTMENT, "InvestmentInfo", |bytes| Ok(bytes));
    assert_eq!(out, Err(StdError::NotFound { kind: "InvestmentInfo".to_string() }));
    assert_eq!(storage.len(), 1);
}

#[test]
fn state_types_hold_their_fields() {
    let token = TokenInfo { name: "Staked".to_string(), symbol: "STK".to_string(), decimals: 6 };
    assert_eq!(token.clone(), token);
    let info = InvestmentInfo {
        owner: Addr::unchecked("owner"),
        bond_denom: "ustake".to_string(),
        exit_tax: Decimal::percent(2),
        validator: "validator".to_string(),
        min_withdrawal: Uint128::new(50),
    };
    assert_eq!(info.exit_tax.atomics(), Uint128::new(20_000_000_000_000_000));
    assert_eq!(info.clone(), info);
    assert_eq!(Supply::default(), Supply {
        issued: Uint128::zero(),
        bonded: Uint128::zero(),
        claims: Uint128::zero()
    });
    assert_eq!(Decimal::one().atomics().u128(), 1_000_000_000_000_000_000);
    assert_eq!(Decimal::percent(100), Decimal::one());
    assert!(Decimal::zero().is_zero() && !Decimal::raw(1).is_zero());
    assert_eq!(
        StdError::serialize_err("Uint128", "full".to_string()).to_string(),
        "Error serializing type Uint128: full"
    );
}
