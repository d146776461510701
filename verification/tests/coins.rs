use std::str::FromStr;

use cosmwasm_core::coin::{coin, Coin};
use cosmwasm_core::coins::Coins;
use cosmwasm_core::errors::{CoinFromStrError, CoinsError, StdError};
use cosmwasm_core::math::Uint128;

/// Sort a Vec<Coin> by denom alphabetically
fn sort_by_denom(vec: &mut [Coin]) {
    vec.sort_by(|a, b| a.denom.cmp(&b.denom));
}

/// Returns a mockup Vec<Coin>. In this example, the coins are not in order
fn mock_vec() -> Vec<Coin> {
    vec![
        coin(12345, "uatom"),
        coin(69420, "ibc/1234ABCD"),
        coin(88888, "factory/osmo1234abcd/subdenom"),
    ]
}

/// Return a mockup Coins that contains the same coins as in `mock_vec`
fn mock_coins() -> Coins {
    let mut coins = Coins::default();
    for coin in mock_vec() {
        coins.add(coin).unwrap();
    }
    coins
}

fn mock_duplicate() -> Vec<Coin> {
    vec![coin(12345, "uatom"), coin(6789, "uatom")]
}

#[test]
fn converting_vec() {
    let mut vec = mock_vec();
    let coins = mock_coins();

    // &[Coin] --> Coins
    assert_eq!(Coins::try_from(vec.as_slice()).unwrap(), coins);
    // Vec<Coin> --> Coins
    assert_eq!(Coins::try_from(vec.clone()).unwrap(), coins);

    sort_by_denom(&mut vec);

    // &Coins --> Vec<Coins>
    // NOTE: the returned vec should be sorted
    assert_eq!(coins.to_vec(), vec);
    // Coins --> Vec<Coins>
    // NOTE: the returned vec should be sorted
    assert_eq!(coins.into_vec(), vec);
}

#[test]
fn converting_str() {
    // not in order
    let s1 = "88888factory/osmo1234abcd/subdenom,12345uatom,69420ibc/1234ABCD";
    // in order
    let s2 = "88888factory/osmo1234abcd/subdenom,69420ibc/1234ABCD,12345uatom";

    let invalid = "12345uatom,noamount";

    let coins = mock_coins();

    // &str --> Coins
    // NOTE: should generate the same Coins, regardless of input order
    assert_eq!(Coins::from_str(s1).unwrap(), coins);
    assert_eq!(Coins::from_str(s2).unwrap(), coins);
    assert_eq!(Coins::from_str("").unwrap(), Coins::default());

    // Coins --> String
    // NOTE: the generated string should be sorted
    assert_eq!(coins.to_string(), s2);
    assert_eq!(Coins::default().to_string(), "");
    assert_eq!(
        Coins::from_str(invalid).unwrap_err().to_string(),
        "Generic error: Parsing Coin: Missing amount or non-digit characters in amount"
    );
}

#[test]
fn handling_duplicates() {
    // create a Vec<Coin> that contains duplicate denoms
    let mut vec = mock_vec();
    vec.push(coin(67890, "uatom"));

    let err = Coins::try_from(vec).unwrap_err();
    assert_eq!(err, CoinsError::DuplicateDenom);
}

#[test]
fn handling_zero_amount() {
    // create a Vec<Coin> that contains zero amounts
    let mut vec = mock_vec();
    vec[0].amount = Uint128::zero();

    let coins = Coins::try_from(vec).unwrap();
    assert_eq!(coins.len(), 2);
    assert_ne!(coins.amount_of("ibc/1234ABCD"), Uint128::zero());
    assert_ne!(
        coins.amount_of("factory/osmo1234abcd/subdenom"),
        Uint128::zero()
    );

    // adding a coin with zero amount should not be added
    let mut coins = Coins::default();
    coins.add(coin(0, "uusd")).unwrap();
    assert!(coins.is_empty());
}

#[test]
fn length() {
    let coins = Coins::default();
    assert_eq!(coins.len(), 0);
    assert!(coins.is_empty());

    let coins = mock_coins();
    assert_eq!(coins.len(), 3);
    assert!(!coins.is_empty());
}

#[test]
fn add_coin() {
    let mut coins = mock_coins();
    coins.add(coin(12345, "uatom")).unwrap();

    assert_eq!(coins.len(), 3);
    assert_eq!(coins.amount_of("uatom").u128(), 24690);

    coins.add(coin(123, "uusd")).unwrap();
    assert_eq!(coins.len(), 4);
}

#[test]
fn extend_coins() {
    let mut coins: Coins = [coin(12345, "uatom")].try_into().unwrap();

    coins.extend(mock_coins().to_vec()).unwrap();
    assert_eq!(coins.len(), 3);
    assert_eq!(coins.amount_of("uatom").u128(), 24690);

    coins.extend(vec![coin(123, "uusd")]).unwrap();
    assert_eq!(coins.len(), 4);
    assert_eq!(coins.amount_of("uusd").u128(), 123);

    // duplicate handling
    coins.extend(mock_duplicate()).unwrap();
    assert_eq!(coins.amount_of("uatom").u128(), 24690 + 12345 + 6789);
}

#[test]
fn denoms_are_sorted_and_unique() {
    let coins = mock_coins();
    assert_eq!(
        coins.denoms(),
        vec![
            "factory/osmo1234abcd/subdenom".to_string(),
            "ibc/1234ABCD".to_string(),
            "uatom".to_string(),
        ]
    );
    assert_eq!(Coins::default().denoms(), Vec::<String>::new());
}

#[test]
fn denoms_order_is_by_bytes() {
    // upper case sorts before lower case, a prefix before its extensions,
    // and multi-byte characters after ASCII
    let coins = Coins::try_from(vec![
        coin(1, "b"),
        coin(2, "B"),
        coin(3, "ab"),
        coin(4, "a"),
        coin(5, "\u{e9}"),
        coin(6, "~"),
    ])
    .unwrap();
    assert_eq!(coins.denoms(), ["B", "a", "ab", "b", "~", "\u{e9}"]);
}

#[test]
fn contains_only_one_denom() {
    let coins: Coins = [coin(100, "uatom")].try_into().unwrap();
    assert_eq!(coins.contains_only("uatom").unwrap().u128(), 100);
    assert_eq!(coins.contains_only("uluna"), None);

    let coins: Coins = [coin(100, "uatom"), coin(200, "uusd")].try_into().unwrap();
    assert_eq!(coins.contains_only("uatom"), None);
    assert_eq!(Coins::default().contains_only("uatom"), None);
}

#[test]
fn amount_of_missing_denom_is_zero() {
    let coins = mock_coins();
    assert_eq!(coins.amount_of("uatom"), Uint128::new(12345));
    assert_eq!(coins.amount_of("uato"), Uint128::zero());
    assert_eq!(coins.amount_of("uatomx"), Uint128::zero());
    assert_eq!(coins.amount_of(""), Uint128::zero());
}

#[test]
fn add_overflow_leaves_collection_unchanged() {
    let mut coins = Coins::from(coin(u128::MAX - 1, "uatom"));
    let before = coins.clone();

    let err = coins.add(coin(2, "uatom")).unwrap_err();
    assert_eq!(
        err.to_string(),
        "Overflow: Cannot Add with 340282366920938463463374607431768211454 and 2"
    );
    assert_eq!(coins, before);

    coins.add(coin(1, "uatom")).unwrap();
    assert_eq!(coins.amount_of("uatom").u128(), u128::MAX);
}

#[test]
fn extend_stops_at_first_overflow() {
    let mut coins = Coins::from(coin(u128::MAX, "uatom"));
    let err = coins
        .extend(vec![coin(5, "uusd"), coin(1, "uatom"), coin(7, "uluna")])
        .unwrap_err();
    assert!(matches!(err, StdError::Overflow { .. }));
    // the coin before the failing one stays, the one after it was never added
    assert_eq!(coins.amount_of("uusd").u128(), 5);
    assert_eq!(coins.amount_of("uluna").u128(), 0);
    assert_eq!(coins.amount_of("uatom").u128(), u128::MAX);
    assert_eq!(coins.len(), 2);
}

#[test]
fn from_single_coin() {
    let coins = Coins::from(coin(7, "uatom"));
    assert_eq!(coins.to_vec(), vec![coin(7, "uatom")]);
    assert!(Coins::from(coin(0, "uatom")).is_empty());
    assert_eq!(Vec::<Coin>::from(coins), vec![coin(7, "uatom")]);
}

#[test]
fn clone_holds_the_same_coins() {
    let coins = mock_coins();
    assert_eq!(coins.clone(), coins);
}

#[test]
fn parse_reports_each_error() {
    assert_eq!(
        Coins::from_str("123").unwrap_err().to_string(),
        "Generic error: Parsing Coin: Missing denominator"
    );
    assert_eq!(
        Coins::from_str("1uatom,").unwrap_err().to_string(),
        "Generic error: Parsing Coin: Missing denominator"
    );
    assert_eq!(
        Coins::from_str("340282366920938463463374607431768211456uatom")
            .unwrap_err()
            .to_string(),
        "Generic error: Parsing Coin: Invalid amount: number too large to fit in target type"
    );
    assert_eq!(
        Coins::from_str("1uatom,2uatom").unwrap_err().to_string(),
        "Generic error: Creating Coins: Duplicate denom"
    );
    // the first piece that is no coin decides, also before a duplicate
    assert_eq!(
        Coins::from_str("1uatom,2uatom,x").unwrap_err().to_string(),
        "Generic error: Parsing Coin: Missing amount or non-digit characters in amount"
    );
}

#[test]
fn parse_accepts_largest_amount_and_zero() {
    let coins = Coins::parse("340282366920938463463374607431768211455uatom,0uusd").unwrap();
    assert_eq!(coins.amount_of("uatom").u128(), u128::MAX);
    assert_eq!(coins.len(), 1);
    assert_eq!(coins.to_string(), "340282366920938463463374607431768211455uatom");
    // two zero coins of one denomination are no duplicate
    assert!(Coins::parse("0uusd,0uusd").unwrap().is_empty());
}

#[test]
fn coin_text_round_trip() {
    let c = Coin::from_str("0012uatom").unwrap();
    assert_eq!(c, coin(12, "uatom"));
    assert_eq!(c.to_string(), "12uatom");
    assert_eq!(Coin::from_str("5 uatom").unwrap(), coin(5, " uatom"));
    assert_eq!(Coin::from_str(""), Err(CoinFromStrError::MissingDenom));
    assert_eq!(Coin::from_str("uatom"), Err(CoinFromStrError::MissingAmount));
    assert_eq!(Coin::new(3, "x"), coin(3, "x"));
}

#[test]
fn uint128_decimal_notation() {
    assert_eq!(Uint128::zero().to_string(), "0");
    assert_eq!(Uint128::new(10).to_string(), "10");
    assert_eq!(Uint128::new(9).to_string(), "9");
    assert_eq!(
        Uint128::new(u128::MAX).to_string(),
        "340282366920938463463374607431768211455"
    );
    assert_eq!(Uint128::new(1).checked_add(Uint128::new(2)).unwrap().u128(), 3);
    let err = Uint128::new(u128::MAX).checked_add(Uint128::new(1)).unwrap_err();
    assert_eq!(
        err.to_string(),
        "Cannot Add with 340282366920938463463374607431768211455 and 1"
    );
}
