//! A single coin: an amount of one denomination, and its text form.

use crate::errors::CoinFromStrError;
use crate::math::Uint128;
use crate::text::{
    all_digits, char_is_digit, chars_of, decimal, digits_value, is_digit,
    lemma_decimal_round_trip, parse_u128, string_of, u128_to_string,
};
use vstd::prelude::*;
use vstd::string::*;

verus! {

/// An amount of the denomination `denom`.
#[derive(Clone, Debug, PartialEq, Eq)]
pub struct Coin {
    pub denom: String,
    pub amount: Uint128,
}

impl View for Coin {
    type V = (Seq<char>, u128);

    /// The denomination and the amount.
    open spec fn view(&self) -> (Seq<char>, u128) {
        (self.denom@, self.amount.0)
    }
}

/// The coin of `amount` units of `denom`.
pub fn coin(amount: u128, denom: &str) -> (c: Coin)
    ensures
        c@ == (denom@, amount),
{
    Coin { denom: denom.to_owned(), amount: Uint128(amount) }
}

/// The number of leading digits of `s`.
pub open spec fn digit_prefix_len(s: Seq<char>) -> int
    decreases s.len(),
{
    if s.len() == 0 || !is_digit(s[0]) {
        0
    } else {
        1 + digit_prefix_len(s.drop_first())
    }
}

/// What a text denotes as a coin: its leading digits are the amount and the
/// rest is the denomination. Both parts must be present, and the amount must
/// fit in 128 bits.
pub open spec fn parse_coin(s: Seq<char>) -> Result<(Seq<char>, u128), CoinFromStrError> {
    let p = digit_prefix_len(s);
    if p == s.len() {
        Err(CoinFromStrError::MissingDenom)
    } else if p == 0 {
        Err(CoinFromStrError::MissingAmount)
    } else if digits_value(s.take(p)) > u128::MAX {
        Err(CoinFromStrError::InvalidAmount)
    } else {
        Ok((s.skip(p), digits_value(s.take(p)) as u128))
    }
}

/// `digit_prefix_len(s)` is the one position up to which `s` holds digits
/// and at which it ends or holds another character.
pub proof fn lemma_digit_prefix_len(s: Seq<char>, k: int)
    requires
        0 <= k <= s.len(),
        all_digits(s.take(k)),
        k < s.len() ==> !is_digit(s[k]),
    ensures
        digit_prefix_len(s) == k,
    decreases s.len(),
{
    if s.len() == 0 {
    } else if k == 0 {
    } else {
        assert(s.take(k)[0] == s[0]);
        let t = s.drop_first();
        assert forall|i: int| 0 <= i < k - 1 implies is_digit(#[trigger] t.take(k - 1)[i]) by {
            assert(t.take(k - 1)[i] == s.take(k)[i + 1]);
        }
        lemma_digit_prefix_len(t, k - 1);
    }
}

/// The text form of a coin denotes that coin again, where the denomination
/// is not empty and does not start with a digit.
pub proof fn law_coin_text_round_trip(denom: Seq<char>, amount: u128)
    requires
        denom.len() > 0,
        !is_digit(denom[0]),
    ensures
        parse_coin(decimal(amount as nat) + denom) == Ok::<(Seq<char>, u128), CoinFromStrError>(
            (denom, amount),
        ),
{
    let digits = decimal(amount as nat);
    let text = digits + denom;
    lemma_decimal_round_trip(amount as nat);
    assert(text.take(digits.len() as int) =~= digits);
    assert(text.skip(digits.len() as int) =~= denom);
    assert(text[digits.len() as int] == denom[0]);
    lemma_digit_prefix_len(text, digits.len() as int);
}

/// Whether a coin `c` is what `parse_coin` gives for the text `s`.
pub open spec fn coin_parsed(s: Seq<char>, r: Result<Coin, CoinFromStrError>) -> bool {
    match (r, parse_coin(s)) {
        (Ok(c), Ok(entry)) => c@ == entry,
        (Err(e), Err(f)) => e == f,
        _ => false,
    }
}

/// Reads the characters `v[from..to]` as a coin.
pub(crate) fn parse_coin_in(v: &Vec<char>, from: usize, to: usize) -> (r: Result<Coin, CoinFromStrError>)
    requires
        from <= to <= v.len(),
    ensures
        coin_parsed(v@.subrange(from as int, to as int), r),
{
    let ghost s = v@.subrange(from as int, to as int);
    let mut p: usize = from;
    while p < to && char_is_digit(v[p])
        invariant
            from <= p <= to,
            to <= v.len(),
            s == v@.subrange(from as int, to as int),
            all_digits(s.take(p - from)),
        decreases to - p,
    {
        proof {
            let next = s.take(p + 1 - from);
            assert forall|i: int| 0 <= i < next.len() implies is_digit(#[trigger] next[i]) by {
                if i < p - from {
                    assert(next[i] == s.take(p - from)[i]);
                } else {
                    assert(next[i] == v@[p as int]);
                }
            }
        }
        p += 1;
    }
    proof {
        if p < to {
            assert(s[p - from] == v@[p as int]);
        }
        lemma_digit_prefix_len(s, p - from);
    }
    if p == to {
        return Err(CoinFromStrError::MissingDenom);
    }
    if p == from {
        return Err(CoinFromStrError::MissingAmount);
    }
    proof {
        assert(s.take(p - from) =~= v@.subrange(from as int, p as int));
        assert(s.skip(p - from) =~= v@.subrange(p as int, to as int));
    }
    match parse_u128(v, from, p) {
        Some(amount) => Ok(Coin { denom: string_of(v, p, to), amount: Uint128(amount) }),
        None => Err(CoinFromStrError::InvalidAmount),
    }
}

impl Coin {
    /// The coin of `amount` units of `denom`.
    pub fn new(amount: u128, denom: &str) -> (c: Coin)
        ensures
            c@ == (denom@, amount),
    {
        coin(amount, denom)
    }

    /// The text form of this coin: the amount in decimal notation, then the
    /// denomination.
    pub open spec fn text(&self) -> Seq<char> {
        decimal(self.amount.0 as nat) + self.denom@
    }

    /// Reads a coin from its text form, such as `12345uatom`.
    pub fn from_str(s: &str) -> (r: Result<Coin, CoinFromStrError>)
        ensures
            coin_parsed(s@, r),
    {
        let v = chars_of(s);
        assert(v@.subrange(0, v.len() as int) =~= s@);
        parse_coin_in(&v, 0, v.len())
    }

    /// The text form of this coin, as a string.
    pub fn to_string(&self) -> (s: String)
        ensures
            s@ == self.text(),
    {
        let mut s = u128_to_string(self.amount.0);
        s.append(self.denom.as_str());
        s
    }

    /// A copy of this coin.
    pub fn duplicate(&self) -> (c: Coin)
        ensures
            c == *self,
    {
        Coin { denom: self.denom.clone(), amount: self.amount }
    }
}

} // verus!
