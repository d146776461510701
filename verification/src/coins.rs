//! A collection of coins that holds at most one amount per denomination,
//! never a zero amount, and lists its coins ordered by denomination.

use crate::coin::{parse_coin, parse_coin_in, Coin};
use crate::errors::{CoinFromStrError, CoinsError, StdError};
use crate::math::Uint128;
use crate::text::{chars_of, compare_denoms, decimal, denom_lt, lemma_denom_order, Order};
use vstd::prelude::*;
use vstd::string::*;

verus! {

/// A denomination and the amount held of it.
pub type Entry = (Seq<char>, u128);

/// The denominations and amounts of a list of coins.
pub open spec fn entries_of(s: Seq<Coin>) -> Seq<Entry> {
    s.map_values(|c: Coin| c@)
}

/// The coin at position `i` of `s` counts for the denomination `d`: it is
/// there, its amount is not zero, and `d` is its denomination.
pub open spec fn holds(s: Seq<Entry>, i: int, d: Seq<char>) -> bool {
    0 <= i < s.len() && s[i].1 != 0 && s[i].0 == d
}

/// The amounts that a list of coins holds, by denomination. Coins of amount
/// zero do not count.
pub open spec fn coins_map(s: Seq<Entry>) -> Map<Seq<char>, u128> {
    Map::new(
        |d: Seq<char>| exists|i: int| holds(s, i, d),
        |d: Seq<char>| s[choose|i: int| holds(s, i, d)].1,
    )
}

/// No two coins of `s` that count have the same denomination.
pub open spec fn distinct_denoms(s: Seq<Entry>) -> bool {
    forall|i: int, j: int, d: Seq<char>| #[trigger]
        holds(s, i, d) && #[trigger] holds(s, j, d) ==> i == j
}

/// The list holds no zero amount and is strictly ordered by denomination.
pub open spec fn canonical(s: Seq<Entry>) -> bool {
    &&& forall|i: int| 0 <= i < s.len() ==> (#[trigger] s[i]).1 != 0
    &&& forall|i: int, j: int|
        #![trigger s[i], s[j]]
        0 <= i < j < s.len() ==> denom_lt(s[i].0, s[j].0)
}

/// The map `m` holds exactly what the coins of `s` that count say.
pub open spec fn represents(s: Seq<Entry>, m: Map<Seq<char>, u128>) -> bool {
    &&& forall|i: int, d: Seq<char>| #[trigger]
        holds(s, i, d) ==> m.contains_key(d) && m[d] == s[i].1
    &&& forall|d: Seq<char>| #[trigger]
        m.contains_key(d) ==> exists|i: int| holds(s, i, d)
}

/// The amount that `m` holds of `d`: zero where it holds none.
pub open spec fn amount_in(m: Map<Seq<char>, u128>, d: Seq<char>) -> nat {
    if m.contains_key(d) {
        m[d] as nat
    } else {
        0
    }
}

/// Whether adding `c` to `m` would leave the range of 128 bits.
pub open spec fn add_overflows(m: Map<Seq<char>, u128>, c: Entry) -> bool {
    c.1 != 0 && amount_in(m, c.0) + c.1 > u128::MAX
}

/// The amounts after adding `c` to `m`. A coin of amount zero changes
/// nothing.
pub open spec fn map_add(m: Map<Seq<char>, u128>, c: Entry) -> Map<Seq<char>, u128> {
    if c.1 == 0 {
        m
    } else {
        m.insert(c.0, (amount_in(m, c.0) + c.1) as u128)
    }
}

/// The position of the first coin of `cs` whose addition overflows when the
/// coins are added to `m` one after the other; `cs.len()` if none does.
pub open spec fn first_overflow(m: Map<Seq<char>, u128>, cs: Seq<Entry>) -> int
    decreases cs.len(),
{
    if cs.len() == 0 || add_overflows(m, cs[0]) {
        0
    } else {
        1 + first_overflow(map_add(m, cs[0]), cs.drop_first())
    }
}

/// The amounts after adding the coins of `cs` to `m` one after the other, up
/// to the first whose addition overflows.
pub open spec fn add_all(m: Map<Seq<char>, u128>, cs: Seq<Entry>) -> Map<Seq<char>, u128>
    decreases cs.len(),
{
    if cs.len() == 0 || add_overflows(m, cs[0]) {
        m
    } else {
        add_all(map_add(m, cs[0]), cs.drop_first())
    }
}

/// A strictly ordered list has distinct denominations.
pub proof fn lemma_canonical_distinct(s: Seq<Entry>)
    requires
        canonical(s),
    ensures
        distinct_denoms(s),
{
    assert forall|i: int, j: int, d: Seq<char>| #[trigger]
        holds(s, i, d) && #[trigger] holds(s, j, d) implies i == j by {
        lemma_denom_order(d, d, d);
        if i < j {
            assert(denom_lt(s[i].0, s[j].0));
        } else if j < i {
            assert(denom_lt(s[j].0, s[i].0));
        }
    }
}

/// With distinct denominations, `coins_map(s)` holds exactly what the coins
/// of `s` say.
pub proof fn lemma_map_represents(s: Seq<Entry>)
    requires
        distinct_denoms(s),
    ensures
        represents(s, coins_map(s)),
{
    let m = coins_map(s);
    assert forall|i: int, d: Seq<char>| #[trigger] holds(s, i, d) implies m.contains_key(d) && m[d]
        == s[i].1 by {
        let j = choose|j: int| holds(s, j, d);
        assert(holds(s, j, d));
    }
}

/// At most one map holds exactly what the coins of `s` say.
pub proof fn lemma_represents_unique(
    s: Seq<Entry>,
    m1: Map<Seq<char>, u128>,
    m2: Map<Seq<char>, u128>,
)
    requires
        represents(s, m1),
        represents(s, m2),
    ensures
        m1 == m2,
{
    assert forall|d: Seq<char>| m1.contains_key(d) implies m2.contains_key(d) && m1[d] == m2[d] by {
        let i = choose|i: int| holds(s, i, d);
        assert(holds(s, i, d));
    }
    assert forall|d: Seq<char>| m2.contains_key(d) implies m1.contains_key(d) by {
        let i = choose|i: int| holds(s, i, d);
        assert(holds(s, i, d));
    }
    assert(m1 =~= m2);
}

/// Appending a coin to a list adds its amount under its denomination, where
/// the list holds none of that denomination yet; a zero coin adds nothing.
pub proof fn lemma_map_push(s: Seq<Entry>, c: Entry)
    requires
        distinct_denoms(s),
        !coins_map(s).contains_key(c.0) || c.1 == 0,
    ensures
        distinct_denoms(s.push(c)),
        coins_map(s.push(c)) == (if c.1 == 0 {
            coins_map(s)
        } else {
            coins_map(s).insert(c.0, c.1)
        }),
{
    let t = s.push(c);
    let m = coins_map(s);
    lemma_map_represents(s);
    assert forall|i: int, d: Seq<char>| #[trigger] holds(t, i, d) && i < s.len() implies holds(
        s,
        i,
        d,
    ) by {
        assert(t[i] == s[i]);
    }
    assert forall|i: int, j: int, d: Seq<char>| #[trigger]
        holds(t, i, d) && #[trigger] holds(t, j, d) implies i == j by {
        if i < s.len() {
            assert(holds(s, i, d));
        }
        if j < s.len() {
            assert(holds(s, j, d));
        }
    }
    let target = if c.1 == 0 {
        m
    } else {
        m.insert(c.0, c.1)
    };
    assert forall|i: int, d: Seq<char>| #[trigger] holds(t, i, d) implies target.contains_key(d)
        && target[d] == t[i].1 by {
        if i < s.len() {
            assert(holds(s, i, d));
        }
    }
    assert forall|d: Seq<char>| #[trigger] target.contains_key(d) implies exists|i: int|
        holds(t, i, d) by {
        if c.1 != 0 && d == c.0 {
            assert(holds(t, s.len() as int, d));
        } else {
            let i = choose|i: int| holds(s, i, d);
            assert(t[i] == s[i]);
            assert(holds(t, i, d));
        }
    }
    lemma_map_represents(t);
    lemma_represents_unique(t, coins_map(t), target);
}

/// A canonical list holds as many denominations as it has coins.
pub proof fn lemma_map_len(s: Seq<Entry>)
    requires
        canonical(s),
    ensures
        coins_map(s).dom().finite(),
        coins_map(s).dom().len() == s.len(),
    decreases s.len(),
{
    if s.len() == 0 {
        assert(coins_map(s).dom() =~= Set::<Seq<char>>::empty());
    } else {
        let t = s.drop_last();
        let c = s.last();
        assert(canonical(t)) by {
            assert forall|i: int| 0 <= i < t.len() implies (#[trigger] t[i]).1 != 0 by {
                assert(t[i] == s[i]);
            }
            assert forall|i: int, j: int|
                #![trigger t[i], t[j]]
                0 <= i < j < t.len() implies denom_lt(t[i].0, t[j].0) by {
                assert(t[i] == s[i] && t[j] == s[j]);
            }
        }
        lemma_map_len(t);
        lemma_canonical_distinct(t);
        assert(!coins_map(t).contains_key(c.0)) by {
            if coins_map(t).contains_key(c.0) {
                let i = choose|i: int| holds(t, i, c.0);
                assert(t[i] == s[i]);
                assert(denom_lt(s[i].0, s[s.len() - 1].0));
                lemma_denom_order(c.0, c.0, c.0);
            }
        }
        lemma_map_push(t, c);
        assert(t.push(c) =~= s);
        assert(coins_map(s).dom() =~= coins_map(t).dom().insert(c.0));
    }
}

/// Where every coin before position `p` is below `d` and every coin from `p`
/// on is above it, the list holds nothing of `d`.
pub proof fn lemma_absent(s: Seq<Entry>, d: Seq<char>, p: int)
    requires
        0 <= p <= s.len(),
        forall|i: int| 0 <= i < p ==> denom_lt((#[trigger] s[i]).0, d),
        forall|i: int| p <= i < s.len() ==> denom_lt(d, (#[trigger] s[i]).0),
    ensures
        !coins_map(s).contains_key(d),
{
    lemma_denom_order(d, d, d);
    assert forall|i: int| !holds(s, i, d) by {
        if 0 <= i < s.len() && s[i].0 == d {
            if i < p {
                assert(denom_lt(s[i].0, d));
            } else {
                assert(denom_lt(d, s[i].0));
            }
        }
    }
}

/// A canonical list holds the amount of each of its coins under that coin's
/// denomination.
pub proof fn lemma_present(s: Seq<Entry>, i: int)
    requires
        canonical(s),
        0 <= i < s.len(),
    ensures
        coins_map(s).contains_key(s[i].0),
        coins_map(s)[s[i].0] == s[i].1,
{
    lemma_canonical_distinct(s);
    lemma_map_represents(s);
    assert(holds(s, i, s[i].0));
}

/// Putting a coin of a new denomination at its place in a canonical list
/// gives a canonical list that holds the coin's amount besides.
pub proof fn lemma_insert_at(s: Seq<Entry>, p: int, c: Entry)
    requires
        canonical(s),
        0 <= p <= s.len(),
        c.1 != 0,
        forall|i: int| 0 <= i < p ==> denom_lt((#[trigger] s[i]).0, c.0),
        forall|i: int| p <= i < s.len() ==> denom_lt(c.0, (#[trigger] s[i]).0),
    ensures
        canonical(s.insert(p, c)),
        coins_map(s.insert(p, c)) == coins_map(s).insert(c.0, c.1),
{
    let t = s.insert(p, c);
    let m = coins_map(s);
    let target = m.insert(c.0, c.1);
    assert forall|i: int, j: int|
        #![trigger t[i], t[j]]
        0 <= i < j < t.len() implies denom_lt(t[i].0, t[j].0) by {
        let a = if i < p {
            i
        } else {
            i - 1
        };
        let b = if j < p {
            j
        } else {
            j - 1
        };
        if i == p {
            assert(t[j] == s[b]);
        } else if j == p {
            assert(t[i] == s[a]);
        } else {
            assert(t[i] == s[a] && t[j] == s[b]);
            assert(denom_lt(s[a].0, s[b].0));
        }
    }
    assert forall|i: int| 0 <= i < t.len() implies (#[trigger] t[i]).1 != 0 by {
        if i < p {
            assert(t[i] == s[i]);
        } else if i > p {
            assert(t[i] == s[i - 1]);
        }
    }
    lemma_absent(s, c.0, p);
    lemma_canonical_distinct(s);
    lemma_canonical_distinct(t);
    lemma_map_represents(s);
    lemma_map_represents(t);
    assert forall|i: int, d: Seq<char>| #[trigger] holds(t, i, d) implies target.contains_key(d)
        && target[d] == t[i].1 by {
        if i < p {
            assert(t[i] == s[i]);
            assert(holds(s, i, d));
        } else if i > p {
            assert(t[i] == s[i - 1]);
            assert(holds(s, i - 1, d));
        }
    }
    assert forall|d: Seq<char>| #[trigger] target.contains_key(d) implies exists|i: int|
        holds(t, i, d) by {
        if d == c.0 {
            assert(holds(t, p, d));
        } else {
            let i = choose|i: int| holds(s, i, d);
            if i < p {
                assert(t[i] == s[i]);
                assert(holds(t, i, d));
            } else {
                assert(t[i + 1] == s[i]);
                assert(holds(t, i + 1, d));
            }
        }
    }
    lemma_represents_unique(t, coins_map(t), target);
}

/// Replacing the amount of one coin of a canonical list by another amount
/// that is not zero gives a canonical list that holds the new amount under
/// that denomination.
pub proof fn lemma_update_at(s: Seq<Entry>, p: int, c: Entry)
    requires
        canonical(s),
        0 <= p < s.len(),
        c.1 != 0,
        c.0 == s[p].0,
    ensures
        canonical(s.update(p, c)),
        coins_map(s.update(p, c)) == coins_map(s).insert(c.0, c.1),
{
    let t = s.update(p, c);
    let m = coins_map(s);
    let target = m.insert(c.0, c.1);
    assert forall|i: int, j: int|
        #![trigger t[i], t[j]]
        0 <= i < j < t.len() implies denom_lt(t[i].0, t[j].0) by {
        assert(denom_lt(s[i].0, s[j].0));
    }
    assert forall|i: int| 0 <= i < t.len() implies (#[trigger] t[i]).1 != 0 by {
        if i != p {
            assert(t[i] == s[i]);
        }
    }
    lemma_canonical_distinct(s);
    lemma_canonical_distinct(t);
    lemma_map_represents(s);
    lemma_map_represents(t);
    assert forall|i: int, d: Seq<char>| #[trigger] holds(t, i, d) implies target.contains_key(d)
        && target[d] == t[i].1 by {
        if i != p {
            assert(t[i] == s[i]);
            assert(holds(s, i, d));
            assert(holds(s, p, s[p].0));
        }
    }
    assert forall|d: Seq<char>| #[trigger] target.contains_key(d) implies exists|i: int|
        holds(t, i, d) by {
        if d == c.0 {
            assert(holds(t, p, d));
        } else {
            let i = choose|i: int| holds(s, i, d);
            assert(t[i] == s[i]);
            assert(holds(t, i, d));
        }
    }
    lemma_represents_unique(t, coins_map(t), target);
}

/// The text forms of the coins of `s`, with a comma between them.
pub open spec fn join_coins(s: Seq<Entry>) -> Seq<char>
    decreases s.len(),
{
    if s.len() == 0 {
        Seq::empty()
    } else if s.len() == 1 {
        decimal(s[0].1 as nat) + s[0].0
    } else {
        join_coins(s.drop_last()) + seq![','] + (decimal(s.last().1 as nat) + s.last().0)
    }
}

/// The position of the first comma of `s`; `s.len()` if it holds none.
pub open spec fn comma_pos(s: Seq<char>) -> int
    decreases s.len(),
{
    if s.len() == 0 || s[0] == ',' {
        0
    } else {
        1 + comma_pos(s.drop_first())
    }
}

/// The pieces of `s` between its commas. A text without comma is one piece,
/// the empty text too.
pub open spec fn split_commas(s: Seq<char>) -> Seq<Seq<char>>
    decreases s.len(),
{
    let k = comma_pos(s);
    if 0 <= k < s.len() {
        seq![s.take(k)] + split_commas(s.skip(k + 1))
    } else {
        seq![s]
    }
}

/// The coins that the pieces denote, in order, or the error of the first
/// piece that is no coin.
pub open spec fn parse_pieces(pieces: Seq<Seq<char>>) -> Result<Seq<Entry>, CoinFromStrError>
    decreases pieces.len(),
{
    if pieces.len() == 0 {
        Ok(Seq::empty())
    } else {
        match parse_coin(pieces[0]) {
            Err(e) => Err(e),
            Ok(entry) => match parse_pieces(pieces.drop_first()) {
                Err(e) => Err(e),
                Ok(rest) => Ok(seq![entry] + rest),
            },
        }
    }
}

/// What a text denotes as a collection of coins: the amounts by
/// denomination, or the message of the error.
pub open spec fn coins_from_text(s: Seq<char>) -> Result<Map<Seq<char>, u128>, Seq<char>> {
    if s.len() == 0 {
        Ok(Map::empty())
    } else {
        match parse_pieces(split_commas(s)) {
            Err(e) => Err("Parsing Coin: "@ + e.message()),
            Ok(list) => if distinct_denoms(list) {
                Ok(coins_map(list))
            } else {
                Err("Creating Coins: "@ + CoinsError::DuplicateDenom.message())
            },
        }
    }
}

/// `comma_pos(s)` is the one position before which `s` holds no comma and at
/// which it ends or holds one.
pub proof fn lemma_comma_pos(s: Seq<char>, k: int)
    requires
        0 <= k <= s.len(),
        forall|i: int| 0 <= i < k ==> s[i] != ',',
        k < s.len() ==> s[k] == ',',
    ensures
        comma_pos(s) == k,
    decreases s.len(),
{
    if s.len() == 0 || k == 0 {
    } else {
        let t = s.drop_first();
        assert forall|i: int| 0 <= i < k - 1 implies t[i] != ',' by {
            assert(t[i] == s[i + 1]);
        }
        lemma_comma_pos(t, k - 1);
    }
}

/// A collection of coins, one amount per denomination.
#[derive(Debug, PartialEq, Eq)]
pub struct Coins {
    entries: Vec<Coin>,
}

impl View for Coins {
    type V = Map<Seq<char>, u128>;

    /// The amounts held, by denomination.
    open spec fn view(&self) -> Map<Seq<char>, u128> {
        coins_map(self.listing())
    }
}

impl Clone for Coins {
    /// A collection that holds the same coins.
    fn clone(&self) -> (c: Coins)
        ensures
            c.wf(),
            c.listing() == self.listing(),
    {
        Coins { entries: self.to_vec() }
    }
}

impl TryFrom<Vec<Coin>> for Coins {
    type Error = CoinsError;

    /// The collection of the coins of `vec`, which may come in any order.
    /// Coins of amount zero are left out. Two coins of one denomination are
    /// an error.
    fn try_from(vec: Vec<Coin>) -> (r: Result<Coins, CoinsError>)
        ensures
            match r {
                Ok(c) => c.wf() && distinct_denoms(entries_of(vec@)) && c@ == coins_map(
                    entries_of(vec@),
                ),
                Err(e) => e == CoinsError::DuplicateDenom && !distinct_denoms(entries_of(vec@)),
            },
    {
        Coins::from_vec(vec)
    }
}

impl vstd::std_specs::convert::TryFromSpecImpl<Vec<Coin>> for Coins {
    open spec fn obeys_try_from_spec() -> bool {
        false
    }

    open spec fn try_from_spec(v: Vec<Coin>) -> Result<Coins, CoinsError> {
        arbitrary()
    }
}

impl<'a> TryFrom<&'a [Coin]> for Coins {
    type Error = CoinsError;

    /// As for a vector of the same coins.
    fn try_from(slice: &'a [Coin]) -> (r: Result<Coins, CoinsError>)
        ensures
            match r {
                Ok(c) => c.wf() && distinct_denoms(entries_of(slice@)) && c@ == coins_map(
                    entries_of(slice@),
                ),
                Err(e) => e == CoinsError::DuplicateDenom && !distinct_denoms(entries_of(slice@)),
            },
    {
        let mut vec: Vec<Coin> = Vec::new();
        let mut i: usize = 0;
        while i < slice.len()
            invariant
                i <= slice.len(),
                vec@ == slice@.take(i as int),
            decreases slice.len() - i,
        {
            vec.push(slice[i].duplicate());
            proof {
                assert(slice@.take(i + 1) =~= slice@.take(i as int).push(slice@[i as int]));
            }
            i += 1;
        }
        assert(slice@.take(i as int) =~= slice@);
        Coins::from_vec(vec)
    }
}

impl<'a> vstd::std_specs::convert::TryFromSpecImpl<&'a [Coin]> for Coins {
    open spec fn obeys_try_from_spec() -> bool {
        false
    }

    open spec fn try_from_spec(v: &'a [Coin]) -> Result<Coins, CoinsError> {
        arbitrary()
    }
}

impl<const N: usize> TryFrom<[Coin; N]> for Coins {
    type Error = CoinsError;

    /// As for a vector of the same coins.
    fn try_from(array: [Coin; N]) -> (r: Result<Coins, CoinsError>)
        ensures
            match r {
                Ok(c) => c.wf() && distinct_denoms(entries_of(array@)) && c@ == coins_map(
                    entries_of(array@),
                ),
                Err(e) => e == CoinsError::DuplicateDenom && !distinct_denoms(entries_of(array@)),
            },
    {
        let mut vec: Vec<Coin> = Vec::new();
        let mut i: usize = 0;
        while i < N
            invariant
                i <= N,
                N == array@.len(),
                vec@ == array@.take(i as int),
            decreases N - i,
        {
            vec.push(array[i].duplicate());
            proof {
                assert(array@.take(i + 1) =~= array@.take(i as int).push(array@[i as int]));
            }
            i += 1;
        }
        assert(array@.take(i as int) =~= array@);
        Coins::from_vec(vec)
    }
}

impl<const N: usize> vstd::std_specs::convert::TryFromSpecImpl<[Coin; N]> for Coins {
    open spec fn obeys_try_from_spec() -> bool {
        false
    }

    open spec fn try_from_spec(v: [Coin; N]) -> Result<Coins, CoinsError> {
        arbitrary()
    }
}

impl From<Coin> for Coins {
    /// The collection that holds `value` alone, or nothing where its amount
    /// is zero.
    fn from(value: Coin) -> (c: Coins)
        ensures
            c.wf(),
            c@ == map_add(Map::<Seq<char>, u128>::empty(), value@),
    {
        let mut coins = Coins::default();
        let r = coins.add(value);
        assert(r is Ok);
        coins
    }
}

impl vstd::std_specs::convert::FromSpecImpl<Coin> for Coins {
    open spec fn obeys_from_spec() -> bool {
        false
    }

    open spec fn from_spec(v: Coin) -> Coins {
        arbitrary()
    }
}

impl From<Coins> for Vec<Coin> {
    /// The coins held, ordered by denomination.
    fn from(value: Coins) -> (r: Vec<Coin>)
        ensures
            value.wf(),
            entries_of(r@) == value.listing(),
    {
        value.into_vec()
    }
}

impl vstd::std_specs::convert::FromSpecImpl<Coins> for Vec<Coin> {
    open spec fn obeys_from_spec() -> bool {
        false
    }

    open spec fn from_spec(v: Coins) -> Vec<Coin> {
        arbitrary()
    }
}

impl std::str::FromStr for Coins {
    type Err = StdError;

    /// Reads a collection from its text form.
    fn from_str(s: &str) -> (r: Result<Coins, StdError>)
        ensures
            match r {
                Ok(c) => c.wf() && coins_from_text(s@) == Ok::<Map<Seq<char>, u128>, Seq<char>>(
                    c@,
                ),
                Err(e) => coins_from_text(s@) matches Err(msg) && e.is_generic(msg),
            },
    {
        Coins::parse(s)
    }
}

impl Default for Coins {
    /// The empty collection.
    fn default() -> (c: Coins)
        ensures
            c.wf(),
            c.listing() == Seq::<Entry>::empty(),
            c@ == Map::<Seq<char>, u128>::empty(),
    {
        let c = Coins { entries: Vec::new() };
        assert(c.listing() =~= Seq::<Entry>::empty());
        assert(c@ =~= Map::<Seq<char>, u128>::empty());
        c
    }
}

impl Coins {
    /// The denominations and amounts held, ordered by denomination.
    pub closed spec fn listing(&self) -> Seq<Entry> {
        entries_of(self.entries@)
    }

    /// The collection is well formed: it lists no zero amount, and its coins
    /// are strictly ordered by denomination.
    pub open spec fn wf(&self) -> bool {
        canonical(self.listing())
    }

    #[verifier::type_invariant]
    spec fn inv(&self) -> bool {
        self.wf()
    }

    /// Looks `denom` up. The first component says whether a coin of that
    /// denomination is held; the second is its position, or the position at
    /// which such a coin belongs.
    fn locate(&self, denom: &str) -> (r: (bool, usize))
        ensures
            r.1 <= self.listing().len(),
            r.0 ==> r.1 < self.listing().len() && self.listing()[r.1 as int].0 == denom@,
            !r.0 ==> forall|i: int|
                0 <= i < r.1 ==> denom_lt((#[trigger] self.listing()[i]).0, denom@),
            !r.0 ==> forall|i: int|
                r.1 <= i < self.listing().len() ==> denom_lt(
                    denom@,
                    (#[trigger] self.listing()[i]).0,
                ),
    {
        proof {
            use_type_invariant(self);
        }
        let ghost s = self.listing();
        let mut lo: usize = 0;
        let mut hi: usize = self.entries.len();
        while lo < hi
            invariant
                lo <= hi <= self.entries.len(),
                s == entries_of(self.entries@),
                canonical(s),
                forall|i: int| 0 <= i < lo ==> denom_lt((#[trigger] s[i]).0, denom@),
                forall|i: int| hi <= i < s.len() ==> denom_lt(denom@, (#[trigger] s[i]).0),
            decreases hi - lo,
        {
            let mid = lo + (hi - lo) / 2;
            assert(s[mid as int] == self.entries@[mid as int]@);
            match compare_denoms(self.entries[mid].denom.as_str(), denom) {
                Order::Equal => {
                    return (true, mid);
                },
                Order::Less => {
                    proof {
                        assert forall|i: int| 0 <= i < mid + 1 implies denom_lt(
                            (#[trigger] s[i]).0,
                            denom@,
                        ) by {
                            if i < mid {
                                assert(denom_lt(s[i].0, s[mid as int].0));
                                lemma_denom_order(s[i].0, s[mid as int].0, denom@);
                            }
                        }
                    }
                    lo = mid + 1;
                },
                Order::Greater => {
                    proof {
                        assert forall|i: int| mid <= i < s.len() implies denom_lt(
                            denom@,
                            (#[trigger] s[i]).0,
                        ) by {
                            if mid < i {
                                assert(denom_lt(s[mid as int].0, s[i].0));
                                lemma_denom_order(denom@, s[mid as int].0, s[i].0);
                            }
                        }
                    }
                    hi = mid;
                },
            }
        }
        (false, lo)
    }

    /// Puts `coin` at position `at` of the list.
    fn insert_at(&mut self, at: usize, coin: Coin)
        requires
            at <= old(self).listing().len(),
            canonical(old(self).listing().insert(at as int, coin@)),
        ensures
            final(self).listing() == old(self).listing().insert(at as int, coin@),
    {
        let ghost before = self.listing();
        let ghost added = coin@;
        let mut list: Vec<Coin> = Vec::new();
        std::mem::swap(&mut list, &mut self.entries);
        list.insert(at, coin);
        assert(entries_of(list@) =~= before.insert(at as int, added));
        self.entries = list;
    }

    /// Puts `coin` in the place of the coin at position `at` of the list.
    fn replace_at(&mut self, at: usize, coin: Coin)
        requires
            at < old(self).listing().len(),
            canonical(old(self).listing().update(at as int, coin@)),
        ensures
            final(self).listing() == old(self).listing().update(at as int, coin@),
    {
        let ghost before = self.listing();
        let ghost added = coin@;
        let mut list: Vec<Coin> = Vec::new();
        std::mem::swap(&mut list, &mut self.entries);
        list.set(at, coin);
        assert(entries_of(list@) =~= before.update(at as int, added));
        self.entries = list;
    }

    /// The coins held, ordered by denomination. The collection stays as it
    /// is.
    pub fn to_vec(&self) -> (r: Vec<Coin>)
        ensures
            self.wf(),
            entries_of(r@) == self.listing(),
    {
        proof {
            use_type_invariant(self);
        }
        let mut out: Vec<Coin> = Vec::new();
        let mut i: usize = 0;
        while i < self.entries.len()
            invariant
                i <= self.entries.len(),
                out@ == self.entries@.take(i as int),
            decreases self.entries.len() - i,
        {
            out.push(self.entries[i].duplicate());
            proof {
                assert(self.entries@.take(i + 1) =~= self.entries@.take(i as int).push(
                    self.entries@[i as int],
                ));
            }
            i += 1;
        }
        assert(self.entries@.take(i as int) =~= self.entries@);
        out
    }

    /// The coins held, ordered by denomination, in place of the collection.
    pub fn into_vec(self) -> (r: Vec<Coin>)
        ensures
            self.wf(),
            entries_of(r@) == self.listing(),
    {
        proof {
            use_type_invariant(&self);
        }
        self.entries
    }

    /// The number of denominations held.
    pub fn len(&self) -> (r: usize)
        ensures
            r == self.listing().len(),
            r == self@.dom().len(),
    {
        proof {
            use_type_invariant(self);
            lemma_map_len(self.listing());
        }
        self.entries.len()
    }

    /// Whether nothing is held.
    pub fn is_empty(&self) -> (r: bool)
        ensures
            r == (self.listing().len() == 0),
            r == (self@ == Map::<Seq<char>, u128>::empty()),
    {
        proof {
            use_type_invariant(self);
            lemma_map_len(self.listing());
            if self.listing().len() == 0 {
                assert(self@ =~= Map::<Seq<char>, u128>::empty());
            }
        }
        self.entries.len() == 0
    }

    /// The denominations held, in order and without repetition.
    pub fn denoms(&self) -> (r: Vec<String>)
        ensures
            self.wf(),
            r@.map_values(|d: String| d@) == self.listing().map_values(|e: Entry| e.0),
    {
        proof {
            use_type_invariant(self);
        }
        let mut out: Vec<String> = Vec::new();
        let mut i: usize = 0;
        while i < self.entries.len()
            invariant
                i <= self.entries.len(),
                out.len() == i,
                forall|j: int| 0 <= j < i ==> (#[trigger] out@[j])@ == self.entries@[j].denom@,
            decreases self.entries.len() - i,
        {
            out.push(self.entries[i].denom.clone());
            i += 1;
        }
        assert(out@.map_values(|d: String| d@) =~= self.listing().map_values(|e: Entry| e.0));
        out
    }

    /// The amount held of `denom`: zero where none is held.
    pub fn amount_of(&self, denom: &str) -> (r: Uint128)
        ensures
            r.0 == amount_in(self@, denom@),
    {
        proof {
            use_type_invariant(self);
        }
        let (found, at) = self.locate(denom);
        if found {
            proof {
                lemma_present(self.listing(), at as int);
            }
            self.entries[at].amount
        } else {
            proof {
                lemma_absent(self.listing(), denom@, at as int);
            }
            Uint128::zero()
        }
    }

    /// The amount held of `denom`, where `denom` is the one denomination
    /// held; `None` otherwise.
    pub fn contains_only(&self, denom: &str) -> (r: Option<Uint128>)
        ensures
            r == (if self@.dom().len() == 1 && self@.contains_key(denom@) {
                Some(Uint128(self@[denom@]))
            } else {
                None
            }),
    {
        proof {
            use_type_invariant(self);
        }
        if self.len() == 1 {
            let (found, at) = self.locate(denom);
            if found {
                proof {
                    lemma_present(self.listing(), at as int);
                }
                Some(self.entries[at].amount)
            } else {
                proof {
                    lemma_absent(self.listing(), denom@, at as int);
                }
                None
            }
        } else {
            None
        }
    }

    /// Adds `coin` to what is held of its denomination. A coin of amount
    /// zero changes nothing. Where the sum does not fit in 128 bits, nothing
    /// changes and the overflow error names the amount held and the amount
    /// of the coin.
    pub fn add(&mut self, coin: Coin) -> (r: Result<(), StdError>)
        ensures
            final(self).wf(),
            match r {
                Ok(_) => !add_overflows(old(self)@, coin@) && final(self)@ == map_add(
                    old(self)@,
                    coin@,
                ),
                Err(e) => {
                    &&& add_overflows(old(self)@, coin@)
                    &&& final(self).listing() == old(self).listing()
                    &&& e.is_add_overflow(
                        decimal(amount_in(old(self)@, coin.denom@)),
                        decimal(coin.amount.0 as nat),
                    )
                },
            },
    {
        proof {
            use_type_invariant(&*self);
        }
        if coin.amount.is_zero() {
            return Ok(());
        }
        let ghost before = self.listing();
        let (found, at) = self.locate(coin.denom.as_str());
        if found {
            proof {
                lemma_present(before, at as int);
            }
            match self.entries[at].amount.checked_add(coin.amount) {
                Ok(sum) => {
                    let merged = Coin { denom: coin.denom, amount: sum };
                    proof {
                        lemma_update_at(before, at as int, merged@);
                    }
                    self.replace_at(at, merged);
                    Ok(())
                },
                Err(e) => Err(StdError::overflow(e)),
            }
        } else {
            proof {
                lemma_absent(before, coin.denom@, at as int);
                lemma_insert_at(before, at as int, coin@);
            }
            self.insert_at(at, coin);
            Ok(())
        }
    }

    /// Adds the coins of `others` one after the other, as `add` does. It
    /// stops at the first coin whose addition overflows and returns that
    /// coin's overflow error; the coins before it stay added.
    pub fn extend(&mut self, others: Vec<Coin>) -> (r: Result<(), StdError>)
        ensures
            final(self).wf(),
            final(self)@ == add_all(old(self)@, entries_of(others@)),
            r is Ok <==> first_overflow(old(self)@, entries_of(others@)) == others.len(),
            r matches Err(e) ==> {
                let c = others[first_overflow(old(self)@, entries_of(others@))];
                e.is_add_overflow(
                    decimal(amount_in(final(self)@, c.denom@)),
                    decimal(c.amount.0 as nat),
                )
            },
    {
        proof {
            use_type_invariant(&*self);
        }
        let ghost all = entries_of(others@);
        let mut i: usize = 0;
        assert(all.skip(0) =~= all);
        while i < others.len()
            invariant
                i <= others.len(),
                all == entries_of(others@),
                self.wf(),
                add_all(old(self)@, all) == add_all(self@, all.skip(i as int)),
                first_overflow(old(self)@, all) == i + first_overflow(self@, all.skip(i as int)),
            decreases others.len() - i,
        {
            proof {
                let rest = all.skip(i as int);
                assert(rest[0] == others@[i as int]@);
                assert(rest.drop_first() =~= all.skip(i + 1));
            }
            match self.add(others[i].duplicate()) {
                Ok(_) => {},
                Err(e) => {
                    return Err(e);
                },
            }
            i += 1;
        }
        Ok(())
    }

    /// The collection of the coins of `vec`, which may come in any order.
    /// Coins of amount zero are left out. Two coins of one denomination are
    /// an error.
    pub fn from_vec(vec: Vec<Coin>) -> (r: Result<Coins, CoinsError>)
        ensures
            match r {
                Ok(c) => c.wf() && distinct_denoms(entries_of(vec@)) && c@ == coins_map(
                    entries_of(vec@),
                ),
                Err(e) => e == CoinsError::DuplicateDenom && !distinct_denoms(entries_of(vec@)),
            },
    {
        let ghost all = entries_of(vec@);
        let mut coins = Coins::default();
        let mut i: usize = 0;
        while i < vec.len()
            invariant
                i <= vec.len(),
                all == entries_of(vec@),
                coins.wf(),
                distinct_denoms(all.take(i as int)),
                coins@ == coins_map(all.take(i as int)),
            decreases vec.len() - i,
        {
            let ghost before = all.take(i as int);
            let ghost listed = coins.listing();
            let ghost entry = vec@[i as int]@;
            proof {
                assert(all[i as int] == entry);
                assert(all.take(i + 1) =~= before.push(entry));
            }
            if !vec[i].amount.is_zero() {
                let (found, at) = coins.locate(vec[i].denom.as_str());
                if found {
                    proof {
                        let d = entry.0;
                        lemma_present(listed, at as int);
                        lemma_map_represents(before);
                        let j = choose|j: int| holds(before, j, d);
                        assert(holds(before, j, d));
                        assert(before[j] == all[j]);
                        assert(holds(all, j, d));
                        assert(holds(all, i as int, d));
                    }
                    return Err(CoinsError::DuplicateDenom);
                }
                proof {
                    lemma_absent(listed, entry.0, at as int);
                    lemma_insert_at(listed, at as int, entry);
                    lemma_map_push(before, entry);
                }
                coins.insert_at(at, vec[i].duplicate());
            } else {
                proof {
                    lemma_map_push(before, entry);
                }
            }
            i += 1;
        }
        assert(all.take(i as int) =~= all);
        Ok(coins)
    }

    /// The text form of the collection: the text forms of its coins, in
    /// order, with a comma between them.
    pub open spec fn text(&self) -> Seq<char> {
        join_coins(self.listing())
    }

    /// The text form of the collection, as a string.
    pub fn to_string(&self) -> (s: String)
        ensures
            s@ == self.text(),
    {
        let ghost all = self.listing();
        let mut s = String::new();
        let mut i: usize = 0;
        while i < self.entries.len()
            invariant
                i <= self.entries.len(),
                all == entries_of(self.entries@),
                s@ == join_coins(all.take(i as int)),
            decreases self.entries.len() - i,
        {
            proof {
                let next = all.take(i + 1);
                assert(next.drop_last() =~= all.take(i as int));
                assert(next.last() == self.entries@[i as int]@);
            }
            if i > 0 {
                s.append(",");
                proof {
                    reveal_strlit(",");
                    assert(","@ =~= seq![',']);
                }
            }
            let piece = self.entries[i].to_string();
            s.append(piece.as_str());
            i += 1;
        }
        assert(all.take(i as int) =~= all);
        s
    }

    /// Reads a collection from its text form: coins in any order, with a
    /// comma between them; the empty text is the empty collection. The first
    /// piece that is no coin is an error, and so are two pieces of one
    /// denomination.
    pub fn parse(s: &str) -> (r: Result<Coins, StdError>)
        ensures
            match r {
                Ok(c) => c.wf() && coins_from_text(s@) == Ok::<Map<Seq<char>, u128>, Seq<char>>(
                    c@,
                ),
                Err(e) => coins_from_text(s@) matches Err(msg) && e.is_generic(msg),
            },
    {
        let v = chars_of(s);
        if v.len() == 0 {
            return Ok(Coins::default());
        }
        let mut list: Vec<Coin> = Vec::new();
        let mut start: usize = 0;
        proof {
            assert(v@.skip(0) =~= v@);
            let whole = parse_pieces(split_commas(v@));
            if whole is Ok {
                assert(entries_of(list@) + whole->Ok_0 =~= whole->Ok_0);
            }
        }
        loop
            invariant_except_break
                start <= v.len(),
                v@ == s@,
                v.len() > 0,
                parse_pieces(split_commas(v@)) == match parse_pieces(
                    split_commas(v@.skip(start as int)),
                ) {
                    Ok(rest) => Ok::<Seq<Entry>, CoinFromStrError>(entries_of(list@) + rest),
                    Err(e) => Err(e),
                },
            ensures
                v@ == s@,
                v.len() > 0,
                parse_pieces(split_commas(v@)) == Ok::<Seq<Entry>, CoinFromStrError>(
                    entries_of(list@),
                ),
            decreases v.len() - start,
        {
            let mut end: usize = start;
            while end < v.len() && v[end] != ','
                invariant
                    start <= end <= v.len(),
                    forall|i: int| start <= i < end ==> v@[i] != ',',
                decreases v.len() - end,
            {
                end += 1;
            }
            let ghost tail = v@.skip(start as int);
            let ghost piece = v@.subrange(start as int, end as int);
            let ghost listed = entries_of(list@);
            proof {
                lemma_comma_pos(tail, end - start);
                assert(tail.take(end - start) =~= piece);
                if end < v.len() {
                    assert(tail.skip(end - start + 1) =~= v@.skip(end + 1));
                    assert(split_commas(tail) =~= seq![piece] + split_commas(v@.skip(end + 1)));
                    assert(split_commas(tail).drop_first() =~= split_commas(v@.skip(end + 1)));
                } else {
                    assert(tail =~= piece);
                    assert(split_commas(tail) =~= seq![piece]);
                    assert(split_commas(tail).drop_first() =~= Seq::<Seq<char>>::empty());
                }
                assert(split_commas(tail)[0] == piece);
            }
            match parse_coin_in(&v, start, end) {
                Ok(c) => {
                    list.push(c);
                    proof {
                        let entry = c@;
                        assert(entries_of(list@) =~= listed.push(entry));
                        let rest = parse_pieces(split_commas(tail).drop_first());
                        if rest is Ok {
                            assert(listed + (seq![entry] + rest->Ok_0) =~= listed.push(entry)
                                + rest->Ok_0);
                        }
                        if end == v.len() {
                            assert(listed + (seq![entry] + Seq::<Entry>::empty()) =~= listed.push(
                                entry,
                            ));
                        }
                    }
                },
                Err(e) => {
                    return Err(StdError::from_coin_from_str_error(e));
                },
            }
            if end == v.len() {
                break ;
            }
            start = end + 1;
        }
        match Coins::from_vec(list) {
            Ok(c) => Ok(c),
            Err(e) => Err(StdError::from_coins_error(e)),
        }
    }
}

} // verus!

