//! Unsigned 128-bit amounts with checked arithmetic.

use crate::errors::{OverflowError, OverflowOperation};
use crate::text::{decimal, u128_to_string};
use vstd::prelude::*;

verus! {

/// A 128-bit unsigned amount.
#[derive(Clone, Copy, Debug, PartialEq, Eq, Structural)]
pub struct Uint128(pub u128);

impl Uint128 {
    /// Wraps a raw value.
    pub fn new(value: u128) -> (r: Uint128)
        ensures
            r.0 == value,
    {
        Uint128(value)
    }

    /// The amount zero.
    pub fn zero() -> (r: Uint128)
        ensures
            r.0 == 0,
    {
        Uint128(0)
    }

    /// The raw value.
    pub fn u128(&self) -> (r: u128)
        ensures
            r == self.0,
    {
        self.0
    }

    /// Whether the amount is zero.
    pub fn is_zero(&self) -> (r: bool)
        ensures
            r == (self.0 == 0),
    {
        self.0 == 0
    }

    /// The sum of two amounts, or the overflow error that names both
    /// operands when the sum does not fit in 128 bits.
    pub fn checked_add(self, other: Uint128) -> (r: Result<Uint128, OverflowError>)
        ensures
            match r {
                Ok(sum) => sum.0 == self.0 + other.0,
                Err(e) => {
                    &&& self.0 + other.0 > u128::MAX
                    &&& e.operation == OverflowOperation::Add
                    &&& e.operand1@ == decimal(self.0 as nat)
                    &&& e.operand2@ == decimal(other.0 as nat)
                },
            },
    {
        match self.0.checked_add(other.0) {
            Some(sum) => Ok(Uint128(sum)),
            None => Err(
                OverflowError::new(
                    OverflowOperation::Add,
                    u128_to_string(self.0),
                    u128_to_string(other.0),
                ),
            ),
        }
    }

    /// The amount in decimal notation.
    pub fn to_string(&self) -> (s: String)
        ensures
            s@ == decimal(self.0 as nat),
    {
        u128_to_string(self.0)
    }
}

/// A fixed-point number with 18 fractional digits, held as the count of its
/// smallest units.
#[derive(Clone, Copy, Debug, PartialEq, Eq, Structural)]
pub struct Decimal(pub Uint128);

impl Decimal {
    /// The number of smallest units in one.
    pub open spec fn spec_one() -> u128 {
        1_000_000_000_000_000_000u128
    }

    /// The number of `atomics` smallest units.
    pub fn raw(atomics: u128) -> (d: Decimal)
        ensures
            d.0.0 == atomics,
    {
        Decimal(Uint128(atomics))
    }

    /// Zero.
    pub fn zero() -> (d: Decimal)
        ensures
            d.0.0 == 0,
    {
        Decimal(Uint128(0))
    }

    /// One.
    pub fn one() -> (d: Decimal)
        ensures
            d.0.0 == Decimal::spec_one(),
    {
        Decimal(Uint128(1_000_000_000_000_000_000u128))
    }

    /// `x` hundredths.
    pub fn percent(x: u64) -> (d: Decimal)
        ensures
            d.0.0 == x * (Decimal::spec_one() / 100),
    {
        let x: u128 = x as u128;
        Decimal(Uint128(x * 10_000_000_000_000_000u128))
    }

    /// The count of smallest units.
    pub fn atomics(&self) -> (u: Uint128)
        ensures
            u == self.0,
    {
        self.0
    }

    /// Whether the number is zero.
    pub fn is_zero(&self) -> (r: bool)
        ensures
            r == (self.0.0 == 0),
    {
        self.0.0 == 0
    }
}

} // verus!
