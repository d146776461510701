//! Error values returned by the library, each with its message.

use vstd::prelude::*;
use vstd::string::*;

verus! {

/// The arithmetic operation that overflowed.
#[derive(Clone, Copy, Debug, PartialEq, Eq, Structural)]
pub enum OverflowOperation {
    Add,
    Sub,
    Mul,
    Pow,
    Shr,
    Shl,
}

impl OverflowOperation {
    /// The name of the operation.
    pub open spec fn name(self) -> Seq<char> {
        match self {
            OverflowOperation::Add => "Add"@,
            OverflowOperation::Sub => "Sub"@,
            OverflowOperation::Mul => "Mul"@,
            OverflowOperation::Pow => "Pow"@,
            OverflowOperation::Shr => "Shr"@,
            OverflowOperation::Shl => "Shl"@,
        }
    }

    /// The name of the operation, as a string.
    pub fn to_string(&self) -> (s: String)
        ensures
            s@ == self.name(),
    {
        match self {
            OverflowOperation::Add => "Add".to_owned(),
            OverflowOperation::Sub => "Sub".to_owned(),
            OverflowOperation::Mul => "Mul".to_owned(),
            OverflowOperation::Pow => "Pow".to_owned(),
            OverflowOperation::Shr => "Shr".to_owned(),
            OverflowOperation::Shl => "Shl".to_owned(),
        }
    }
}

/// An operation on two operands left the range of its type.
#[derive(Clone, Debug, PartialEq, Eq)]
pub struct OverflowError {
    pub operation: OverflowOperation,
    pub operand1: String,
    pub operand2: String,
}

impl OverflowError {
    /// The message of this error.
    pub open spec fn message(&self) -> Seq<char> {
        "Cannot "@ + self.operation.name() + " with "@ + self.operand1@ + " and "@ + self.operand2@
    }

    /// Records that `operation` overflowed on the two operands.
    pub fn new(operation: OverflowOperation, operand1: String, operand2: String) -> (e:
        OverflowError)
        ensures
            e.operation == operation,
            e.operand1@ == operand1@,
            e.operand2@ == operand2@,
    {
        OverflowError { operation, operand1, operand2 }
    }

    /// The message of this error, as a string.
    pub fn to_string(&self) -> (s: String)
        ensures
            s@ == self.message(),
    {
        let mut s = "Cannot ".to_owned();
        let name = self.operation.to_string();
        s.append(name.as_str());
        s.append(" with ");
        s.append(self.operand1.as_str());
        s.append(" and ");
        s.append(self.operand2.as_str());
        s
    }
}

/// Why a list of coins is no valid coin collection.
#[derive(Clone, Copy, Debug, PartialEq, Eq, Structural)]
pub enum CoinsError {
    DuplicateDenom,
}

impl CoinsError {
    /// The message of this error.
    pub open spec fn message(self) -> Seq<char> {
        "Duplicate denom"@
    }

    /// The message of this error, as a string.
    pub fn to_string(&self) -> (s: String)
        ensures
            s@ == self.message(),
    {
        "Duplicate denom".to_owned()
    }
}

/// Why a text is no valid coin.
#[derive(Clone, Copy, Debug, PartialEq, Eq, Structural)]
pub enum CoinFromStrError {
    /// Nothing follows the digits.
    MissingDenom,
    /// The text does not start with a digit.
    MissingAmount,
    /// The digits denote a number that does not fit in 128 bits.
    InvalidAmount,
}

impl CoinFromStrError {
    /// The message of this error.
    pub open spec fn message(self) -> Seq<char> {
        match self {
            CoinFromStrError::MissingDenom => "Missing denominator"@,
            CoinFromStrError::MissingAmount => "Missing amount or non-digit characters in amount"@,
            CoinFromStrError::InvalidAmount =>
                "Invalid amount: number too large to fit in target type"@,
        }
    }

    /// The message of this error, as a string.
    pub fn to_string(&self) -> (s: String)
        ensures
            s@ == self.message(),
    {
        match self {
            CoinFromStrError::MissingDenom => "Missing denominator".to_owned(),
            CoinFromStrError::MissingAmount =>
                "Missing amount or non-digit characters in amount".to_owned(),
            CoinFromStrError::InvalidAmount =>
                "Invalid amount: number too large to fit in target type".to_owned(),
        }
    }
}

/// The general error of the library.
#[derive(Clone, Debug, PartialEq, Eq)]
pub enum StdError {
    /// An error described by its message alone.
    GenericErr { msg: String },
    /// Something of the given kind was looked up and is not there.
    NotFound { kind: String },
    /// An arithmetic operation overflowed.
    Overflow { source: OverflowError },
    /// Bytes are no value of the type named.
    ParseErr { target_type: String, msg: String },
    /// A value of the type named has no byte form.
    SerializeErr { source_type: String, msg: String },
}

impl StdError {
    /// The message of this error.
    pub open spec fn message(&self) -> Seq<char> {
        match self {
            StdError::GenericErr { msg } => "Generic error: "@ + msg@,
            StdError::NotFound { kind } => kind@ + " not found"@,
            StdError::Overflow { source } => "Overflow: "@ + source.message(),
            StdError::ParseErr { target_type, msg } => "Error parsing into type "@ + target_type@
                + ": "@ + msg@,
            StdError::SerializeErr { source_type, msg } => "Error serializing type "@
                + source_type@ + ": "@ + msg@,
        }
    }

    /// Whether this says that bytes are no value of the type `target_type`.
    pub open spec fn is_parse_err(&self, target_type: Seq<char>) -> bool {
        self matches StdError::ParseErr { target_type: t, .. } && t@ == target_type
    }

    /// Whether this says that a value of the type `source_type` has no byte
    /// form.
    pub open spec fn is_serialize_err(&self, source_type: Seq<char>) -> bool {
        self matches StdError::SerializeErr { source_type: t, .. } && t@ == source_type
    }

    /// Whether this is the generic error with message `msg`.
    pub open spec fn is_generic(&self, msg: Seq<char>) -> bool {
        self matches StdError::GenericErr { msg: m } && m@ == msg
    }

    /// Whether this is the not-found error for `kind`.
    pub open spec fn is_not_found(&self, kind: Seq<char>) -> bool {
        self matches StdError::NotFound { kind: k } && k@ == kind
    }

    /// Whether this reports that adding `operand1` and `operand2` overflowed.
    pub open spec fn is_add_overflow(&self, operand1: Seq<char>, operand2: Seq<char>) -> bool {
        self matches StdError::Overflow { source } && source.operation == OverflowOperation::Add
            && source.operand1@ == operand1 && source.operand2@ == operand2
    }

    /// The generic error with message `msg`.
    pub fn generic_err(msg: String) -> (e: StdError)
        ensures
            e.is_generic(msg@),
    {
        StdError::GenericErr { msg }
    }

    /// The not-found error for `kind`.
    pub fn not_found(kind: String) -> (e: StdError)
        ensures
            e.is_not_found(kind@),
    {
        StdError::NotFound { kind }
    }

    /// The error for bytes that are no value of the type `target_type`.
    pub fn parse_err(target_type: &str, msg: String) -> (e: StdError)
        ensures
            e.is_parse_err(target_type@),
            e matches StdError::ParseErr { msg: m, .. } && m@ == msg@,
    {
        StdError::ParseErr { target_type: target_type.to_owned(), msg }
    }

    /// The error for a value of the type `source_type` without byte form.
    pub fn serialize_err(source_type: &str, msg: String) -> (e: StdError)
        ensures
            e.is_serialize_err(source_type@),
            e matches StdError::SerializeErr { msg: m, .. } && m@ == msg@,
    {
        StdError::SerializeErr { source_type: source_type.to_owned(), msg }
    }

    /// The error for an overflow.
    pub fn overflow(source: OverflowError) -> (e: StdError)
        ensures
            e == (StdError::Overflow { source }),
    {
        StdError::Overflow { source }
    }

    /// The error for a text that is no coin: a generic error whose message
    /// names the parser and the reason.
    pub fn from_coin_from_str_error(value: CoinFromStrError) -> (e: StdError)
        ensures
            e.is_generic("Parsing Coin: "@ + value.message()),
    {
        let mut msg = "Parsing Coin: ".to_owned();
        let reason = value.to_string();
        msg.append(reason.as_str());
        StdError::GenericErr { msg }
    }

    /// The error for a list that is no coin collection: a generic error whose
    /// message names the constructor and the reason.
    pub fn from_coins_error(value: CoinsError) -> (e: StdError)
        ensures
            e.is_generic("Creating Coins: "@ + value.message()),
    {
        let mut msg = "Creating Coins: ".to_owned();
        let reason = value.to_string();
        msg.append(reason.as_str());
        StdError::GenericErr { msg }
    }

    /// The message of this error, as a string.
    pub fn to_string(&self) -> (s: String)
        ensures
            s@ == self.message(),
    {
        match self {
            StdError::GenericErr { msg } => {
                let mut s = "Generic error: ".to_owned();
                s.append(msg.as_str());
                s
            },
            StdError::NotFound { kind } => {
                let mut s = kind.clone();
                s.append(" not found");
                s
            },
            StdError::Overflow { source } => {
                let mut s = "Overflow: ".to_owned();
                let inner = source.to_string();
                s.append(inner.as_str());
                s
            },
            StdError::ParseErr { target_type, msg } => {
                let mut s = "Error parsing into type ".to_owned();
                s.append(target_type.as_str());
                s.append(": ");
                s.append(msg.as_str());
                s
            },
            StdError::SerializeErr { source_type, msg } => {
                let mut s = "Error serializing type ".to_owned();
                s.append(source_type.as_str());
                s.append(": ");
                s.append(msg.as_str());
                s
            },
        }
    }
}

} // verus!
