//! Addresses in their readable and in their canonical form, and the base64
//! notation in which canonical addresses are shown.

use crate::text::push_char;
use vstd::prelude::*;

verus! {

/// The character for a value below 64 in the base64 alphabet.
pub open spec fn base64_char(n: nat) -> char {
    if n < 26 {
        ((n + 65) as u8) as char
    } else if n < 52 {
        ((n + 71) as u8) as char
    } else if n < 62 {
        ((n - 4) as u8) as char
    } else if n == 62 {
        '+'
    } else {
        '/'
    }
}

/// Base64 notation of `bytes`, with padding: four characters for every
/// three bytes.
pub open spec fn base64(bytes: Seq<u8>) -> Seq<char>
    decreases bytes.len(),
{
    if bytes.len() == 0 {
        Seq::empty()
    } else if bytes.len() == 1 {
        seq![
            base64_char((bytes[0] / 4) as nat),
            base64_char(((bytes[0] % 4) * 16) as nat),
            '=',
            '=',
        ]
    } else if bytes.len() == 2 {
        seq![
            base64_char((bytes[0] / 4) as nat),
            base64_char(((bytes[0] % 4) * 16 + bytes[1] / 16) as nat),
            base64_char(((bytes[1] % 16) * 4) as nat),
            '=',
        ]
    } else {
        seq![
            base64_char((bytes[0] / 4) as nat),
            base64_char(((bytes[0] % 4) * 16 + bytes[1] / 16) as nat),
            base64_char(((bytes[1] % 16) * 4 + bytes[2] / 64) as nat),
            base64_char((bytes[2] % 64) as nat),
        ] + base64(bytes.skip(3))
    }
}

/// The base64 character for `n`, which is below 64.
fn base64_char_of(n: u8) -> (c: char)
    requires
        n < 64,
    ensures
        c == base64_char(n as nat),
{
    if n < 26 {
        (n + 65) as char
    } else if n < 52 {
        (n + 71) as char
    } else if n < 62 {
        (n - 4) as char
    } else if n == 62 {
        '+'
    } else {
        '/'
    }
}

/// Writes `bytes` in base64 notation.
pub fn to_base64(bytes: &[u8]) -> (s: String)
    ensures
        s@ == base64(bytes@),
{
    let mut s = String::new();
    let mut i: usize = 0;
    assert(bytes@.skip(0) =~= bytes@);
    while bytes.len() - i >= 3
        invariant
            i <= bytes.len(),
            base64(bytes@) == s@ + base64(bytes@.skip(i as int)),
        decreases bytes.len() - i,
    {
        let (a, b, c) = (bytes[i], bytes[i + 1], bytes[i + 2]);
        let ghost before = s@;
        let ghost rest = bytes@.skip(i as int);
        proof {
            assert(rest[0] == a && rest[1] == b && rest[2] == c);
            assert(rest.skip(3) =~= bytes@.skip(i + 3));
        }
        push_char(&mut s, base64_char_of(a / 4));
        push_char(&mut s, base64_char_of((a % 4) * 16 + b / 16));
        push_char(&mut s, base64_char_of((b % 16) * 4 + c / 64));
        push_char(&mut s, base64_char_of(c % 64));
        proof {
            assert(s@ =~= before + seq![
                base64_char((a / 4) as nat),
                base64_char(((a % 4) * 16 + b / 16) as nat),
                base64_char(((b % 16) * 4 + c / 64) as nat),
                base64_char((c % 64) as nat),
            ]);
            assert(before + base64(rest) =~= s@ + base64(bytes@.skip(i + 3)));
        }
        i += 3;
    }
    let ghost before = s@;
    let ghost rest = bytes@.skip(i as int);
    if bytes.len() - i == 1 {
        let a = bytes[i];
        assert(rest[0] == a);
        push_char(&mut s, base64_char_of(a / 4));
        push_char(&mut s, base64_char_of((a % 4) * 16));
        push_char(&mut s, '=');
        push_char(&mut s, '=');
        assert(s@ =~= before + base64(rest));
    } else if bytes.len() - i == 2 {
        let (a, b) = (bytes[i], bytes[i + 1]);
        assert(rest[0] == a && rest[1] == b);
        push_char(&mut s, base64_char_of(a / 4));
        push_char(&mut s, base64_char_of((a % 4) * 16 + b / 16));
        push_char(&mut s, base64_char_of((b % 16) * 4));
        push_char(&mut s, '=');
        assert(s@ =~= before + base64(rest));
    } else {
        assert(before + base64(rest) =~= before);
    }
    s
}

/// A readable address.
#[derive(Clone, Debug, PartialEq, Eq)]
pub struct Addr(pub String);

impl Addr {
    /// The address with this text. The text is taken as it is.
    pub fn unchecked(text: &str) -> (a: Addr)
        ensures
            a.0@ == text@,
    {
        Addr(text.to_owned())
    }

    /// The text of the address.
    pub fn as_str(&self) -> (s: &str)
        ensures
            s@ == self.0@,
    {
        self.0.as_str()
    }
}

/// An address in canonical form: bytes.
#[derive(Clone, Debug, PartialEq, Eq)]
pub struct CanonicalAddr(pub Vec<u8>);

impl CanonicalAddr {
    /// The bytes of the address.
    pub fn as_slice(&self) -> (s: &[u8])
        ensures
            s@ == self.0@,
    {
        self.0.as_slice()
    }

    /// The address as it is shown: its bytes in base64 notation.
    pub fn to_string(&self) -> (s: String)
        ensures
            s@ == base64(self.0@),
    {
        to_base64(self.0.as_slice())
    }
}

} // verus!
