//! Content identity of a module: the SHA-256 digest of its bytes.

use crate::text::push_char;
use sha2::{Digest, Sha256};
use vstd::prelude::*;

verus! {

/// The SHA-256 digest of `data`, a sequence of 32 bytes.
pub uninterp spec fn sha256(data: Seq<u8>) -> Seq<u8>;

/// `sha2::Sha256::digest`: the SHA-256 digest of `data`. The digest depends
/// on the bytes of `data` alone.
#[verifier::external_body]
fn sha256_digest(data: &[u8]) -> (out: [u8; 32])
    ensures
        out@ == sha256(data@),
{
    Sha256::digest(data).into()
}

/// The lower-case hexadecimal digit for a value below sixteen.
pub open spec fn hex_digit(n: nat) -> char {
    if n < 10 {
        ((n + 48) as u8) as char
    } else {
        ((n + 87) as u8) as char
    }
}

/// Lower-case hexadecimal notation of `bytes`, two digits per byte.
pub open spec fn hex_of(bytes: Seq<u8>) -> Seq<char>
    decreases bytes.len(),
{
    if bytes.len() == 0 {
        Seq::empty()
    } else {
        hex_of(bytes.drop_last()).push(hex_digit((bytes.last() / 16) as nat)).push(
            hex_digit((bytes.last() % 16) as nat),
        )
    }
}

/// The digit for `n`, which is below sixteen.
fn hex_digit_of(n: u8) -> (c: char)
    requires
        n < 16,
    ensures
        c == hex_digit(n as nat),
{
    if n < 10 {
        (n + 48) as char
    } else {
        (n + 87) as char
    }
}

/// The identity of a module: a digest of 32 bytes.
#[derive(Clone, Copy, Debug, Eq, Hash)]
pub struct Checksum(pub [u8; 32]);

impl View for Checksum {
    type V = Seq<u8>;

    /// The 32 bytes of the digest.
    open spec fn view(&self) -> Seq<u8> {
        self.0@
    }
}

impl PartialEq for Checksum {
    /// Whether both hold the same bytes.
    fn eq(&self, other: &Checksum) -> (r: bool) {
        let mut i: usize = 0;
        while i < 32
            invariant
                i <= 32,
                forall|j: int| 0 <= j < i ==> self.0@[j] == other.0@[j],
            decreases 32 - i,
        {
            if self.0[i] != other.0[i] {
                return false;
            }
            i += 1;
        }
        assert(self.0@ =~= other.0@);
        true
    }
}

impl vstd::std_specs::cmp::PartialEqSpecImpl for Checksum {
    open spec fn obeys_eq_spec() -> bool {
        true
    }

    open spec fn eq_spec(&self, other: &Checksum) -> bool {
        self@ == other@
    }
}

impl Checksum {
    /// The checksum of a module's bytes. Equal bytes give equal checksums.
    pub fn generate(wasm: &[u8]) -> (c: Checksum)
        ensures
            c@ == sha256(wasm@),
    {
        Checksum(sha256_digest(wasm))
    }

    /// The checksum that holds the bytes of `data`, which must be 32.
    pub fn from_slice(data: &[u8]) -> (r: Option<Checksum>)
        ensures
            match r {
                Some(c) => data@.len() == 32 && c@ == data@,
                None => data@.len() != 32,
            },
    {
        if data.len() != 32 {
            return None;
        }
        let mut bytes: [u8; 32] = [0u8; 32];
        let mut i: usize = 0;
        while i < 32
            invariant
                i <= 32,
                data@.len() == 32,
                forall|j: int| 0 <= j < i ==> bytes@[j] == data@[j],
            decreases 32 - i,
        {
            bytes[i] = data[i];
            i += 1;
        }
        assert(bytes@ =~= data@);
        Some(Checksum(bytes))
    }

    /// The bytes of the digest.
    pub fn to_vec(&self) -> (v: Vec<u8>)
        ensures
            v@ == self@,
    {
        let mut v: Vec<u8> = Vec::new();
        let mut i: usize = 0;
        while i < 32
            invariant
                i <= 32,
                v@ == self.0@.take(i as int),
            decreases 32 - i,
        {
            v.push(self.0[i]);
            assert(self.0@.take(i + 1) =~= self.0@.take(i as int).push(self.0@[i as int]));
            i += 1;
        }
        assert(self.0@.take(32) =~= self.0@);
        v
    }

    /// The digest in lower-case hexadecimal notation: the name under which
    /// the durable store keeps the module.
    pub fn to_hex(&self) -> (s: String)
        ensures
            s@ == hex_of(self@),
            s@.len() == 64,
    {
        let mut s = String::new();
        let mut i: usize = 0;
        while i < 32
            invariant
                i <= 32,
                s@ == hex_of(self.0@.take(i as int)),
                s@.len() == 2 * i,
            decreases 32 - i,
        {
            let b = self.0[i];
            proof {
                let next = self.0@.take(i + 1);
                assert(next.drop_last() =~= self.0@.take(i as int));
                assert(next.last() == b);
            }
            push_char(&mut s, hex_digit_of(b / 16));
            push_char(&mut s, hex_digit_of(b % 16));
            i += 1;
        }
        assert(self.0@.take(32) =~= self.0@);
        s
    }
}

} // verus!
