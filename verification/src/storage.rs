//! Key-value storage of a contract: how keys are made up from namespaces,
//! what a storage is, and a storage that lives in memory.

use vstd::prelude::*;
use vstd::slice::slice_to_vec;

verus! {

/// The two bytes that stand for a length before a namespace: the length in
/// big-endian order.
pub open spec fn length_prefix(len: nat) -> Seq<u8> {
    seq![(len / 256) as u8, (len % 256) as u8]
}

/// A namespace after its length.
pub open spec fn length_prefixed(namespace: Seq<u8>) -> Seq<u8> {
    length_prefix(namespace.len()) + namespace
}

/// The namespaces one after the other, each after its length.
pub open spec fn namespaces_prefixed(namespaces: Seq<Seq<u8>>) -> Seq<u8>
    decreases namespaces.len(),
{
    if namespaces.len() == 0 {
        Seq::empty()
    } else {
        namespaces_prefixed(namespaces.drop_last()) + length_prefixed(namespaces.last())
    }
}

/// The bytes of each of the slices.
pub open spec fn slices_bytes(slices: Seq<&[u8]>) -> Seq<Seq<u8>> {
    slices.map_values(|s: &[u8]| s@)
}

/// The key of a single value: its namespace after its length. The namespace
/// is at most 65535 bytes long.
pub fn to_length_prefixed(namespace: &[u8]) -> (out: Vec<u8>)
    requires
        namespace@.len() <= 0xFFFF,
    ensures
        out@ == length_prefixed(namespace@),
{
    let len = namespace.len();
    let mut out: Vec<u8> = Vec::new();
    out.push((len / 256) as u8);
    out.push((len % 256) as u8);
    out.extend_from_slice(namespace);
    assert(out@ =~= length_prefixed(namespace@));
    out
}

/// The key of a value in a map: the namespaces, each after its length, and
/// then the key within the map. Each namespace is at most 65535 bytes long.
pub fn namespace_with_key(namespaces: &[&[u8]], key: &[u8]) -> (out: Vec<u8>)
    requires
        forall|i: int| 0 <= i < namespaces@.len() ==> (#[trigger] namespaces@[i])@.len() <= 0xFFFF,
    ensures
        out@ == namespaces_prefixed(slices_bytes(namespaces@)) + key@,
{
    let ghost all = slices_bytes(namespaces@);
    let mut out: Vec<u8> = Vec::new();
    let mut i: usize = 0;
    while i < namespaces.len()
        invariant
            i <= namespaces.len(),
            all == slices_bytes(namespaces@),
            forall|j: int|
                0 <= j < namespaces@.len() ==> (#[trigger] namespaces@[j])@.len() <= 0xFFFF,
            out@ == namespaces_prefixed(all.take(i as int)),
        decreases namespaces.len() - i,
    {
        let namespace = namespaces[i];
        let len = namespace.len();
        proof {
            let next = all.take(i + 1);
            assert(next.drop_last() =~= all.take(i as int));
            assert(next.last() == namespace@);
        }
        let ghost before = out@;
        out.push((len / 256) as u8);
        out.push((len % 256) as u8);
        out.extend_from_slice(namespace);
        assert(out@ =~= before + length_prefixed(namespace@));
        i += 1;
    }
    assert(all.take(i as int) =~= all);
    out.extend_from_slice(key);
    out
}

/// A storage of values under keys.
pub trait Storage {
    /// What the storage holds.
    spec fn contents(&self) -> Map<Seq<u8>, Seq<u8>>;

    /// The value under `key`, where there is one.
    fn get(&self, key: &[u8]) -> (r: Option<Vec<u8>>)
        ensures
            match r {
                Some(value) => self.contents().contains_key(key@) && value@ == self.contents()[key@],
                None => !self.contents().contains_key(key@),
            },
    ;

    /// Puts `value` under `key`, in the place of what was there.
    fn set(&mut self, key: &[u8], value: &[u8])
        ensures
            final(self).contents() == old(self).contents().insert(key@, value@),
    ;
}

/// Position `i` of `s` holds the value under `key`.
pub open spec fn bound(s: Seq<(Vec<u8>, Vec<u8>)>, i: int, key: Seq<u8>) -> bool {
    0 <= i < s.len() && s[i].0@ == key
}

/// The values that a list of pairs holds, by key.
pub open spec fn pairs_map(s: Seq<(Vec<u8>, Vec<u8>)>) -> Map<Seq<u8>, Seq<u8>> {
    Map::new(
        |key: Seq<u8>| exists|i: int| bound(s, i, key),
        |key: Seq<u8>| s[choose|i: int| bound(s, i, key)].1@,
    )
}

/// No two positions of `s` hold a value under the same key.
pub open spec fn distinct_pairs(s: Seq<(Vec<u8>, Vec<u8>)>) -> bool {
    forall|i: int, j: int, key: Seq<u8>| #[trigger]
        bound(s, i, key) && #[trigger] bound(s, j, key) ==> i == j
}

/// A storage that lives in memory.
pub struct MemoryStorage {
    pairs: Vec<(Vec<u8>, Vec<u8>)>,
}

impl MemoryStorage {
    #[verifier::type_invariant]
    spec fn inv(&self) -> bool {
        distinct_pairs(self.pairs@)
    }

    /// The storage that holds nothing.
    pub fn new() -> (s: MemoryStorage)
        ensures
            s.contents() == Map::<Seq<u8>, Seq<u8>>::empty(),
            s.spec_len() == 0,
    {
        let s = MemoryStorage { pairs: Vec::new() };
        assert(s.contents() =~= Map::<Seq<u8>, Seq<u8>>::empty());
        s
    }

    /// The number of keys.
    pub fn len(&self) -> (n: usize)
        ensures
            n == self.spec_len(),
    {
        self.pairs.len()
    }

    /// The number of pairs held.
    pub closed spec fn spec_len(&self) -> nat {
        self.pairs@.len()
    }

    /// The position of the value under `key`.
    fn find(&self, key: &[u8]) -> (r: Option<usize>)
        ensures
            match r {
                Some(i) => bound(self.pairs@, i as int, key@),
                None => forall|i: int| !bound(self.pairs@, i, key@),
            },
    {
        let mut i: usize = 0;
        while i < self.pairs.len()
            invariant
                i <= self.pairs.len(),
                forall|j: int| 0 <= j < i ==> !bound(self.pairs@, j, key@),
            decreases self.pairs.len() - i,
        {
            if same_bytes(self.pairs[i].0.as_slice(), key) {
                return Some(i);
            }
            i += 1;
        }
        None
    }
}

/// Whether two slices hold the same bytes.
pub fn same_bytes(a: &[u8], b: &[u8]) -> (r: bool)
    ensures
        r == (a@ == b@),
{
    if a.len() != b.len() {
        return false;
    }
    let mut i: usize = 0;
    while i < a.len()
        invariant
            i <= a.len(),
            a.len() == b.len(),
            forall|j: int| 0 <= j < i ==> a@[j] == b@[j],
        decreases a.len() - i,
    {
        if a[i] != b[i] {
            return false;
        }
        i += 1;
    }
    assert(a@ =~= b@);
    true
}

impl Storage for MemoryStorage {
    closed spec fn contents(&self) -> Map<Seq<u8>, Seq<u8>> {
        pairs_map(self.pairs@)
    }

    fn get(&self, key: &[u8]) -> (r: Option<Vec<u8>>) {
        proof {
            use_type_invariant(self);
        }
        match self.find(key) {
            Some(i) => {
                proof {
                    let j = choose|j: int| bound(self.pairs@, j, key@);
                    assert(bound(self.pairs@, j, key@));
                }
                Some(slice_to_vec(self.pairs[i].1.as_slice()))
            },
            None => None,
        }
    }

    fn set(&mut self, key: &[u8], value: &[u8]) {
        proof {
            use_type_invariant(&*self);
        }
        let ghost before = self.pairs@;
        let found = self.find(key);
        let pair = (slice_to_vec(key), slice_to_vec(value));
        let mut pairs: Vec<(Vec<u8>, Vec<u8>)> = Vec::new();
        std::mem::swap(&mut pairs, &mut self.pairs);
        match found {
            Some(i) => {
                pairs.set(i, pair);
            },
            None => {
                pairs.push(pair);
            },
        }
        proof {
            let after = pairs@;
            let p = match found {
                Some(i) => i as int,
                None => before.len() as int,
            };
            assert(bound(after, p, key@));
            assert forall|i: int, x: Seq<u8>| #[trigger] bound(after, i, x) && i != p implies bound(
                before,
                i,
                x,
            ) by {}
            assert forall|i: int, x: Seq<u8>| #[trigger] bound(before, i, x) && x != key@ implies bound(
                after,
                i,
                x,
            ) by {}
            assert forall|i: int, j: int, x: Seq<u8>| #[trigger]
                bound(after, i, x) && #[trigger] bound(after, j, x) implies i == j by {
                if i != p {
                    assert(bound(before, i, x));
                }
                if j != p {
                    assert(bound(before, j, x));
                }
                if i == p && j != p {
                    assert(bound(before, j, key@));
                }
                if j == p && i != p {
                    assert(bound(before, i, key@));
                }
            }
            let target = pairs_map(before).insert(key@, value@);
            assert forall|x: Seq<u8>| pairs_map(after).contains_key(x) == target.contains_key(
                x,
            ) by {
                if pairs_map(after).contains_key(x) {
                    let i = choose|i: int| bound(after, i, x);
                    if i != p {
                        assert(bound(before, i, x));
                    }
                }
                if pairs_map(before).contains_key(x) && x != key@ {
                    let i = choose|i: int| bound(before, i, x);
                    assert(bound(after, i, x));
                }
            }
            assert forall|x: Seq<u8>| pairs_map(after).contains_key(x) implies pairs_map(after)[x]
                == target[x] by {
                let i = choose|i: int| bound(after, i, x);
                if x == key@ {
                    assert(bound(after, p, x));
                } else {
                    assert(bound(before, i, x));
                    let j = choose|j: int| bound(before, j, x);
                    assert(bound(before, j, x));
                }
            }
            assert(pairs_map(after) =~= target);
        }
        self.pairs = pairs;
    }
}

} // verus!
