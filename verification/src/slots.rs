//! Compiled modules kept under their checksums: the list that both
//! in-memory tiers are built on.

use crate::checksum::Checksum;
use vstd::prelude::*;

verus! {

/// A compiled module, the checksum it is kept under, and the estimate of the
/// memory it takes, in bytes.
pub struct Slot<M> {
    pub checksum: Checksum,
    pub module: M,
    pub size: usize,
}

/// Position `i` of `s` holds the module kept under `key`.
pub open spec fn slot_at<M>(s: Seq<Slot<M>>, i: int, key: Seq<u8>) -> bool {
    0 <= i < s.len() && s[i].checksum@ == key
}

/// Whether `s` holds a module under `key`.
pub open spec fn has_key<M>(s: Seq<Slot<M>>, key: Seq<u8>) -> bool {
    exists|i: int| slot_at(s, i, key)
}

/// A position of `s` that holds the module kept under `key`, where there is
/// one.
pub open spec fn index_of<M>(s: Seq<Slot<M>>, key: Seq<u8>) -> int {
    choose|i: int| slot_at(s, i, key)
}

/// No two positions of `s` hold modules under the same checksum.
pub open spec fn distinct_keys<M>(s: Seq<Slot<M>>) -> bool {
    forall|i: int, j: int, key: Seq<u8>| #[trigger]
        slot_at(s, i, key) && #[trigger] slot_at(s, j, key) ==> i == j
}

/// The sum of the size estimates of the modules of `s`.
pub open spec fn total_size<M>(s: Seq<Slot<M>>) -> nat
    decreases s.len(),
{
    if s.len() == 0 {
        0
    } else {
        total_size(s.drop_last()) + s.last().size as nat
    }
}

/// `s` without the module kept under `key`.
pub open spec fn without<M>(s: Seq<Slot<M>>, key: Seq<u8>) -> Seq<Slot<M>> {
    if has_key(s, key) {
        s.remove(index_of(s, key))
    } else {
        s
    }
}

/// Appending a module adds its size to the total.
pub proof fn lemma_total_push<M>(s: Seq<Slot<M>>, slot: Slot<M>)
    ensures
        total_size(s.push(slot)) == total_size(s) + slot.size,
{
    assert(s.push(slot).drop_last() =~= s);
}

/// Taking a module out takes its size off the total.
pub proof fn lemma_total_remove<M>(s: Seq<Slot<M>>, i: int)
    requires
        0 <= i < s.len(),
    ensures
        total_size(s.remove(i)) + s[i].size == total_size(s),
    decreases s.len(),
{
    if i == s.len() - 1 {
        assert(s.remove(i) =~= s.drop_last());
    } else {
        lemma_total_remove(s.drop_last(), i);
        assert(s.remove(i).drop_last() =~= s.drop_last().remove(i));
        assert(s.remove(i).last() == s.last());
    }
}

/// Taking a module out leaves the checksums distinct and takes away its
/// checksum alone.
pub proof fn lemma_remove_keys<M>(s: Seq<Slot<M>>, i: int)
    requires
        distinct_keys(s),
        0 <= i < s.len(),
    ensures
        distinct_keys(s.remove(i)),
        !has_key(s.remove(i), s[i].checksum@),
        forall|key: Seq<u8>| key != s[i].checksum@ ==> (has_key(s.remove(i), key) <==> has_key(s, key)),
{
    let t = s.remove(i);
    assert forall|a: int, key: Seq<u8>| #[trigger] slot_at(t, a, key) implies slot_at(
        s,
        if a < i {
            a
        } else {
            a + 1
        },
        key,
    ) by {}
    assert forall|a: int, b: int, key: Seq<u8>| #[trigger]
        slot_at(t, a, key) && #[trigger] slot_at(t, b, key) implies a == b by {
        let a2 = if a < i { a } else { a + 1 };
        let b2 = if b < i { b } else { b + 1 };
        assert(slot_at(s, a2, key) && slot_at(s, b2, key));
    }
    assert(!has_key(t, s[i].checksum@)) by {
        if has_key(t, s[i].checksum@) {
            let a = index_of(t, s[i].checksum@);
            let a2 = if a < i { a } else { a + 1 };
            assert(slot_at(s, a2, s[i].checksum@));
            assert(slot_at(s, i, s[i].checksum@));
        }
    }
    assert forall|key: Seq<u8>| key != s[i].checksum@ implies (has_key(t, key) <==> has_key(
        s,
        key,
    )) by {
        if has_key(t, key) {
            let a = index_of(t, key);
            let a2 = if a < i { a } else { a + 1 };
            assert(slot_at(s, a2, key));
        }
        if has_key(s, key) {
            let a = index_of(s, key);
            let a2 = if a < i { a } else { a - 1 };
            assert(slot_at(t, a2, key));
        }
    }
}

/// Appending a module under a checksum that is not there yet leaves the
/// checksums distinct and adds that checksum alone.
pub proof fn lemma_push_keys<M>(s: Seq<Slot<M>>, slot: Slot<M>)
    requires
        distinct_keys(s),
        !has_key(s, slot.checksum@),
    ensures
        distinct_keys(s.push(slot)),
        has_key(s.push(slot), slot.checksum@),
        index_of(s.push(slot), slot.checksum@) == s.len(),
        forall|key: Seq<u8>| key != slot.checksum@ ==> (has_key(s.push(slot), key) <==> has_key(s, key)),
{
    let t = s.push(slot);
    assert forall|a: int, b: int, key: Seq<u8>| #[trigger]
        slot_at(t, a, key) && #[trigger] slot_at(t, b, key) implies a == b by {
        if a < s.len() {
            assert(slot_at(s, a, key));
        }
        if b < s.len() {
            assert(slot_at(s, b, key));
        }
    }
    assert(slot_at(t, s.len() as int, slot.checksum@));
    assert forall|key: Seq<u8>| key != slot.checksum@ implies (has_key(t, key) <==> has_key(
        s,
        key,
    )) by {
        if has_key(t, key) {
            let a = index_of(t, key);
            assert(slot_at(s, a, key));
        }
        if has_key(s, key) {
            let a = index_of(s, key);
            assert(slot_at(t, a, key));
        }
    }
}

/// Taking out the module kept under `key` leaves the checksums distinct and
/// takes away `key` alone.
pub proof fn lemma_without_keys<M>(s: Seq<Slot<M>>, key: Seq<u8>)
    requires
        distinct_keys(s),
    ensures
        distinct_keys(without(s, key)),
        !has_key(without(s, key), key),
        forall|x: Seq<u8>| x != key ==> (has_key(without(s, key), x) <==> has_key(s, x)),
{
    if has_key(s, key) {
        let i = index_of(s, key);
        assert(slot_at(s, i, key));
        lemma_remove_keys(s, i);
    }
}

/// The position at which `list` holds the module kept under `checksum`.
pub fn find_slot<M>(list: &Vec<Slot<M>>, checksum: &Checksum) -> (r: Option<usize>)
    ensures
        match r {
            Some(i) => slot_at(list@, i as int, checksum@),
            None => !has_key(list@, checksum@),
        },
{
    let mut i: usize = 0;
    while i < list.len()
        invariant
            i <= list.len(),
            forall|j: int| 0 <= j < i ==> !slot_at(list@, j, checksum@),
        decreases list.len() - i,
    {
        if list[i].checksum == *checksum {
            return Some(i);
        }
        i += 1;
    }
    None
}

} // verus!
