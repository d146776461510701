//! What holds of the cache over whole histories of use.

use crate::cache::{lemma_steps_preserve, CacheState, Outcome};
use crate::slots::{has_key, index_of, lemma_push_keys, lemma_without_keys, without, Slot};
use crate::memory_tier::lemma_touch_keys;
use crate::stats::Stats;
use vstd::prelude::*;

verus! {

/// One use of a cache.
pub enum Op<M> {
    /// A lookup of a checksum.
    Lookup(Seq<u8>),
    /// A module compiled from the durable store is handed in.
    Store(Slot<M>),
    /// The pinning of a checksum starts.
    Pin(Seq<u8>),
    /// A module compiled for pinning is handed in.
    PinModule(Slot<M>),
    /// A checksum is unpinned.
    Unpin(Seq<u8>),
    /// The durable store took a module.
    Record(Seq<u8>),
}

/// The state after one use.
pub open spec fn apply<M>(s: CacheState<M>, op: Op<M>) -> CacheState<M> {
    match op {
        Op::Lookup(key) => s.lookup(key),
        Op::Store(slot) => s.store(slot),
        Op::Pin(key) => s.pin(key),
        Op::PinModule(slot) => s.pin_module(slot),
        Op::Unpin(key) => s.unpin(key),
        Op::Record(key) => s.record(key),
    }
}

/// The state after a history of uses, in whatever order the uses of several
/// callers came to be served.
pub open spec fn run<M>(s: CacheState<M>, ops: Seq<Op<M>>) -> CacheState<M>
    decreases ops.len(),
{
    if ops.len() == 0 {
        s
    } else {
        apply(run(s, ops.drop_last()), ops.last())
    }
}

/// The number of lookups in a history.
pub open spec fn lookups<M>(ops: Seq<Op<M>>) -> nat
    decreases ops.len(),
{
    if ops.len() == 0 {
        0
    } else {
        lookups(ops.drop_last()) + (if ops.last() is Lookup {
            1nat
        } else {
            0nat
        })
    }
}

/// The number of pinnings in a history that found their module in the
/// durable store.
pub open spec fn pins_found<M>(s: CacheState<M>, ops: Seq<Op<M>>) -> nat
    decreases ops.len(),
{
    if ops.len() == 0 {
        0
    } else {
        pins_found(s, ops.drop_last()) + (match ops.last() {
            Op::Pin(key) => if run(s, ops.drop_last()).catalog.contains(key) {
                1nat
            } else {
                0nat
            },
            _ => 0nat,
        })
    }
}

/// A lookup of a checksum that the durable store does not hold ends as a
/// miss: the miss counter goes up by one and the other three counters stay.
/// (A miss counter at the largest value of its type stays there.)
pub proof fn law_unknown_checksum_misses<M>(s: CacheState<M>, key: Seq<u8>)
    requires
        s.wf(),
        !s.catalog.contains(key),
        s.stats.misses < u64::MAX,
    ensures
        s.outcome(key) == Outcome::Miss,
        s.lookup(key).stats == (Stats { misses: (s.stats.misses + 1) as u64, ..s.stats }),
        s.lookup(key).pinned == s.pinned,
        s.lookup(key).memory == s.memory,
        s.lookup(key).catalog == s.catalog,
{
}

/// Taking note of a module that the durable store holds already changes
/// nothing: no second artifact comes to be.
pub proof fn law_second_save_changes_nothing<M>(s: CacheState<M>, key: Seq<u8>)
    ensures
        s.record(key).catalog.contains(key),
        s.record(key).record(key) == s.record(key),
{
    assert(s.catalog.insert(key).insert(key) =~= s.catalog.insert(key));
}

/// Every lookup raises exactly one counter, by one, and that counter says
/// where the lookup ended. (A counter at the largest value of its type
/// stays there.)
pub proof fn law_one_counter_per_lookup<M>(s: CacheState<M>, key: Seq<u8>)
    requires
        s.stats.total() < u64::MAX,
    ensures
        s.lookup(key).stats.total() == s.stats.total() + 1,
        s.lookup(key).stats == (match s.outcome(key) {
            Outcome::PinnedHit => Stats {
                pinned_hits: (s.stats.pinned_hits + 1) as u64,
                ..s.stats
            },
            Outcome::MemoryHit => Stats {
                memory_hits: (s.stats.memory_hits + 1) as u64,
                ..s.stats
            },
            Outcome::DurableHit => Stats {
                durable_hits: (s.stats.durable_hits + 1) as u64,
                ..s.stats
            },
            Outcome::Miss => Stats { misses: (s.stats.misses + 1) as u64, ..s.stats },
        }),
{
}

/// After a module was unpinned, a lookup of it falls back to the memory
/// tier, where that tier holds it: the lookup is a memory hit and hands out
/// the module of the memory tier.
pub proof fn law_unpin_falls_back_to_memory<M>(s: CacheState<M>, key: Seq<u8>)
    requires
        s.wf(),
        has_key(s.memory, key),
    ensures
        s.unpin(key).outcome(key) == Outcome::MemoryHit,
        s.unpin(key).memory == s.memory,
        s.unpin(key).catalog == s.catalog,
        s.unpin(key).stats == s.stats,
{
    lemma_without_keys(s.pinned, key);
}

/// Pinning counts a hit of the durable store whether or not the memory tier
/// holds a compiled copy, and a lookup of a pinned module is a pinned hit
/// that leaves the memory tier as it is.
pub proof fn law_pinned_module_is_found_pinned<M>(s: CacheState<M>, slot: Slot<M>)
    requires
        s.wf(),
        s.catalog.contains(slot.checksum@),
    ensures
        s.pin(slot.checksum@).stats == s.stats.durable_hit(),
        s.pin_module(slot).outcome(slot.checksum@) == Outcome::PinnedHit,
        s.pin_module(slot).pinned[index_of(s.pin_module(slot).pinned, slot.checksum@)] == slot,
        s.pin_module(slot).lookup(slot.checksum@).memory == s.memory,
{
    lemma_without_keys(s.pinned, slot.checksum@);
    lemma_push_keys(without(s.pinned, slot.checksum@), slot);
}

/// A history of uses leaves a well-formed cache well formed: the memory tier
/// stays within its budget, and no counter gets smaller.
pub proof fn law_history_preserves<M>(s: CacheState<M>, ops: Seq<Op<M>>)
    requires
        s.wf(),
    ensures
        run(s, ops).wf(),
        run(s, ops).budget == s.budget,
        s.stats.le(run(s, ops).stats),
        s.catalog.subset_of(run(s, ops).catalog),
    decreases ops.len(),
{
    if ops.len() > 0 {
        law_history_preserves(s, ops.drop_last());
        let mid = run(s, ops.drop_last());
        match ops.last() {
            Op::Lookup(key) => lemma_steps_preserve(mid, key, arbitrary()),
            Op::Store(slot) => lemma_steps_preserve(mid, slot.checksum@, slot),
            Op::Pin(key) => lemma_steps_preserve(mid, key, arbitrary()),
            Op::PinModule(slot) => lemma_steps_preserve(mid, slot.checksum@, slot),
            Op::Unpin(key) => lemma_steps_preserve(mid, key, arbitrary()),
            Op::Record(key) => lemma_steps_preserve(mid, key, arbitrary()),
        }
    }
}

/// However the uses of several callers are interleaved, the four counters
/// add up: their sum grows by the number of lookups and the number of
/// pinnings that found their module. (As long as no counter reaches the
/// largest value of its type.)
pub proof fn law_counters_add_up<M>(s: CacheState<M>, ops: Seq<Op<M>>)
    requires
        s.stats.total() + ops.len() <= u64::MAX,
    ensures
        run(s, ops).stats.total() == s.stats.total() + lookups(ops) + pins_found(s, ops),
        lookups(ops) + pins_found(s, ops) <= ops.len(),
    decreases ops.len(),
{
    if ops.len() > 0 {
        law_counters_add_up(s, ops.drop_last());
    }
}

/// A pinned module stays pinned through every history in which it is not
/// unpinned, whatever the memory tier takes in and evicts.
pub proof fn law_pinned_is_never_evicted<M>(s: CacheState<M>, ops: Seq<Op<M>>, key: Seq<u8>)
    requires
        s.wf(),
        has_key(s.pinned, key),
        forall|i: int| 0 <= i < ops.len() ==> ops[i] != Op::<M>::Unpin(key),
    ensures
        has_key(run(s, ops).pinned, key),
        run(s, ops).outcome(key) == Outcome::PinnedHit,
    decreases ops.len(),
{
    if ops.len() > 0 {
        let front = ops.drop_last();
        assert forall|i: int| 0 <= i < front.len() implies front[i] != Op::<M>::Unpin(key) by {
            assert(front[i] == ops[i]);
        }
        law_pinned_is_never_evicted(s, front, key);
        law_history_preserves(s, front);
        let mid = run(s, front);
        match ops.last() {
            Op::PinModule(slot) => {
                lemma_without_keys(mid.pinned, slot.checksum@);
                lemma_push_keys(without(mid.pinned, slot.checksum@), slot);
            },
            Op::Unpin(other) => {
                assert(ops[ops.len() - 1] != Op::<M>::Unpin(key));
                lemma_without_keys(mid.pinned, other);
            },
            _ => {},
        }
    }
}

/// A lookup that ends in the memory tier does not change which modules the
/// tier holds, and no lookup changes the pinned tier or the durable store.
pub proof fn law_lookup_keeps_contents<M>(s: CacheState<M>, key: Seq<u8>)
    requires
        s.wf(),
    ensures
        s.lookup(key).pinned == s.pinned,
        s.lookup(key).catalog == s.catalog,
        forall|x: Seq<u8>| has_key(s.lookup(key).memory, x) <==> has_key(s.memory, x),
{
    lemma_touch_keys(s.memory, key);
}

} // verus!
