//! The four counters of the cache: how often a module was found pinned, in
//! memory, or in the durable store, and how often it was not found at all.

use vstd::prelude::*;

verus! {

/// `n` after one more event. A counter that has reached the largest value
/// stays there.
pub open spec fn bump(n: u64) -> u64 {
    if n < u64::MAX {
        (n + 1) as u64
    } else {
        n
    }
}

/// The counters of one cache. They never decrease.
#[derive(Clone, Copy, Debug, PartialEq, Eq, Structural)]
pub struct Stats {
    pub pinned_hits: u64,
    pub memory_hits: u64,
    pub durable_hits: u64,
    pub misses: u64,
}

impl Stats {
    /// The sum of the four counters.
    pub open spec fn total(self) -> nat {
        (self.pinned_hits + self.memory_hits + self.durable_hits + self.misses) as nat
    }

    /// The counters after one more hit in the pinned tier.
    pub open spec fn pinned_hit(self) -> Stats {
        Stats { pinned_hits: bump(self.pinned_hits), ..self }
    }

    /// The counters after one more hit in the memory tier.
    pub open spec fn memory_hit(self) -> Stats {
        Stats { memory_hits: bump(self.memory_hits), ..self }
    }

    /// The counters after one more hit in the durable store.
    pub open spec fn durable_hit(self) -> Stats {
        Stats { durable_hits: bump(self.durable_hits), ..self }
    }

    /// The counters after one more miss.
    pub open spec fn miss(self) -> Stats {
        Stats { misses: bump(self.misses), ..self }
    }

    /// No counter of `self` is above the same counter of `later`.
    pub open spec fn le(self, later: Stats) -> bool {
        &&& self.pinned_hits <= later.pinned_hits
        &&& self.memory_hits <= later.memory_hits
        &&& self.durable_hits <= later.durable_hits
        &&& self.misses <= later.misses
    }

    /// All counters at zero.
    pub fn new() -> (s: Stats)
        ensures
            s == (Stats { pinned_hits: 0, memory_hits: 0, durable_hits: 0, misses: 0 }),
    {
        Stats { pinned_hits: 0, memory_hits: 0, durable_hits: 0, misses: 0 }
    }

    /// Counts a hit in the pinned tier.
    pub fn count_pinned_hit(&mut self)
        ensures
            *final(self) == old(self).pinned_hit(),
    {
        self.pinned_hits = self.pinned_hits.saturating_add(1);
    }

    /// Counts a hit in the memory tier.
    pub fn count_memory_hit(&mut self)
        ensures
            *final(self) == old(self).memory_hit(),
    {
        self.memory_hits = self.memory_hits.saturating_add(1);
    }

    /// Counts a hit in the durable store.
    pub fn count_durable_hit(&mut self)
        ensures
            *final(self) == old(self).durable_hit(),
    {
        self.durable_hits = self.durable_hits.saturating_add(1);
    }

    /// Counts a miss.
    pub fn count_miss(&mut self)
        ensures
            *final(self) == old(self).miss(),
    {
        self.misses = self.misses.saturating_add(1);
    }
}

} // verus!
