//! The cache of compiled modules: a pinned tier, a bounded memory tier and
//! the list of what the durable store holds, with the counters that say
//! where each lookup ended.
//!
//! The cache decides; its owner reads and writes the durable store, compiles
//! and instantiates. A lookup that ends in the durable store tells the owner
//! to load and compile the module, and the owner hands the compiled module
//! back with `store_module`.

use crate::checksum::{sha256, Checksum};
use crate::memory_tier::{lemma_put_keys, lemma_touch_keys, put, touch, MemoryTier};
use crate::options::CacheOptions;
use crate::pinned_tier::PinnedTier;
use crate::slots::{
    distinct_keys, has_key, index_of, lemma_push_keys, lemma_without_keys, total_size, without,
    Slot,
};
use crate::stats::Stats;
use crate::validation::{validate, validated, ModuleReport, ValidationError};
use vstd::prelude::*;

verus! {

/// Where a lookup ends.
#[derive(Clone, Copy, Debug, PartialEq, Eq, Structural)]
pub enum Outcome {
    /// The module is pinned.
    PinnedHit,
    /// The module is in the memory tier.
    MemoryHit,
    /// The module is in the durable store and has to be compiled.
    DurableHit,
    /// The durable store does not hold the module.
    Miss,
}

/// Position `i` of `list` holds the checksum `key`.
pub open spec fn listed(list: Seq<Checksum>, i: int, key: Seq<u8>) -> bool {
    0 <= i < list.len() && list[i]@ == key
}

/// The checksums that a list holds.
pub open spec fn key_set(list: Seq<Checksum>) -> Set<Seq<u8>> {
    Set::new(|key: Seq<u8>| exists|i: int| listed(list, i, key))
}

/// What a cache holds.
pub struct CacheState<M> {
    /// The checksums of the modules in the durable store.
    pub catalog: Set<Seq<u8>>,
    /// The pinned modules.
    pub pinned: Seq<Slot<M>>,
    /// The modules of the memory tier, the least recently used first.
    pub memory: Seq<Slot<M>>,
    /// The budget of the memory tier, in bytes.
    pub budget: nat,
    /// The counters.
    pub stats: Stats,
}

impl<M> CacheState<M> {
    /// The state is well formed: no tier holds a checksum twice, the memory
    /// tier is within its budget, and both tiers hold only modules of the
    /// durable store.
    pub open spec fn wf(self) -> bool {
        &&& distinct_keys(self.pinned)
        &&& distinct_keys(self.memory)
        &&& total_size(self.memory) <= self.budget
        &&& forall|key: Seq<u8>| #[trigger] has_key(self.pinned, key) ==> self.catalog.contains(key)
        &&& forall|key: Seq<u8>| #[trigger] has_key(self.memory, key) ==> self.catalog.contains(key)
    }

    /// The cache with a budget of `budget` bytes that holds nothing and has
    /// counted nothing.
    pub open spec fn fresh(budget: nat) -> CacheState<M> {
        CacheState {
            catalog: Set::empty(),
            pinned: Seq::empty(),
            memory: Seq::empty(),
            budget,
            stats: Stats { pinned_hits: 0, memory_hits: 0, durable_hits: 0, misses: 0 },
        }
    }

    /// Where a lookup of `key` ends: the pinned tier comes first, then the
    /// memory tier, then the durable store.
    pub open spec fn outcome(self, key: Seq<u8>) -> Outcome {
        if has_key(self.pinned, key) {
            Outcome::PinnedHit
        } else if has_key(self.memory, key) {
            Outcome::MemoryHit
        } else if self.catalog.contains(key) {
            Outcome::DurableHit
        } else {
            Outcome::Miss
        }
    }

    /// The state after a lookup of `key`: the counter of its outcome has
    /// gone up, and a module found in the memory tier is the most recently
    /// used.
    pub open spec fn lookup(self, key: Seq<u8>) -> CacheState<M> {
        match self.outcome(key) {
            Outcome::PinnedHit => CacheState { stats: self.stats.pinned_hit(), ..self },
            Outcome::MemoryHit => CacheState {
                memory: touch(self.memory, key),
                stats: self.stats.memory_hit(),
                ..self
            },
            Outcome::DurableHit => CacheState { stats: self.stats.durable_hit(), ..self },
            Outcome::Miss => CacheState { stats: self.stats.miss(), ..self },
        }
    }

    /// The state after the module of `slot`, compiled from the durable
    /// store, was handed in: the memory tier holds it, within its budget. A
    /// module that the durable store does not hold is not taken.
    pub open spec fn store(self, slot: Slot<M>) -> CacheState<M> {
        if self.catalog.contains(slot.checksum@) {
            CacheState { memory: put(self.memory, slot, self.budget), ..self }
        } else {
            self
        }
    }

    /// The state after a request to pin `key`: where the durable store holds
    /// the module, its hit is counted.
    pub open spec fn pin(self, key: Seq<u8>) -> CacheState<M> {
        if self.catalog.contains(key) {
            CacheState { stats: self.stats.durable_hit(), ..self }
        } else {
            self
        }
    }

    /// The state after the module of `slot`, compiled for pinning, was
    /// handed in: the pinned tier holds it. A module that the durable store
    /// does not hold is not taken.
    pub open spec fn pin_module(self, slot: Slot<M>) -> CacheState<M> {
        if self.catalog.contains(slot.checksum@) {
            CacheState { pinned: without(self.pinned, slot.checksum@).push(slot), ..self }
        } else {
            self
        }
    }

    /// The state after `key` was unpinned: the pinned tier does not hold it.
    pub open spec fn unpin(self, key: Seq<u8>) -> CacheState<M> {
        CacheState { pinned: without(self.pinned, key), ..self }
    }

    /// The state after the durable store took the module `key`.
    pub open spec fn record(self, key: Seq<u8>) -> CacheState<M> {
        CacheState { catalog: self.catalog.insert(key), ..self }
    }
}

/// Every step leaves a well-formed state well formed, and no step makes a
/// counter smaller, changes the budget or takes a module out of the durable
/// store.
pub proof fn lemma_steps_preserve<M>(s: CacheState<M>, key: Seq<u8>, slot: Slot<M>)
    requires
        s.wf(),
    ensures
        s.lookup(key).wf(),
        s.store(slot).wf(),
        s.pin(key).wf(),
        s.pin_module(slot).wf(),
        s.unpin(key).wf(),
        s.record(key).wf(),
        s.stats.le(s.lookup(key).stats),
        s.stats.le(s.pin(key).stats),
{
    lemma_touch_keys(s.memory, key);
    lemma_put_keys(s.memory, slot, s.budget);
    lemma_without_keys(s.pinned, key);
    lemma_without_keys(s.pinned, slot.checksum@);
    lemma_push_keys(without(s.pinned, slot.checksum@), slot);
    let t = s.pin_module(slot);
    assert forall|x: Seq<u8>| #[trigger] has_key(t.pinned, x) implies t.catalog.contains(x) by {
        if s.catalog.contains(slot.checksum@) && x != slot.checksum@ {
            assert(has_key(s.pinned, x));
        }
    }
    let u = s.unpin(key);
    assert forall|x: Seq<u8>| #[trigger] has_key(u.pinned, x) implies u.catalog.contains(x) by {
        if x != key {
            assert(has_key(s.pinned, x));
        }
    }
    let v = s.store(slot);
    assert forall|x: Seq<u8>| #[trigger] has_key(v.memory, x) implies v.catalog.contains(x) by {
        if s.catalog.contains(slot.checksum@) && x != slot.checksum@ {
            assert(has_key(s.memory, x));
        }
    }
    let w = s.lookup(key);
    assert forall|x: Seq<u8>| #[trigger] has_key(w.memory, x) implies w.catalog.contains(x) by {
        assert(has_key(s.memory, x));
    }
}

/// What a lookup hands to the owner of the cache.
pub enum Lookup<'a, M> {
    /// The module, found in the pinned tier.
    Pinned(&'a M),
    /// The module, found in the memory tier.
    Memory(&'a M),
    /// The durable store holds the module: load it, compile it, and hand it
    /// in with `store_module`.
    Load,
    /// The durable store does not hold the module.
    NotFound,
}

/// Why an operation of the cache fails.
#[derive(Clone, Debug, PartialEq, Eq)]
pub enum CacheError {
    /// The module is rejected before it is stored. Final for those bytes.
    Validation { source: ValidationError },
    /// The compiler rejects a module that passed validation. Final.
    Compile { msg: String },
    /// The durable store does not hold the module.
    NotFound { checksum: Checksum },
    /// The durable store cannot be read or written. The caller may retry.
    Io { msg: String },
    /// The backend lacks an import that the module requires.
    Link { msg: String },
    /// The limits asked for cannot be met for the module.
    ResourceLimit { msg: String },
}

/// The cache.
pub struct Cache<M> {
    options: CacheOptions,
    catalog: Vec<Checksum>,
    pinned: PinnedTier<M>,
    memory: MemoryTier<M>,
    stats: Stats,
}

impl<M> View for Cache<M> {
    type V = CacheState<M>;

    /// What the cache holds.
    closed spec fn view(&self) -> CacheState<M> {
        CacheState {
            catalog: key_set(self.catalog@),
            pinned: self.pinned@,
            memory: self.memory@,
            budget: self.memory.budget(),
            stats: self.stats,
        }
    }
}

/// Whether `list` holds `checksum`.
fn list_has(list: &Vec<Checksum>, checksum: &Checksum) -> (r: bool)
    ensures
        r == key_set(list@).contains(checksum@),
{
    let mut i: usize = 0;
    while i < list.len()
        invariant
            i <= list.len(),
            forall|j: int| 0 <= j < i ==> !listed(list@, j, checksum@),
        decreases list.len() - i,
    {
        if list[i] == *checksum {
            assert(listed(list@, i as int, checksum@));
            return true;
        }
        i += 1;
    }
    false
}

impl<M> Cache<M> {
    /// The options that the cache was made with.
    pub closed spec fn spec_options(&self) -> CacheOptions {
        self.options
    }

    #[verifier::type_invariant]
    spec fn inv(&self) -> bool {
        &&& forall|key: Seq<u8>| #[trigger]
            has_key(self.pinned@, key) ==> key_set(self.catalog@).contains(key)
        &&& forall|key: Seq<u8>| #[trigger]
            has_key(self.memory@, key) ==> key_set(self.catalog@).contains(key)
    }

    /// The cache that holds nothing and has counted nothing. Its memory tier
    /// has the budget that `options` gives.
    pub fn new(options: CacheOptions) -> (c: Cache<M>)
        ensures
            c@ == CacheState::<M>::fresh(options.memory_tier_byte_budget.0 as nat),
            c@.wf(),
            c.spec_options() == options,
    {
        let budget = options.memory_tier_byte_budget.0;
        let c = Cache {
            options,
            catalog: Vec::new(),
            pinned: PinnedTier::new(),
            memory: MemoryTier::new(budget),
            stats: Stats::new(),
        };
        assert(key_set(c.catalog@) =~= Set::<Seq<u8>>::empty());
        c
    }

    /// The options that the cache was made with.
    pub fn options(&self) -> (o: &CacheOptions)
        ensures
            *o == self.spec_options(),
    {
        &self.options
    }

    /// The counters.
    pub fn stats(&self) -> (s: Stats)
        ensures
            s == self@.stats,
    {
        self.stats
    }

    /// Checks a module before it is stored and gives its checksum. The
    /// module passes by its report, against the capabilities of the options.
    /// Nothing changes.
    pub fn check_wasm(&self, wasm: &[u8], report: &ModuleReport) -> (r: Result<
        Checksum,
        CacheError,
    >)
        ensures
            match r {
                Ok(c) => c@ == sha256(wasm@) && validated(
                    *report,
                    self.spec_options().available_capabilities@,
                    Ok(()),
                ),
                Err(CacheError::Validation { source }) => validated(
                    *report,
                    self.spec_options().available_capabilities@,
                    Err(source),
                ),
                Err(_) => false,
            },
    {
        match validate(report, &self.options.available_capabilities) {
            Ok(_) => Ok(Checksum::generate(wasm)),
            Err(source) => Err(CacheError::Validation { source }),
        }
    }

    /// Whether the durable store holds the module.
    pub fn is_stored(&self, checksum: &Checksum) -> (r: bool)
        ensures
            r == self@.catalog.contains(checksum@),
    {
        list_has(&self.catalog, checksum)
    }

    /// Whether the module is pinned.
    pub fn is_pinned(&self, checksum: &Checksum) -> (r: bool)
        ensures
            r == has_key(self@.pinned, checksum@),
    {
        self.pinned.contains(checksum)
    }

    /// Whether the memory tier holds the module.
    pub fn is_in_memory(&self, checksum: &Checksum) -> (r: bool)
        ensures
            r == has_key(self@.memory, checksum@),
    {
        self.memory.contains(checksum)
    }

    /// Takes note that the durable store holds the module, and says whether
    /// that is new. A second note of the same module changes nothing.
    pub fn record_saved(&mut self, checksum: Checksum) -> (created: bool)
        ensures
            final(self)@ == old(self)@.record(checksum@),
            final(self)@.wf(),
            final(self).spec_options() == old(self).spec_options(),
            created == !old(self)@.catalog.contains(checksum@),
    {
        proof {
            use_type_invariant(&*self);
            use_type_invariant(&self.pinned);
            use_type_invariant(&self.memory);
            self.pinned.lemma_inv();
            self.memory.lemma_inv();
        }
        let ghost before = self.catalog@;
        if list_has(&self.catalog, &checksum) {
            assert(key_set(before).insert(checksum@) =~= key_set(before));
            false
        } else {
            let mut pinned = PinnedTier::new();
            let mut memory = MemoryTier::new(0);
            let mut list: Vec<Checksum> = Vec::new();
            std::mem::swap(&mut pinned, &mut self.pinned);
            std::mem::swap(&mut memory, &mut self.memory);
            std::mem::swap(&mut list, &mut self.catalog);
            list.push(checksum);
            proof {
                let after = list@;
                assert forall|key: Seq<u8>| key_set(after).contains(key) == key_set(
                    before,
                ).insert(checksum@).contains(key) by {
                    if key_set(after).contains(key) {
                        let i = choose|i: int| listed(after, i, key);
                        if i < before.len() {
                            assert(listed(before, i, key));
                        }
                    }
                    if key_set(before).contains(key) {
                        let i = choose|i: int| listed(before, i, key);
                        assert(listed(after, i, key));
                    }
                    if key == checksum@ {
                        assert(listed(after, before.len() as int, key));
                    }
                }
                assert(key_set(after) =~= key_set(before).insert(checksum@));
            }
            self.catalog = list;
            self.memory = memory;
            self.pinned = pinned;
            true
        }
    }

    /// Looks a module up: in the pinned tier, then in the memory tier, then
    /// in the durable store. The counter of the outcome goes up by one, and
    /// no other counter changes.
    pub fn get_module(&mut self, checksum: &Checksum) -> (r: Lookup<'_, M>)
        ensures
            final(self)@ == old(self)@.lookup(checksum@),
            final(self)@.wf(),
            final(self).spec_options() == old(self).spec_options(),
            match r {
                Lookup::Pinned(m) => {
                    &&& old(self)@.outcome(checksum@) == Outcome::PinnedHit
                    &&& *m == old(self)@.pinned[index_of(old(self)@.pinned, checksum@)].module
                },
                Lookup::Memory(m) => {
                    &&& old(self)@.outcome(checksum@) == Outcome::MemoryHit
                    &&& *m == old(self)@.memory[index_of(old(self)@.memory, checksum@)].module
                },
                Lookup::Load => old(self)@.outcome(checksum@) == Outcome::DurableHit,
                Lookup::NotFound => old(self)@.outcome(checksum@) == Outcome::Miss,
            },
    {
        proof {
            use_type_invariant(&*self);
            use_type_invariant(&self.pinned);
            use_type_invariant(&self.memory);
            self.pinned.lemma_inv();
            self.memory.lemma_inv();
            lemma_touch_keys(self.memory@, checksum@);
        }
        let mut stats = self.stats;
        if self.pinned.contains(checksum) {
            stats.count_pinned_hit();
            self.stats = stats;
            match self.pinned.get(checksum) {
                Some(m) => Lookup::Pinned(m),
                None => Lookup::NotFound,
            }
        } else if self.memory.contains(checksum) {
            let ghost before = self.memory@;
            let mut memory = MemoryTier::new(0);
            std::mem::swap(&mut memory, &mut self.memory);
            let _ = memory.touch(checksum);
            proof {
                assert forall|x: Seq<u8>| #[trigger] has_key(memory@, x) implies key_set(
                    self.catalog@,
                ).contains(x) by {
                    assert(has_key(before, x));
                }
            }
            self.memory = memory;
            stats.count_memory_hit();
            self.stats = stats;
            match self.memory.peek(checksum) {
                Some(m) => Lookup::Memory(m),
                None => Lookup::NotFound,
            }
        } else if list_has(&self.catalog, checksum) {
            stats.count_durable_hit();
            self.stats = stats;
            Lookup::Load
        } else {
            stats.count_miss();
            self.stats = stats;
            Lookup::NotFound
        }
    }

    /// Takes a module that was compiled from the durable store into the
    /// memory tier, and says whether it was taken: a module that the durable
    /// store does not hold is not.
    pub fn store_module(&mut self, checksum: Checksum, module: M, size: usize) -> (taken: bool)
        ensures
            final(self)@ == old(self)@.store(Slot { checksum, module, size }),
            final(self)@.wf(),
            final(self).spec_options() == old(self).spec_options(),
            taken == old(self)@.catalog.contains(checksum@),
    {
        proof {
            use_type_invariant(&*self);
            use_type_invariant(&self.pinned);
            use_type_invariant(&self.memory);
            self.pinned.lemma_inv();
            self.memory.lemma_inv();
            lemma_put_keys(self.memory@, Slot { checksum, module, size }, self.memory.budget());
        }
        if !list_has(&self.catalog, &checksum) {
            return false;
        }
        let ghost before = self.memory@;
        let ghost key = checksum@;
        let mut memory = MemoryTier::new(0);
        std::mem::swap(&mut memory, &mut self.memory);
        memory.insert(checksum, module, size);
        proof {
            assert forall|x: Seq<u8>| #[trigger] has_key(memory@, x) implies key_set(
                self.catalog@,
            ).contains(x) by {
                if x != key {
                    assert(has_key(before, x));
                }
            }
        }
        self.memory = memory;
        true
    }

    /// Starts the pinning of a module. Where the durable store holds it, the
    /// hit is counted, whether or not the memory tier holds a compiled copy:
    /// load it, compile it, and hand it in with `pin_module`.
    pub fn pin(&mut self, checksum: &Checksum) -> (r: Result<(), CacheError>)
        ensures
            final(self)@ == old(self)@.pin(checksum@),
            final(self)@.wf(),
            final(self).spec_options() == old(self).spec_options(),
            match r {
                Ok(_) => old(self)@.catalog.contains(checksum@),
                Err(e) => !old(self)@.catalog.contains(checksum@) && e == (CacheError::NotFound {
                    checksum: *checksum,
                }),
            },
    {
        proof {
            use_type_invariant(&*self);
            use_type_invariant(&self.pinned);
            use_type_invariant(&self.memory);
            self.pinned.lemma_inv();
            self.memory.lemma_inv();
        }
        if list_has(&self.catalog, checksum) {
            let mut stats = self.stats;
            stats.count_durable_hit();
            self.stats = stats;
            Ok(())
        } else {
            Err(CacheError::NotFound { checksum: *checksum })
        }
    }

    /// Takes a module that was compiled for pinning into the pinned tier,
    /// and says whether it was taken: a module that the durable store does
    /// not hold is not.
    pub fn pin_module(&mut self, checksum: Checksum, module: M, size: usize) -> (taken: bool)
        ensures
            final(self)@ == old(self)@.pin_module(Slot { checksum, module, size }),
            final(self)@.wf(),
            final(self).spec_options() == old(self).spec_options(),
            taken == old(self)@.catalog.contains(checksum@),
    {
        proof {
            use_type_invariant(&*self);
            use_type_invariant(&self.pinned);
            use_type_invariant(&self.memory);
            self.pinned.lemma_inv();
            self.memory.lemma_inv();
        }
        if !list_has(&self.catalog, &checksum) {
            return false;
        }
        let ghost before = self.pinned@;
        let ghost key = checksum@;
        let ghost slot = Slot { checksum, module, size };
        let mut pinned = PinnedTier::new();
        std::mem::swap(&mut pinned, &mut self.pinned);
        pinned.insert(checksum, module, size);
        proof {
            lemma_without_keys(before, key);
            lemma_push_keys(without(before, key), slot);
            assert forall|x: Seq<u8>| #[trigger] has_key(pinned@, x) implies key_set(
                self.catalog@,
            ).contains(x) by {
                if x != key {
                    assert(has_key(before, x));
                }
            }
        }
        self.pinned = pinned;
        true
    }

    /// Takes a module out of the pinned tier. The memory tier and the
    /// durable store stay as they are.
    pub fn unpin(&mut self, checksum: &Checksum) -> (was_pinned: bool)
        ensures
            final(self)@ == old(self)@.unpin(checksum@),
            final(self)@.wf(),
            final(self).spec_options() == old(self).spec_options(),
            was_pinned == has_key(old(self)@.pinned, checksum@),
    {
        proof {
            use_type_invariant(&*self);
            use_type_invariant(&self.pinned);
            use_type_invariant(&self.memory);
            self.pinned.lemma_inv();
            self.memory.lemma_inv();
        }
        let ghost before = self.pinned@;
        let mut pinned = PinnedTier::new();
        std::mem::swap(&mut pinned, &mut self.pinned);
        let was_pinned = pinned.remove(checksum);
        proof {
            lemma_without_keys(before, checksum@);
            assert forall|x: Seq<u8>| #[trigger] has_key(pinned@, x) implies key_set(
                self.catalog@,
            ).contains(x) by {
                if x != checksum@ {
                    assert(has_key(before, x));
                }
            }
        }
        self.pinned = pinned;
        was_pinned
    }
}

} // verus!
