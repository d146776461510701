//! The bounded memory tier: compiled modules in order of last use, kept
//! within a budget of bytes by evicting the least recently used.

use crate::checksum::Checksum;
use crate::slots::{
    distinct_keys, find_slot, has_key, index_of, lemma_push_keys, lemma_remove_keys,
    lemma_total_push, lemma_total_remove, lemma_without_keys, slot_at, total_size, without, Slot,
};
use vstd::prelude::*;

verus! {

/// `s` after a use of the module kept under `key`: that module is now the
/// most recently used, which is the last position.
pub open spec fn touch<M>(s: Seq<Slot<M>>, key: Seq<u8>) -> Seq<Slot<M>> {
    if has_key(s, key) {
        s.remove(index_of(s, key)).push(s[index_of(s, key)])
    } else {
        s
    }
}

/// `s` after evicting the least recently used modules, one at a time from
/// the first position, until the total size is within `budget`.
pub open spec fn fit<M>(s: Seq<Slot<M>>, budget: nat) -> Seq<Slot<M>>
    decreases s.len(),
{
    if s.len() == 0 || total_size(s) <= budget {
        s
    } else {
        fit(s.drop_first(), budget)
    }
}

/// `s` after `slot` was added or, where its checksum was there already,
/// refreshed: it is the most recently used, and the least recently used
/// modules were evicted until the total size is within `budget`.
pub open spec fn put<M>(s: Seq<Slot<M>>, slot: Slot<M>, budget: nat) -> Seq<Slot<M>> {
    fit(without(s, slot.checksum@).push(slot), budget)
}

/// A module larger than the budget evicts everything, itself included.
pub proof fn lemma_fit_oversize<M>(s: Seq<Slot<M>>, slot: Slot<M>, budget: nat)
    requires
        slot.size > budget,
    ensures
        fit(s.push(slot), budget) == Seq::<Slot<M>>::empty(),
    decreases s.len(),
{
    lemma_total_push(s, slot);
    let t = s.push(slot);
    assert(fit(t, budget) == fit(t.drop_first(), budget));
    if s.len() == 0 {
        assert(t.drop_first() =~= Seq::<Slot<M>>::empty());
        assert(fit(Seq::<Slot<M>>::empty(), budget) == Seq::<Slot<M>>::empty());
    } else {
        assert(t.drop_first() =~= s.drop_first().push(slot));
        lemma_fit_oversize(s.drop_first(), slot, budget);
    }
}

/// What eviction leaves is within the budget, and it is an end piece of the
/// list.
pub proof fn lemma_fit_bounded<M>(s: Seq<Slot<M>>, budget: nat)
    ensures
        total_size(fit(s, budget)) <= budget,
        fit(s, budget).len() <= s.len(),
        fit(s, budget) == s.skip(s.len() - fit(s, budget).len()),
    decreases s.len(),
{
    if s.len() == 0 || total_size(s) <= budget {
        assert(s.skip(0) =~= s);
    } else {
        lemma_fit_bounded(s.drop_first(), budget);
        let r = fit(s.drop_first(), budget);
        assert(s.drop_first().skip(s.drop_first().len() - r.len()) =~= s.skip(s.len() - r.len()));
    }
}

/// A use of a module changes the order alone: the same checksums are held.
pub proof fn lemma_touch_keys<M>(s: Seq<Slot<M>>, key: Seq<u8>)
    requires
        distinct_keys(s),
    ensures
        distinct_keys(touch(s, key)),
        total_size(touch(s, key)) == total_size(s),
        forall|x: Seq<u8>| has_key(touch(s, key), x) <==> has_key(s, x),
        has_key(s, key) ==> touch(s, key)[index_of(touch(s, key), key)] == s[index_of(s, key)],
{
    if has_key(s, key) {
        let i = index_of(s, key);
        assert(slot_at(s, i, key));
        lemma_remove_keys(s, i);
        lemma_total_remove(s, i);
        lemma_push_keys(s.remove(i), s[i]);
        lemma_total_push(s.remove(i), s[i]);
        let t = touch(s, key);
        assert(slot_at(t, t.len() - 1, key));
        assert(slot_at(t, index_of(t, key), key));
    }
}

/// What stays after eviction was there before.
pub proof fn lemma_fit_keys<M>(s: Seq<Slot<M>>, budget: nat)
    requires
        distinct_keys(s),
    ensures
        distinct_keys(fit(s, budget)),
        forall|x: Seq<u8>| has_key(fit(s, budget), x) ==> has_key(s, x),
{
    lemma_fit_bounded(s, budget);
    let r = fit(s, budget);
    let n = s.len() - r.len();
    assert forall|i: int, x: Seq<u8>| #[trigger] slot_at(r, i, x) implies slot_at(s, i + n, x) by {}
    assert forall|a: int, b: int, x: Seq<u8>| #[trigger]
        slot_at(r, a, x) && #[trigger] slot_at(r, b, x) implies a == b by {
        assert(slot_at(s, a + n, x) && slot_at(s, b + n, x));
    }
    assert forall|x: Seq<u8>| has_key(r, x) implies has_key(s, x) by {
        let i = index_of(r, x);
        assert(slot_at(s, i + n, x));
    }
}

/// After a module was added, the tier is within its budget and holds no
/// checksum that it did not hold before, but for that of the module.
pub proof fn lemma_put_keys<M>(s: Seq<Slot<M>>, slot: Slot<M>, budget: nat)
    requires
        distinct_keys(s),
    ensures
        distinct_keys(put(s, slot, budget)),
        total_size(put(s, slot, budget)) <= budget,
        forall|x: Seq<u8>|
            has_key(put(s, slot, budget), x) ==> x == slot.checksum@ || has_key(s, x),
{
    let key = slot.checksum@;
    lemma_without_keys(s, key);
    let base = without(s, key);
    lemma_push_keys(base, slot);
    lemma_fit_keys(base.push(slot), budget);
    lemma_fit_bounded(base.push(slot), budget);
}

/// The bounded memory tier.
pub struct MemoryTier<M> {
    entries: Vec<Slot<M>>,
    budget: usize,
    used: usize,
}

impl<M> View for MemoryTier<M> {
    type V = Seq<Slot<M>>;

    /// The modules held, the least recently used first.
    closed spec fn view(&self) -> Seq<Slot<M>> {
        self.entries@
    }
}

impl<M> MemoryTier<M> {
    /// The budget of bytes that the tier was made with.
    pub closed spec fn budget(&self) -> nat {
        self.budget as nat
    }

    /// The tier is well formed: no checksum occurs twice, and the total size
    /// is within the budget.
    pub open spec fn wf(&self) -> bool {
        &&& distinct_keys(self@)
        &&& total_size(self@) <= self.budget()
    }

    #[verifier::type_invariant]
    pub(crate) closed spec fn inv(&self) -> bool {
        &&& self.wf()
        &&& self.used == total_size(self.entries@)
    }

    /// What always holds of a tier makes it well formed.
    pub(crate) proof fn lemma_inv(&self)
        requires
            self.inv(),
        ensures
            self.wf(),
    {
    }

    /// The empty tier with a budget of `budget` bytes.
    pub fn new(budget: usize) -> (t: MemoryTier<M>)
        ensures
            t.wf(),
            t@ == Seq::<Slot<M>>::empty(),
            t.budget() == budget,
    {
        MemoryTier { entries: Vec::new(), budget, used: 0 }
    }

    /// The number of modules held.
    pub fn len(&self) -> (n: usize)
        ensures
            n == self@.len(),
    {
        self.entries.len()
    }

    /// The total size of the modules held, in bytes.
    pub fn size(&self) -> (n: usize)
        ensures
            self.wf(),
            n == total_size(self@),
            n <= self.budget(),
    {
        proof {
            use_type_invariant(self);
        }
        self.used
    }

    /// Whether a module is held under `checksum`. This is no use of the
    /// module.
    pub fn contains(&self, checksum: &Checksum) -> (r: bool)
        ensures
            r == has_key(self@, checksum@),
    {
        find_slot(&self.entries, checksum).is_some()
    }

    /// Adds `module` under `checksum`, or puts it in the place of the module
    /// kept there. It becomes the most recently used. Then the least
    /// recently used modules are evicted, one at a time, until the total size
    /// is within the budget; a module larger than the budget does not stay.
    pub fn insert(&mut self, checksum: Checksum, module: M, size: usize)
        ensures
            final(self).wf(),
            final(self).budget() == old(self).budget(),
            final(self)@ == put(old(self)@, Slot { checksum, module, size }, old(self).budget()),
    {
        proof {
            use_type_invariant(&*self);
        }
        let ghost before = self.entries@;
        let ghost slot = Slot { checksum, module, size };
        let ghost base = without(before, checksum@);
        let found = find_slot(&self.entries, &checksum);
        let mut taken = MemoryTier::new(self.budget);
        std::mem::swap(self, &mut taken);
        let MemoryTier { entries, budget, used } = taken;
        let mut list = entries;
        let mut used = used;
        match found {
            Some(i) => {
                proof {
                    assert(slot_at(before, i as int, checksum@));
                    let j = index_of(before, checksum@);
                    assert(slot_at(before, j, checksum@));
                    lemma_remove_keys(before, i as int);
                    lemma_total_remove(before, i as int);
                }
                let gone = list.remove(i);
                used = used - gone.size;
            },
            None => {},
        }
        assert(list@ == base);
        assert(distinct_keys(base) && !has_key(base, checksum@));
        if size > budget {
            proof {
                lemma_fit_oversize(base, slot, budget as nat);
            }
            *self = MemoryTier { entries: Vec::new(), budget, used: 0 };
            return ;
        }
        while used > budget - size
            invariant
                size <= budget,
                used == total_size(list@),
                distinct_keys(list@),
                !has_key(list@, checksum@),
                slot == (Slot { checksum, module, size }),
                fit(base.push(slot), budget as nat) == fit(list@.push(slot), budget as nat),
            decreases list@.len(),
        {
            proof {
                let now = list@;
                if now.len() == 0 {
                    assert(total_size(now) == 0);
                }
                lemma_total_push(now, slot);
                lemma_remove_keys(now, 0);
                lemma_total_remove(now, 0);
                assert(now.remove(0) =~= now.drop_first());
                assert(now.push(slot).drop_first() =~= now.drop_first().push(slot));
            }
            let gone = list.remove(0);
            used = used - gone.size;
        }
        proof {
            lemma_total_push(list@, slot);
            lemma_push_keys(list@, slot);
        }
        list.push(Slot { checksum, module, size });
        used = used + size;
        *self = MemoryTier { entries: list, budget, used };
    }

    /// Takes out the module kept under `checksum`, where there is one.
    pub fn remove(&mut self, checksum: &Checksum) -> (r: bool)
        ensures
            final(self).wf(),
            final(self).budget() == old(self).budget(),
            final(self)@ == without(old(self)@, checksum@),
            r == has_key(old(self)@, checksum@),
    {
        proof {
            use_type_invariant(&*self);
        }
        let ghost before = self.entries@;
        match find_slot(&self.entries, checksum) {
            None => false,
            Some(i) => {
                proof {
                    assert(slot_at(before, i as int, checksum@));
                    assert(slot_at(before, index_of(before, checksum@), checksum@));
                    lemma_remove_keys(before, i as int);
                    lemma_total_remove(before, i as int);
                }
                let mut taken = MemoryTier::new(self.budget);
                std::mem::swap(self, &mut taken);
                let MemoryTier { entries, budget, used } = taken;
                let mut list = entries;
                let gone = list.remove(i);
                *self = MemoryTier { entries: list, budget, used: used - gone.size };
                true
            },
        }
    }

    /// The module kept under `checksum`. This is no use of the module.
    pub fn peek(&self, checksum: &Checksum) -> (r: Option<&M>)
        ensures
            self.wf(),
            match r {
                Some(m) => has_key(self@, checksum@) && *m == self@[index_of(
                    self@,
                    checksum@,
                )].module,
                None => !has_key(self@, checksum@),
            },
    {
        proof {
            use_type_invariant(self);
        }
        match find_slot(&self.entries, checksum) {
            None => None,
            Some(i) => {
                proof {
                    assert(slot_at(self@, i as int, checksum@));
                    assert(slot_at(self@, index_of(self@, checksum@), checksum@));
                }
                Some(&self.entries[i].module)
            },
        }
    }

    /// Marks the module kept under `checksum` as the most recently used, and
    /// says whether there is one.
    pub fn touch(&mut self, checksum: &Checksum) -> (r: bool)
        ensures
            final(self).wf(),
            final(self).budget() == old(self).budget(),
            final(self)@ == touch(old(self)@, checksum@),
            r == has_key(old(self)@, checksum@),
    {
        self.get(checksum).is_some()
    }

    /// The module kept under `checksum`, which becomes the most recently
    /// used.
    pub fn get(&mut self, checksum: &Checksum) -> (r: Option<&M>)
        ensures
            final(self).wf(),
            final(self).budget() == old(self).budget(),
            final(self)@ == touch(old(self)@, checksum@),
            match r {
                Some(m) => has_key(old(self)@, checksum@) && *m == old(self)@[index_of(
                    old(self)@,
                    checksum@,
                )].module,
                None => !has_key(old(self)@, checksum@),
            },
    {
        proof {
            use_type_invariant(&*self);
        }
        match find_slot(&self.entries, checksum) {
            None => None,
            Some(i) => {
                let ghost before = self.entries@;
                proof {
                    assert(slot_at(before, i as int, checksum@));
                    assert(slot_at(before, index_of(before, checksum@), checksum@));
                    lemma_remove_keys(before, i as int);
                    lemma_total_remove(before, i as int);
                    lemma_push_keys(before.remove(i as int), before[i as int]);
                    lemma_total_push(before.remove(i as int), before[i as int]);
                }
                let mut taken = MemoryTier::new(self.budget);
                std::mem::swap(self, &mut taken);
                let MemoryTier { entries, budget, used } = taken;
                let mut list = entries;
                let slot = list.remove(i);
                list.push(slot);
                *self = MemoryTier { entries: list, budget, used };
                let last = self.entries.len() - 1;
                Some(&self.entries[last].module)
            },
        }
    }
}

} // verus!
