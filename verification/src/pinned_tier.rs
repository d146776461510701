//! The pinned tier: compiled modules that stay until they are taken out.
//! Nothing is ever evicted from it.

use crate::checksum::Checksum;
use crate::slots::{
    distinct_keys, find_slot, has_key, index_of, lemma_push_keys, lemma_remove_keys, slot_at,
    without, Slot,
};
use vstd::prelude::*;

verus! {

/// The pinned tier.
pub struct PinnedTier<M> {
    entries: Vec<Slot<M>>,
}

impl<M> View for PinnedTier<M> {
    type V = Seq<Slot<M>>;

    /// The modules held, in the order in which they were pinned.
    closed spec fn view(&self) -> Seq<Slot<M>> {
        self.entries@
    }
}

impl<M> PinnedTier<M> {
    /// The tier is well formed: no checksum occurs twice.
    pub open spec fn wf(&self) -> bool {
        distinct_keys(self@)
    }

    #[verifier::type_invariant]
    pub(crate) closed spec fn inv(&self) -> bool {
        self.wf()
    }

    /// What always holds of a tier makes it well formed.
    pub(crate) proof fn lemma_inv(&self)
        requires
            self.inv(),
        ensures
            self.wf(),
    {
    }

    /// The empty tier.
    pub fn new() -> (t: PinnedTier<M>)
        ensures
            t.wf(),
            t@ == Seq::<Slot<M>>::empty(),
    {
        PinnedTier { entries: Vec::new() }
    }

    /// The number of modules held.
    pub fn len(&self) -> (n: usize)
        ensures
            n == self@.len(),
    {
        self.entries.len()
    }

    /// Whether a module is held under `checksum`.
    pub fn contains(&self, checksum: &Checksum) -> (r: bool)
        ensures
            r == has_key(self@, checksum@),
    {
        find_slot(&self.entries, checksum).is_some()
    }

    /// The module kept under `checksum`.
    pub fn get(&self, checksum: &Checksum) -> (r: Option<&M>)
        ensures
            self.wf(),
            match r {
                Some(m) => has_key(self@, checksum@) && *m == self@[index_of(
                    self@,
                    checksum@,
                )].module,
                None => !has_key(self@, checksum@),
            },
    {
        proof {
            use_type_invariant(self);
        }
        match find_slot(&self.entries, checksum) {
            None => None,
            Some(i) => {
                proof {
                    assert(slot_at(self@, i as int, checksum@));
                    assert(slot_at(self@, index_of(self@, checksum@), checksum@));
                }
                Some(&self.entries[i].module)
            },
        }
    }

    /// Adds `module` under `checksum`, or puts it in the place of the module
    /// kept there.
    pub fn insert(&mut self, checksum: Checksum, module: M, size: usize)
        ensures
            final(self).wf(),
            final(self)@ == without(old(self)@, checksum@).push(Slot { checksum, module, size }),
    {
        proof {
            use_type_invariant(&*self);
        }
        let ghost before = self.entries@;
        let found = find_slot(&self.entries, &checksum);
        let mut taken = PinnedTier::new();
        std::mem::swap(self, &mut taken);
        let PinnedTier { entries } = taken;
        let mut list = entries;
        match found {
            Some(i) => {
                proof {
                    assert(slot_at(before, i as int, checksum@));
                    assert(slot_at(before, index_of(before, checksum@), checksum@));
                    lemma_remove_keys(before, i as int);
                }
                let _ = list.remove(i);
            },
            None => {},
        }
        proof {
            lemma_push_keys(list@, Slot { checksum, module, size });
        }
        list.push(Slot { checksum, module, size });
        *self = PinnedTier { entries: list };
    }

    /// Takes out the module kept under `checksum`, where there is one.
    pub fn remove(&mut self, checksum: &Checksum) -> (r: bool)
        ensures
            final(self).wf(),
            final(self)@ == without(old(self)@, checksum@),
            r == has_key(old(self)@, checksum@),
    {
        proof {
            use_type_invariant(&*self);
        }
        let ghost before = self.entries@;
        match find_slot(&self.entries, checksum) {
            None => false,
            Some(i) => {
                proof {
                    assert(slot_at(before, i as int, checksum@));
                    assert(slot_at(before, index_of(before, checksum@), checksum@));
                    lemma_remove_keys(before, i as int);
                }
                let mut taken = PinnedTier::new();
                std::mem::swap(self, &mut taken);
                let PinnedTier { entries } = taken;
                let mut list = entries;
                let _ = list.remove(i);
                *self = PinnedTier { entries: list };
                true
            },
        }
    }
}

} // verus!
