//! A fixed set of numbered slots with a stack of the free ones.

use vstd::prelude::*;

verus! {

/// Slots `0..capacity`, each either free or taken. The free ones are kept on
/// a stack, so taking and giving back cost constant time.
pub struct SlotPool {
    taken: Vec<bool>,
    free: Vec<u32>,
}

impl SlotPool {
    /// The number of slots.
    pub closed spec fn capacity(&self) -> nat {
        self.taken@.len()
    }

    /// The free slots; the last one is the next to be taken.
    pub closed spec fn free_stack(&self) -> Seq<u32> {
        self.free@
    }

    /// Whether `slot` exists and is taken.
    pub open spec fn is_taken(&self, slot: u32) -> bool {
        slot < self.capacity() && !self.free_stack().contains(slot)
    }

    /// Every free slot exists and is on the stack once.
    pub closed spec fn wf(&self) -> bool {
        &&& self.taken@.len() <= u32::MAX
        &&& self.free@.no_duplicates()
        &&& forall|i: int| 0 <= i < self.free@.len() ==> (#[trigger] self.free@[i]) < self.taken@.len()
        &&& forall|s: int|
            0 <= s < self.taken@.len() ==> (#[trigger] self.taken@[s] <==> !self.free@.contains(
                s as u32,
            ))
    }

    /// What the invariant says of the free stack: every slot on it exists,
    /// none is there twice, and so it is no longer than the pool.
    pub proof fn lemma_free_stack_bounds(&self)
        requires
            self.wf(),
        ensures
            self.capacity() <= u32::MAX,
            self.free_stack().no_duplicates(),
            self.free_stack().len() <= self.capacity(),
            forall|i: int|
                0 <= i < self.free_stack().len() ==> (#[trigger] self.free_stack()[i])
                    < self.capacity(),
    {
        let bound = self.taken@.len() as int;
        let ints = self.free@.map_values(|s: u32| s as int);
        assert(ints.no_duplicates());
        ints.unique_seq_to_set();
        vstd::set_lib::lemma_int_range(0, bound);
        assert(ints.to_set().subset_of(vstd::set_lib::set_int_range(0, bound))) by {
            assert forall|v: int| ints.to_set().contains(v) implies vstd::set_lib::set_int_range(
                0,
                bound,
            ).contains(v) by {
                let i = choose|i: int| 0 <= i < ints.len() && ints[i] == v;
                assert(self.free@[i] < bound);
            }
        }
        vstd::set_lib::lemma_len_subset(ints.to_set(), vstd::set_lib::set_int_range(0, bound));
    }

    /// A pool of `count` slots, all free; they are taken in increasing order.
    pub fn new(count: u32) -> (pool: Self)
        ensures
            pool.wf(),
            pool.capacity() == count,
            pool.free_stack().len() == count,
            forall|i: int| 0 <= i < count ==> pool.free_stack()[i] == count - 1 - i,
    {
        let mut taken: Vec<bool> = Vec::new();
        let mut free: Vec<u32> = Vec::new();
        let mut i: u32 = 0;
        while i < count
            invariant
                i <= count,
                taken@.len() == i,
                free@.len() == i,
                forall|k: int| 0 <= k < i ==> !taken@[k],
                forall|k: int| 0 <= k < i ==> free@[k] == count - 1 - k,
            decreases count - i,
        {
            taken.push(false);
            free.push(count - 1 - i);
            i = i + 1;
        }
        let pool = SlotPool { taken, free };
        proof {
            assert forall|s: int| 0 <= s < pool.taken@.len() implies (#[trigger] pool.taken@[s]
                <==> !pool.free@.contains(s as u32)) by {
                assert(pool.free@[count - 1 - s] == s as u32);
            }
        }
        pool
    }

    /// Takes the slot on top of the stack, if any slot is free.
    pub fn take(&mut self) -> (slot: Option<u32>)
        requires
            old(self).wf(),
        ensures
            final(self).wf(),
            final(self).capacity() == old(self).capacity(),
            old(self).free_stack().len() == 0 ==> slot is None && final(self).free_stack() == old(
                self,
            ).free_stack(),
            old(self).free_stack().len() > 0 ==> slot == Some(old(self).free_stack().last())
                && final(self).free_stack() == old(self).free_stack().drop_last()
                && slot->Some_0 < old(self).capacity(),
    {
        match self.free.pop() {
            None => None,
            Some(s) => {
                proof {
                    let before = old(self).free@;
                    assert(before[before.len() - 1] == s);
                    assert(s < self.taken@.len());
                }
                self.taken.set(s as usize, true);
                proof {
                    let before = old(self).free@;
                    let after = self.free@;
                    assert(after =~= before.drop_last());
                    assert(!after.contains(s)) by {
                        if after.contains(s) {
                            let j = choose|j: int| 0 <= j < after.len() && after[j] == s;
                            assert(before[j] == s);
                        }
                    }
                    assert forall|t: int| 0 <= t < self.taken@.len() implies (
                    #[trigger] self.taken@[t] <==> !after.contains(t as u32)) by {
                        if t != s {
                            assert(self.taken@[t] == old(self).taken@[t]);
                            if before.contains(t as u32) {
                                let j = choose|j: int| 0 <= j < before.len() && before[j] == t as u32;
                                assert(after[j] == t as u32);
                            }
                            if after.contains(t as u32) {
                                let j = choose|j: int| 0 <= j < after.len() && after[j] == t as u32;
                                assert(before[j] == t as u32);
                            }
                        }
                    }
                }
                Some(s)
            },
        }
    }

    /// Puts a taken slot back on the stack. A slot that does not exist or is
    /// already free is left alone.
    pub fn give_back(&mut self, slot: u32) -> (done: bool)
        requires
            old(self).wf(),
        ensures
            final(self).wf(),
            final(self).capacity() == old(self).capacity(),
            done == old(self).is_taken(slot),
            done ==> final(self).free_stack() == old(self).free_stack().push(slot),
            !done ==> final(self).free_stack() == old(self).free_stack(),
    {
        if (slot as usize) < self.taken.len() && self.taken[slot as usize] {
            proof {
                self.lemma_free_stack_bounds();
            }
            self.taken.set(slot as usize, false);
            self.free.push(slot);
            proof {
                let before = old(self).free@;
                let after = self.free@;
                assert(after[after.len() - 1] == slot);
                assert forall|t: int| 0 <= t < self.taken@.len() implies (
                #[trigger] self.taken@[t] <==> !after.contains(t as u32)) by {
                    if t != slot {
                        if before.contains(t as u32) {
                            let j = choose|j: int| 0 <= j < before.len() && before[j] == t as u32;
                            assert(after[j] == t as u32);
                        }
                        if after.contains(t as u32) {
                            let j = choose|j: int| 0 <= j < after.len() && after[j] == t as u32;
                            assert(before[j] == t as u32);
                        }
                    }
                }
            }
            true
        } else {
            false
        }
    }

    /// Whether `slot` exists and is taken.
    pub fn check_taken(&self, slot: u32) -> (taken: bool)
        requires
            self.wf(),
        ensures
            taken == self.is_taken(slot),
    {
        (slot as usize) < self.taken.len() && self.taken[slot as usize]
    }

    /// The number of free slots.
    pub fn free_count(&self) -> (count: usize)
        ensures
            count == self.free_stack().len(),
    {
        self.free.len()
    }
}

} // verus!
