//! The bounded pool of interpreter instances.
use vstd::prelude::*;

verus! {

/// Where an interpreter instance of a pool stands.
#[derive(Debug, Clone, Copy, PartialEq, Eq, Structural)]
pub enum VmSlot {
    /// Built and available.
    Free,
    /// Lent to an actor for one execution step.
    InUse,
    /// Being built, or rebuilt after it was lost.
    Creating,
}

/// How many slots of `s` stand in state `k`.
pub open spec fn count_slots(s: Seq<VmSlot>, k: VmSlot) -> nat
    decreases s.len(),
{
    if s.len() == 0 {
        0
    } else {
        count_slots(s.drop_last(), k) + if s.last() == k {
            1nat
        } else {
            0nat
        }
    }
}

/// Free, lent and in-construction instances together make up the capacity.
pub proof fn lemma_slots_partition(s: Seq<VmSlot>)
    ensures
        count_slots(s, VmSlot::Free) + count_slots(s, VmSlot::InUse) + count_slots(
            s,
            VmSlot::Creating,
        ) == s.len(),
    decreases s.len(),
{
    if s.len() > 0 {
        lemma_slots_partition(s.drop_last());
    }
}

/// No slot is free exactly when the count of free slots is zero.
pub proof fn lemma_no_free(s: Seq<VmSlot>)
    ensures
        (count_slots(s, VmSlot::Free) == 0) == !(exists|j: int| 0 <= j < s.len() && s[j] == VmSlot::Free),
    decreases s.len(),
{
    if s.len() > 0 {
        lemma_no_free(s.drop_last());
        if exists|j: int| 0 <= j < s.len() && s[j] == VmSlot::Free {
            let j = choose|j: int| 0 <= j < s.len() && s[j] == VmSlot::Free;
            if j < s.len() - 1 {
                assert(s.drop_last()[j] == VmSlot::Free);
            }
        }
        if exists|j: int| 0 <= j < s.len() - 1 && s.drop_last()[j] == VmSlot::Free {
            let j = choose|j: int| 0 <= j < s.len() - 1 && s.drop_last()[j] == VmSlot::Free;
            assert(s[j] == VmSlot::Free);
        }
    }
}

/// Changing one slot from `a` to `b` moves one unit of count from `a` to `b`.
pub proof fn lemma_count_update(s: Seq<VmSlot>, i: int, b: VmSlot, k: VmSlot)
    requires
        0 <= i < s.len(),
    ensures
        count_slots(s.update(i, b), k) + (if s[i] == k {
            1int
        } else {
            0int
        }) == count_slots(s, k) + (if b == k {
            1int
        } else {
            0int
        }),
    decreases s.len(),
{
    let t = s.update(i, b);
    if i == s.len() - 1 {
        assert(t.drop_last() =~= s.drop_last());
    } else {
        assert(t.drop_last() =~= s.drop_last().update(i, b));
        lemma_count_update(s.drop_last(), i, b, k);
    }
}

/// The state of a pool: where each instance stands, and the instances whose
/// construction the runtime has yet to start.
pub ghost struct VmPoolView {
    pub slots: Seq<VmSlot>,
    pub requests: Seq<usize>,
}

impl VmPoolView {
    pub open spec fn wf(self) -> bool {
        forall|j: int| 0 <= j < self.requests.len() ==> #[trigger] self.requests[j] < self.slots.len()
    }

    pub open spec fn has_free(self) -> bool {
        exists|j: int| 0 <= j < self.slots.len() && self.slots[j] == VmSlot::Free
    }
}

/// A fixed-capacity pool of interpreter instances, each named by its index.
///
/// The instances themselves live with the runtime that embeds the plumber;
/// the pool records where each one stands and which ones the runtime has to
/// build. A failed build is asked for again, so no slot is ever lost.
pub struct VmPool {
    slots: Vec<VmSlot>,
    requests: Vec<usize>,
}

impl VmPool {
    /// Where each instance stands, by index.
    pub closed spec fn slots(&self) -> Seq<VmSlot> {
        self.slots@
    }

    /// Instances whose construction the runtime has yet to start.
    pub closed spec fn requests(&self) -> Seq<usize> {
        self.requests@
    }

    /// Every instance asked for is one of the pool's.
    pub closed spec fn wf(&self) -> bool {
        forall|j: int| 0 <= j < self.requests@.len() ==> #[trigger] self.requests@[j] < self.slots@.len()
    }

    pub open spec fn view(&self) -> VmPoolView {
        VmPoolView { slots: self.slots(), requests: self.requests() }
    }

    pub open spec fn has_free(&self) -> bool {
        self.view().has_free()
    }

    /// A pool of `capacity` instances, all of them still to be built.
    pub fn new(capacity: usize) -> (r: VmPool)
        ensures
            r.wf(),
            r.slots().len() == capacity,
            forall|j: int| 0 <= j < capacity ==> r.slots()[j] == VmSlot::Creating,
            r.requests().len() == capacity,
            forall|j: int| 0 <= j < capacity ==> r.requests()[j] == j,
    {
        let mut slots: Vec<VmSlot> = Vec::new();
        let mut requests: Vec<usize> = Vec::new();
        let mut i: usize = 0;
        while i < capacity
            invariant
                i <= capacity,
                slots@.len() == i,
                requests@.len() == i,
                forall|j: int| 0 <= j < i ==> slots@[j] == VmSlot::Creating,
                forall|j: int| 0 <= j < i ==> requests@[j] == j,
            decreases capacity - i,
        {
            slots.push(VmSlot::Creating);
            requests.push(i);
            i = i + 1;
        }
        VmPool { slots, requests }
    }

    /// The number of instances of the pool, whatever they stand in.
    pub fn capacity(&self) -> (r: usize)
        ensures
            r == self.slots().len(),
    {
        self.slots.len()
    }

    /// The number of instances available right now.
    pub fn free_vms(&self) -> (r: usize)
        ensures
            r == count_slots(self.slots(), VmSlot::Free),
    {
        let mut n: usize = 0;
        let mut i: usize = 0;
        while i < self.slots.len()
            invariant
                i <= self.slots@.len(),
                n == count_slots(self.slots@.take(i as int), VmSlot::Free),
                n <= i,
            decreases self.slots@.len() - i,
        {
            assert(self.slots@.take(i + 1).drop_last() =~= self.slots@.take(i as int));
            if self.slots[i] == VmSlot::Free {
                n = n + 1;
            }
            i = i + 1;
        }
        assert(self.slots@.take(i as int) =~= self.slots@);
        n
    }

    /// Where instance `vm_id` stands, if the pool has it.
    pub fn slot(&self, vm_id: usize) -> (r: Option<VmSlot>)
        ensures
            vm_id < self.slots().len() ==> r == Some(self.slots()[vm_id as int]),
            vm_id >= self.slots().len() ==> r.is_none(),
    {
        if vm_id < self.slots.len() {
            Some(self.slots[vm_id])
        } else {
            None
        }
    }

    /// Lends the first free instance, if there is one.
    pub fn get_vm(&mut self) -> (r: Option<usize>)
        requires
            old(self).wf(),
        ensures
            final(self).wf(),
            final(self).requests() == old(self).requests(),
            match r {
                Some(i) => i < old(self).slots().len() && old(self).slots()[i as int]
                    == VmSlot::Free && final(self).slots() == old(self).slots().update(
                    i as int,
                    VmSlot::InUse,
                ),
                None => !old(self).has_free() && final(self).slots() == old(self).slots(),
            },
    {
        let mut i: usize = 0;
        while i < self.slots.len()
            invariant
                i <= self.slots@.len(),
                self.slots@ == old(self).slots@,
                self.requests@ == old(self).requests@,
                old(self).wf(),
                forall|j: int| 0 <= j < i ==> self.slots@[j] != VmSlot::Free,
            decreases self.slots@.len() - i,
        {
            if self.slots[i] == VmSlot::Free {
                self.slots.set(i, VmSlot::InUse);
                return Some(i);
            }
            i = i + 1;
        }
        None
    }

    /// Takes back a lent instance. Anything else is left as it is and
    /// reported by returning `false`.
    pub fn put_vm(&mut self, vm_id: usize) -> (r: bool)
        requires
            old(self).wf(),
        ensures
            final(self).wf(),
            final(self).requests() == old(self).requests(),
            r == (vm_id < old(self).slots().len() && old(self).slots()[vm_id as int]
                == VmSlot::InUse),
            r ==> final(self).slots() == old(self).slots().update(vm_id as int, VmSlot::Free),
            !r ==> final(self).slots() == old(self).slots(),
    {
        if vm_id < self.slots.len() && self.slots[vm_id] == VmSlot::InUse {
            self.slots.set(vm_id, VmSlot::Free);
            true
        } else {
            false
        }
    }

    /// Asks for a lent instance that was lost to be built anew.
    pub fn recreate_avm(&mut self, vm_id: usize) -> (r: bool)
        requires
            old(self).wf(),
        ensures
            final(self).wf(),
            r == (vm_id < old(self).slots().len() && old(self).slots()[vm_id as int]
                == VmSlot::InUse),
            r ==> final(self).slots() == old(self).slots().update(vm_id as int, VmSlot::Creating)
                && final(self).requests() == old(self).requests().push(vm_id),
            !r ==> final(self).view() == old(self).view(),
    {
        if vm_id < self.slots.len() && self.slots[vm_id] == VmSlot::InUse {
            self.slots.set(vm_id, VmSlot::Creating);
            self.requests.push(vm_id);
            true
        } else {
            false
        }
    }

    /// Records that instance `vm_id` was built and is available.
    pub fn vm_created(&mut self, vm_id: usize) -> (r: bool)
        requires
            old(self).wf(),
        ensures
            final(self).wf(),
            final(self).requests() == old(self).requests(),
            r == (vm_id < old(self).slots().len() && old(self).slots()[vm_id as int]
                == VmSlot::Creating),
            r ==> final(self).slots() == old(self).slots().update(vm_id as int, VmSlot::Free),
            !r ==> final(self).slots() == old(self).slots(),
    {
        if vm_id < self.slots.len() && self.slots[vm_id] == VmSlot::Creating {
            self.slots.set(vm_id, VmSlot::Free);
            true
        } else {
            false
        }
    }

    /// Records that building instance `vm_id` failed: it is asked for again.
    pub fn vm_creation_failed(&mut self, vm_id: usize) -> (r: bool)
        requires
            old(self).wf(),
        ensures
            final(self).wf(),
            final(self).slots() == old(self).slots(),
            r == (vm_id < old(self).slots().len() && old(self).slots()[vm_id as int]
                == VmSlot::Creating),
            r ==> final(self).requests() == old(self).requests().push(vm_id),
            !r ==> final(self).requests() == old(self).requests(),
    {
        if vm_id < self.slots.len() && self.slots[vm_id] == VmSlot::Creating {
            self.requests.push(vm_id);
            true
        } else {
            false
        }
    }

    /// Hands out the instances to build, oldest request first, and forgets them.
    pub fn take_requests(&mut self) -> (r: Vec<usize>)
        requires
            old(self).wf(),
        ensures
            final(self).wf(),
            final(self).slots() == old(self).slots(),
            r@ == old(self).requests(),
            final(self).requests().len() == 0,
    {
        let mut taken: Vec<usize> = Vec::new();
        std::mem::swap(&mut taken, &mut self.requests);
        taken
    }
}

} // verus!
