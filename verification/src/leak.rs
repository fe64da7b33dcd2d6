//! Leak tracking: every allocation is tracked under a monotonically
//! increasing id; an allocation never matched by a deallocation by query
//! time is a leak.

use vstd::prelude::*;

verus! {

/// One tracked allocation: its size in bytes and its id.
#[derive(Clone, Copy, Debug, PartialEq, Eq, Structural)]
pub struct AllocationInfo {
    pub size: usize,
    pub id: usize,
}

/// The bytes of all entries of a ledger: the sum of the sizes.
pub open spec fn leak_sum(s: Seq<(nat, nat)>) -> int
    decreases s.len(),
{
    if s.len() == 0 {
        0
    } else {
        leak_sum(s.drop_last()) + s.last().1
    }
}

/// Every prefix of a ledger accounts for at most the whole ledger's bytes.
pub proof fn lemma_leak_sum_prefix_le(s: Seq<(nat, nat)>, i: int)
    requires
        0 <= i <= s.len(),
    ensures
        leak_sum(s.take(i)) <= leak_sum(s),
    decreases s.len() - i,
{
    if i == s.len() {
        assert(s.take(i) =~= s);
    } else {
        assert(s.take(i + 1).drop_last() =~= s.take(i));
        lemma_leak_sum_prefix_le(s, i + 1);
    }
}

/// Removing one entry removes exactly its size from the sum.
pub proof fn lemma_leak_sum_remove(s: Seq<(nat, nat)>, j: int)
    requires
        0 <= j < s.len(),
    ensures
        leak_sum(s.remove(j)) == leak_sum(s) - s[j].1,
    decreases s.len(),
{
    if j == s.len() - 1 {
        assert(s.remove(j) =~= s.drop_last());
    } else {
        assert(s.remove(j).drop_last() =~= s.drop_last().remove(j));
        assert(s.remove(j).last() == s.last());
        lemma_leak_sum_remove(s.drop_last(), j);
    }
}

/// Mathematical model of the ledger: the outstanding (id, size) entries in
/// tracking order, and the next id.
#[verifier::ext_equal]
pub ghost struct LeakView {
    pub active: Seq<(nat, nat)>,
    pub counter: nat,
}

impl LeakView {
    /// Ids are distinct and below the counter.
    pub open spec fn wf(self) -> bool {
        &&& forall|i: int, j: int| 0 <= i < j < self.active.len()
                ==> (#[trigger] self.active[i]).0 != (#[trigger] self.active[j]).0
        &&& forall|i: int| 0 <= i < self.active.len()
                ==> (#[trigger] self.active[i]).0 < self.counter
    }

    /// Whether an outstanding entry carries the given id.
    pub open spec fn contains_id(self, id: nat) -> bool {
        exists|j: int| 0 <= j < self.active.len() && (#[trigger] self.active[j]).0 == id
    }

    /// Tracking appends a fresh entry under the next id.
    pub open spec fn after_track(self, size: nat) -> LeakView {
        LeakView { active: self.active.push((self.counter, size)), counter: self.counter + 1 }
    }

    /// A matching deallocation removes the entry with the id; an unknown id
    /// changes nothing.
    pub open spec fn after_untrack(self, id: nat) -> LeakView {
        if self.contains_id(id) {
            let j = choose|j: int| 0 <= j < self.active.len() && (#[trigger] self.active[j]).0 == id;
            LeakView { active: self.active.remove(j), ..self }
        } else {
            self
        }
    }
}

/// Tracking two allocations adds both sizes to the leaked bytes; a matching
/// deallocation of the first removes exactly its size and leaves one entry
/// fewer outstanding.
pub proof fn lemma_leak_accounting(v: LeakView, a: nat, b: nat)
    requires
        v.wf(),
    ensures
        leak_sum(v.after_track(a).after_track(b).active) == leak_sum(v.active) + a + b,
        v.after_track(a).after_track(b).after_untrack(v.counter).active.len()
            == v.active.len() + 1,
        leak_sum(v.after_track(a).after_track(b).after_untrack(v.counter).active)
            == leak_sum(v.active) + b,
{
    let v1 = v.after_track(a);
    let v2 = v1.after_track(b);
    assert(v2.active.drop_last() =~= v1.active);
    assert(v1.active.drop_last() =~= v.active);
    assert(leak_sum(v1.active) == leak_sum(v1.active.drop_last()) + v1.active.last().1);
    assert(v1.active.last().1 == a);
    assert(leak_sum(v2.active) == leak_sum(v2.active.drop_last()) + v2.active.last().1);
    assert(v2.active.last().1 == b);
    let n = v.active.len() as int;
    assert(v2.active[n].0 == v.counter);
    assert(v2.contains_id(v.counter));
    let j = choose|j: int| 0 <= j < v2.active.len() && (#[trigger] v2.active[j]).0 == v.counter;
    assert(forall|i: int| 0 <= i < n ==> (#[trigger] v2.active[i]).0 != v.counter);
    assert(v2.active[n + 1].0 == v.counter + 1);
    assert(j == n);
    lemma_leak_sum_remove(v2.active, n);
    assert(v2.active[n].1 == a);
}

/// Ledger of outstanding allocations keyed by a monotonically increasing id.
pub struct MemoryLeakDetector {
    pub active_allocations: Vec<AllocationInfo>,
    pub allocation_counter: usize,
}

impl View for MemoryLeakDetector {
    type V = LeakView;

    open spec fn view(&self) -> LeakView {
        LeakView {
            active: Seq::new(
                self.active_allocations@.len(),
                |i: int| (self.active_allocations@[i].id as nat, self.active_allocations@[i].size as nat),
            ),
            counter: self.allocation_counter as nat,
        }
    }
}

impl MemoryLeakDetector {
    /// A ledger with no tracked allocations.
    pub fn new() -> (r: Self)
        ensures
            r@.active.len() == 0,
            r@.counter == 0,
            r@.wf(),
    {
        MemoryLeakDetector { active_allocations: Vec::new(), allocation_counter: 0 }
    }

    /// Track an allocation of `size` bytes under a fresh id, which is
    /// returned.
    pub fn track_allocation(&mut self, size: usize) -> (id: usize)
        requires
            old(self)@.wf(),
            old(self)@.counter < usize::MAX,
        ensures
            final(self)@.wf(),
            id == old(self)@.counter,
            final(self)@ == old(self)@.after_track(size as nat),
    {
        let id = self.allocation_counter;
        self.allocation_counter = self.allocation_counter + 1;
        self.active_allocations.push(AllocationInfo { size, id });
        proof {
            assert(self@ =~= old(self)@.after_track(size as nat));
            assert(forall|i: int| 0 <= i < old(self)@.active.len()
                ==> (#[trigger] self@.active[i]) == old(self)@.active[i]);
        }
        id
    }

    /// Record the deallocation of a tracked id; an unknown id (already
    /// reported or never tracked) changes nothing.
    pub fn track_deallocation(&mut self, id: usize)
        requires
            old(self)@.wf(),
        ensures
            final(self)@.wf(),
            final(self)@ == old(self)@.after_untrack(id as nat),
    {
        let n = self.active_allocations.len();
        let mut i: usize = 0;
        while i < n
            invariant
                i <= n,
                n == self@.active.len(),
                self@ == old(self)@,
                old(self)@.wf(),
                forall|j: int| 0 <= j < i ==> (#[trigger] self@.active[j]).0 != id as nat,
            decreases n - i,
        {
            if self.active_allocations[i].id == id {
                let ghost pre = self@;
                self.active_allocations.remove(i);
                proof {
                    assert(pre.active[i as int].0 == id as nat);
                    assert(pre.contains_id(id as nat));
                    let j = choose|j: int| 0 <= j < pre.active.len()
                        && (#[trigger] pre.active[j]).0 == id as nat;
                    assert(j == i as int);
                    assert(self@.active =~= pre.active.remove(i as int));
                    assert(self@ =~= pre.after_untrack(id as nat));
                }
                return;
            }
            i = i + 1;
        }
        proof {
            assert(!old(self)@.contains_id(id as nat));
        }
    }

    /// All outstanding allocations, in tracking order.
    pub fn detect_leaks(&self) -> (r: Vec<AllocationInfo>)
        ensures
            r@.len() == self@.active.len(),
            forall|i: int| 0 <= i < r@.len()
                ==> (#[trigger] r@[i]).id == self@.active[i].0 && r@[i].size == self@.active[i].1,
    {
        let n = self.active_allocations.len();
        let mut r: Vec<AllocationInfo> = Vec::new();
        let mut i: usize = 0;
        while i < n
            invariant
                i <= n,
                n == self@.active.len(),
                r@.len() == i,
                forall|j: int| 0 <= j < i
                    ==> (#[trigger] r@[j]).id == self@.active[j].0
                        && r@[j].size == self@.active[j].1,
            decreases n - i,
        {
            let info = AllocationInfo {
                size: self.active_allocations[i].size,
                id: self.active_allocations[i].id,
            };
            r.push(info);
            i = i + 1;
        }
        r
    }

    /// The sum of the sizes of all outstanding allocations.
    pub fn leaked_memory_bytes(&self) -> (r: usize)
        requires
            leak_sum(self@.active) <= usize::MAX,
        ensures
            r == leak_sum(self@.active),
    {
        let n = self.active_allocations.len();
        let mut total: usize = 0;
        let mut i: usize = 0;
        proof {
            assert(self@.active.take(0) =~= Seq::<(nat, nat)>::empty());
        }
        while i < n
            invariant
                i <= n,
                n == self@.active.len(),
                leak_sum(self@.active) <= usize::MAX,
                total == leak_sum(self@.active.take(i as int)),
            decreases n - i,
        {
            proof {
                assert(self@.active.take(i + 1).drop_last() =~= self@.active.take(i as int));
                assert(self@.active.take(i + 1).last() == self@.active[i as int]);
                lemma_leak_sum_prefix_le(self@.active, i + 1);
            }
            total = total + self.active_allocations[i].size;
            i = i + 1;
        }
        proof {
            assert(self@.active.take(n as int) =~= self@.active);
        }
        total
    }
}

} // verus!
