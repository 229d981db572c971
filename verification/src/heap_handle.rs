//! Emulated Win32 heap objects (`HeapCreate` / `GetProcessHeap` handles)
//! and the allocations recorded against them.

use vstd::prelude::*;

verus! {

/// One live allocation made from a [`HeapHandle`].
#[derive(Clone, Copy, Debug)]
pub struct HeapAllocation {
    pub addr: u64,
    pub size: u64,
}

/// Emulated Win32 heap object backing a heap handle. `arena` indexes the
/// emulator's heap arenas; arena 0 is always the process heap.
#[derive(Debug)]
pub struct HeapHandle {
    pub opts: u32,
    pub initial_size: u64,
    pub maximum_size: u64,
    pub arena: usize,
    pub allocations: Vec<HeapAllocation>,
}

/// Index of the first allocation at `addr` in `allocs`, if any.
pub open spec fn first_at(allocs: Seq<HeapAllocation>, addr: u64) -> Option<int> {
    if exists|i: int| 0 <= i < allocs.len() && allocs[i].addr == addr {
        Some(
            choose|i: int|
                0 <= i < allocs.len() && allocs[i].addr == addr && forall|j: int|
                    0 <= j < i ==> allocs[j].addr != addr,
        )
    } else {
        None
    }
}

/// Some allocation at `addr` has no earlier one at `addr`, given one at `w`.
proof fn lemma_least_at(allocs: Seq<HeapAllocation>, addr: u64, w: int)
    requires
        0 <= w < allocs.len(),
        allocs[w].addr == addr,
    ensures
        exists|i: int| 0 <= i < allocs.len() && allocs[i].addr == addr && forall|j: int| 0 <= j < i ==> allocs[j].addr != addr,
    decreases w,
{
    if exists|j: int| 0 <= j < w && allocs[j].addr == addr {
        let j = choose|j: int| 0 <= j < w && allocs[j].addr == addr;
        lemma_least_at(allocs, addr, j);
    } else {
        assert(forall|j: int| 0 <= j < w ==> allocs[j].addr != addr);
    }
}

/// [`first_at`] is the least index of an allocation at `addr`, and `None`
/// exactly when there is none.
pub proof fn lemma_first_at_least(allocs: Seq<HeapAllocation>, addr: u64)
    ensures
        match first_at(allocs, addr) {
            Some(i) => 0 <= i < allocs.len() && allocs[i].addr == addr && forall|j: int| 0 <= j < i ==> allocs[j].addr != addr,
            None => forall|i: int| 0 <= i < allocs.len() ==> allocs[i].addr != addr,
        },
{
    if exists|i: int| 0 <= i < allocs.len() && allocs[i].addr == addr {
        let w = choose|i: int| 0 <= i < allocs.len() && allocs[i].addr == addr;
        lemma_least_at(allocs, addr, w);
    }
}

/// `allocs` after removing the first allocation at `addr` the way
/// `Vec::swap_remove` does (the last entry takes its place).
pub open spec fn forget_first(allocs: Seq<HeapAllocation>, addr: u64) -> Seq<HeapAllocation> {
    match first_at(allocs, addr) {
        Some(i) => allocs.update(i, allocs.last()).drop_last(),
        None => allocs,
    }
}

pub proof fn lemma_first_at(allocs: Seq<HeapAllocation>, addr: u64, i: int)
    requires
        0 <= i < allocs.len(),
        allocs[i].addr == addr,
        forall|j: int| 0 <= j < i ==> allocs[j].addr != addr,
    ensures
        first_at(allocs, addr) == Some(i),
{
    let k = choose|k: int|
        0 <= k < allocs.len() && allocs[k].addr == addr && forall|j: int|
            0 <= j < k ==> allocs[j].addr != addr;
    assert(0 <= k < allocs.len() && allocs[k].addr == addr);
    if k < i {
        assert(allocs[k].addr != addr);
    }
    if i < k {
        assert(allocs[i].addr != addr);
    }
}

impl HeapHandle {
    pub fn new(opts: u32, initial_size: u64, maximum_size: u64, arena: usize) -> (r: Self)
        ensures
            r.opts == opts,
            r.initial_size == initial_size,
            r.maximum_size == maximum_size,
            r.arena == arena,
            r.allocations@ == Seq::<HeapAllocation>::empty(),
    {
        HeapHandle { opts, initial_size, maximum_size, arena, allocations: Vec::new() }
    }

    /// Record an allocation of `size` bytes at `addr`.
    pub fn record_allocation(&mut self, addr: u64, size: u64)
        ensures
            final(self).allocations@ == old(self).allocations@.push(HeapAllocation { addr, size }),
            final(self).opts == old(self).opts,
            final(self).initial_size == old(self).initial_size,
            final(self).maximum_size == old(self).maximum_size,
            final(self).arena == old(self).arena,
    {
        self.allocations.push(HeapAllocation { addr, size });
    }

    /// Remove the first allocation entry at `addr`; true if one was removed.
    pub fn forget_allocation(&mut self, addr: u64) -> (r: bool)
        ensures
            r == (first_at(old(self).allocations@, addr) is Some),
            final(self).allocations@ == forget_first(old(self).allocations@, addr),
            final(self).opts == old(self).opts,
            final(self).initial_size == old(self).initial_size,
            final(self).maximum_size == old(self).maximum_size,
            final(self).arena == old(self).arena,
    {
        let mut i: usize = 0;
        while i < self.allocations.len()
            invariant
                i <= self.allocations@.len(),
                self.allocations@ == old(self).allocations@,
                self.opts == old(self).opts,
                self.initial_size == old(self).initial_size,
                self.maximum_size == old(self).maximum_size,
                self.arena == old(self).arena,
                forall|j: int| 0 <= j < i ==> self.allocations@[j].addr != addr,
            decreases self.allocations@.len() - i,
        {
            if self.allocations[i].addr == addr {
                proof {
                    lemma_first_at(self.allocations@, addr, i as int);
                }
                let ghost before = self.allocations@;
                self.allocations.swap_remove(i);
                assert(self.allocations@ =~= before.update(i as int, before.last()).drop_last());
                return true;
            }
            i = i + 1;
        }
        false
    }
}

/// Recording an allocation and then forgetting its address gives back the
/// same multiset of allocations, when no allocation at that address was
/// recorded before.
pub proof fn law_forget_undoes_record(allocs: Seq<HeapAllocation>, addr: u64, size: u64)
    requires
        forall|i: int| 0 <= i < allocs.len() ==> allocs[i].addr != addr,
    ensures
        forget_first(allocs.push(HeapAllocation { addr, size }), addr) =~= allocs,
{
    let pushed = allocs.push(HeapAllocation { addr, size });
    lemma_first_at(pushed, addr, allocs.len() as int);
}

} // verus!
