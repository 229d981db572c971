//! The guest handle table. Handles are `slab::Slab` keys: a freed key is
//! reused by a later insertion. Heap handles carry their allocation
//! records; the implicit process heap is created on first use.

use vstd::prelude::*;
use slab::Slab;
use crate::heap_handle::{forget_first, HeapAllocation, HeapHandle};

verus! {

#[verifier::external_type_specification]
#[verifier::external_body]
#[verifier::reject_recursive_types(T)]
pub struct ExSlab<T>(Slab<T>);

/// What the heap-handle slab holds: key -> heap object.
pub uninterp spec fn heap_slab(s: Slab<HeapHandle>) -> Map<usize, HeapHandle>;

/// How many slots the slab has: its occupied keys and the vacant ones
/// freed below them (the length of its entry vector).
pub uninterp spec fn heap_slab_slots(s: Slab<HeapHandle>) -> usize;

/// A newly created process heap: no options, no sizes, arena 0, nothing
/// allocated.
pub open spec fn fresh_process_heap(h: HeapHandle) -> bool {
    h.opts == 0 && h.initial_size == 0 && h.maximum_size == 0 && h.arena == 0
        && h.allocations@.len() == 0
}

/// The number of distinct 32-bit handles.
pub const HANDLE_SLOTS: u64 = 0x1_0000_0000;

/// The empty handle table.
pub open spec fn no_heaps() -> Map<usize, HeapHandle> {
    Map::empty()
}

/// `Slab::with_capacity`: an empty slab (capacity only pre-allocates).
#[verifier::external_body]
fn slab_with_capacity(capacity: usize) -> (s: Slab<HeapHandle>)
    ensures
        heap_slab(s) == no_heaps(),
        heap_slab_slots(s) == 0,
{
    Slab::with_capacity(capacity)
}

/// `Slab::insert`: stores `v` under a key that was vacant (the slab's next
/// free key) and returns that key. That key is a vacant slot, or one past
/// the last slot, which is then added.
#[verifier::external_body]
fn slab_insert(s: &mut Slab<HeapHandle>, v: HeapHandle) -> (k: usize)
    requires
        heap_slab_slots(*old(s)) < usize::MAX,
    ensures
        !heap_slab(*old(s)).contains_key(k),
        heap_slab(*final(s)) == heap_slab(*old(s)).insert(k, v),
        k <= heap_slab_slots(*old(s)),
        heap_slab_slots(*final(s)) == if k == heap_slab_slots(*old(s)) {
            k + 1
        } else {
            heap_slab_slots(*old(s)) as int
        },
{
    s.insert(v)
}

/// `Slab::get`.
#[verifier::external_body]
fn slab_get(s: &Slab<HeapHandle>, k: usize) -> (r: Option<&HeapHandle>)
    ensures
        match r {
            Some(h) => heap_slab(*s).contains_key(k) && *h == heap_slab(*s)[k],
            None => !heap_slab(*s).contains_key(k),
        },
{
    s.get(k)
}

/// `Slab::get_mut`: a reference to the value under `k`; whatever is
/// written through it is what the slab holds under `k` afterwards.
#[verifier::external_body]
fn slab_get_mut(s: &mut Slab<HeapHandle>, k: usize) -> (r: Option<&mut HeapHandle>)
    ensures
        match r {
            Some(h) => heap_slab(*old(s)).contains_key(k) && *h == heap_slab(*old(s))[k]
                && heap_slab(*final(s)) == heap_slab(*old(s)).insert(k, *final(h)),
            None => !heap_slab(*old(s)).contains_key(k) && heap_slab(*final(s)) == heap_slab(
                *old(s),
            ),
        },
        heap_slab_slots(*final(s)) == heap_slab_slots(*old(s)),
{
    s.get_mut(k)
}

/// `Slab::try_remove`: takes the value under `k` out, if there is one; its
/// slot stays, vacant.
#[verifier::external_body]
fn slab_try_remove(s: &mut Slab<HeapHandle>, k: usize) -> (r: Option<HeapHandle>)
    ensures
        heap_slab(*final(s)) == heap_slab(*old(s)).remove(k),
        heap_slab_slots(*final(s)) == heap_slab_slots(*old(s)),
        match r {
            Some(h) => heap_slab(*old(s)).contains_key(k) && h == heap_slab(*old(s))[k],
            None => !heap_slab(*old(s)).contains_key(k),
        },
{
    s.try_remove(k)
}

/// `Slab::iter`, keys only: the occupied keys in ascending order.
#[verifier::external_body]
fn slab_keys(s: &Slab<HeapHandle>) -> (r: Vec<usize>)
    ensures
        forall|i: int, j: int| 0 <= i < j < r@.len() ==> r@[i] < r@[j],
        forall|k: usize| heap_slab(*s).contains_key(k) <==> r@.contains(k),
{
    s.iter().map(|(k, _)| k).collect()
}

/// The handle table.
pub struct HandleManagement {
    number_of_handle: usize,
    handle_types: Slab<HeapHandle>,
    process_heap_key: Option<u32>,
}

impl Default for HandleManagement {
    fn default() -> (r: Self)
        ensures
            r.wf(),
            r.entries() == no_heaps(),
            r.process_key() is None,
    {
        Self::new()
    }
}

impl HandleManagement {
    /// Live handles: key -> heap object.
    pub closed spec fn entries(&self) -> Map<usize, HeapHandle> {
        heap_slab(self.handle_types)
    }

    /// The key of the process heap, once created.
    pub closed spec fn process_key(&self) -> Option<u32> {
        self.process_heap_key
    }

    /// Number of live handles.
    pub closed spec fn handle_count(&self) -> usize {
        self.number_of_handle
    }

    /// Number of table slots, live or freed: every key is below it.
    pub closed spec fn slot_count(&self) -> usize {
        heap_slab_slots(self.handle_types)
    }

    /// The handle count matches the (finite) table, and every key, being
    /// below the slot count, fits the 32-bit handles guests see.
    pub open spec fn wf(&self) -> bool {
        &&& self.entries().dom().finite()
        &&& self.handle_count() == self.entries().len()
        &&& self.slot_count() <= HANDLE_SLOTS
        &&& forall|k: usize| #[trigger] self.entries().contains_key(k) ==> k < self.slot_count()
    }

    /// Room for `n` more handles.
    pub open spec fn has_room(&self, n: int) -> bool {
        &&& self.handle_count() + n <= usize::MAX
        &&& self.slot_count() + n <= usize::MAX
        &&& self.slot_count() + n <= HANDLE_SLOTS
    }

    /// The process heap exists and its key still names a heap object.
    pub open spec fn process_heap_live(&self) -> bool {
        &&& self.process_key() is Some
        &&& self.entries().contains_key(self.process_key()->0 as usize)
    }

    /// True when `handle` is a live heap key as a guest passes it.
    pub open spec fn is_live_heap(&self, handle: u64) -> bool {
        handle != 0 && handle <= u32::MAX && self.entries().contains_key(handle as usize)
    }

    pub fn new() -> (r: Self)
        ensures
            r.wf(),
            r.entries() == no_heaps(),
            r.process_key() is None,
            r.slot_count() == 0,
    {
        Self { handle_types: slab_with_capacity(200), number_of_handle: 0, process_heap_key: None }
    }

    /// Store a heap object; returns its key.
    pub fn insert_heap_handle(&mut self, heap_handle: HeapHandle) -> (r: u32)
        requires
            old(self).wf(),
            old(self).has_room(1),
        ensures
            final(self).wf(),
            !old(self).entries().contains_key(r as usize),
            final(self).entries() == old(self).entries().insert(r as usize, heap_handle),
            final(self).process_key() == old(self).process_key(),
            final(self).slot_count() <= old(self).slot_count() + 1,
    {
        let key = slab_insert(&mut self.handle_types, heap_handle);
        self.number_of_handle = self.number_of_handle + 1;
        key as u32
    }

    /// The heap object under `key`, for modification.
    pub fn get_mut_heap_handle(&mut self, key: u32) -> (r: Option<&mut HeapHandle>)
        ensures
            match r {
                Some(h) => old(self).entries().contains_key(key as usize) && *h == old(self).entries()[key as usize] && final(self).entries() == old(self).entries().insert(
                    key as usize,
                    *final(h),
                ),
                None => !old(self).entries().contains_key(key as usize) && final(self).entries()
                    == old(self).entries(),
            },
            final(self).process_key() == old(self).process_key(),
            final(self).handle_count() == old(self).handle_count(),
            final(self).slot_count() == old(self).slot_count(),
    {
        slab_get_mut(&mut self.handle_types, key as usize)
    }

    /// Remove and return the heap object under `key`.
    pub fn remove_heap_handle(&mut self, key: u32) -> (r: Option<HeapHandle>)
        requires
            old(self).wf(),
        ensures
            final(self).wf(),
            final(self).entries() == old(self).entries().remove(key as usize),
            match r {
                Some(h) => old(self).entries().contains_key(key as usize) && h == old(self).entries()[key as usize],
                None => !old(self).entries().contains_key(key as usize),
            },
            final(self).process_key() == old(self).process_key(),
            final(self).slot_count() == old(self).slot_count(),
    {
        let r = slab_try_remove(&mut self.handle_types, key as usize);
        if r.is_some() {
            self.number_of_handle = self.number_of_handle - 1;
        }
        r
    }

    /// The key of the implicit process heap, creating it (bound to arena 0)
    /// on first use or when its key no longer names a heap object.
    pub fn get_or_insert_process_heap(&mut self) -> (r: u32)
        requires
            old(self).wf(),
            old(self).has_room(1),
        ensures
            final(self).wf(),
            old(self).process_heap_live() ==> r == old(self).process_key()->0 && final(self).entries()
                == old(self).entries() && final(self).process_key() == old(self).process_key(),
            !old(self).process_heap_live() ==> exists|k: usize|
                !old(self).entries().contains_key(k) && final(self).entries() == old(self).entries().insert(k, final(self).entries()[k]) && fresh_process_heap(
                    final(self).entries()[k],
                ) && r == k as u32 && final(self).process_key() == Some(r),
            final(self).slot_count() <= old(self).slot_count() + 1,
            old(self).process_heap_live() ==> final(self).slot_count() == old(self).slot_count(),
            final(self).process_heap_live(),
    {
        if let Some(k) = self.process_heap_key {
            if slab_get(&self.handle_types, k as usize).is_some() {
                return k;
            }
        }
        let key = self.insert_heap_handle(HeapHandle::new(0, 0, 0, 0));
        self.process_heap_key = Some(key);
        key
    }
}

/// `after` is `before` with allocation `a` recorded.
pub open spec fn heap_recorded(before: HeapHandle, after: HeapHandle, a: HeapAllocation) -> bool {
    &&& after.opts == before.opts
    &&& after.initial_size == before.initial_size
    &&& after.maximum_size == before.maximum_size
    &&& after.arena == before.arena
    &&& after.allocations@ == before.allocations@.push(a)
}

/// `after` is `before` with the first allocation at `addr` forgotten.
pub open spec fn heap_forgotten(before: HeapHandle, after: HeapHandle, addr: u64) -> bool {
    &&& after.opts == before.opts
    &&& after.initial_size == before.initial_size
    &&& after.maximum_size == before.maximum_size
    &&& after.arena == before.arena
    &&& after.allocations@ == forget_first(before.allocations@, addr)
}

/// `new` differs from `old` at most under key `k` (which both hold).
pub open spec fn only_at(new: Map<usize, HeapHandle>, old: Map<usize, HeapHandle>, k: usize) -> bool {
    &&& new.dom() == old.dom()
    &&& old.contains_key(k)
    &&& forall|j: usize| j != k && #[trigger] old.contains_key(j) ==> new[j] == old[j]
}

/// What recording allocation `a` against `handle` does to the table `o`,
/// giving `n`: the heap the handle names (else the process heap, created
/// when needed) gains the record; nothing else changes.
pub open spec fn record_effect(o: HandleManagement, n: HandleManagement, handle: u64, a: HeapAllocation) -> bool {
    &&& n.slot_count() <= o.slot_count() + 1
    &&& o.process_heap_live() ==> n.slot_count() == o.slot_count()
    &&& o.is_live_heap(handle) ==> {
        &&& n.process_key() == o.process_key()
        &&& only_at(n.entries(), o.entries(), handle as usize)
        &&& heap_recorded(o.entries()[handle as usize], n.entries()[handle as usize], a)
    }
    &&& !o.is_live_heap(handle) && o.process_heap_live() ==> {
        &&& n.process_key() == o.process_key()
        &&& only_at(n.entries(), o.entries(), o.process_key()->0 as usize)
        &&& heap_recorded(
            o.entries()[o.process_key()->0 as usize],
            n.entries()[o.process_key()->0 as usize],
            a,
        )
    }
    &&& !o.is_live_heap(handle) && !o.process_heap_live() ==> exists|k: usize|
        {
            &&& !o.entries().contains_key(k)
            &&& n.process_key() == Some(k as u32)
            &&& n.entries().dom() == o.entries().dom().insert(k)
            &&& k as u32 as usize == k ==> {
                &&& forall|j: usize| #[trigger] o.entries().contains_key(j) ==> n.entries()[j] == o.entries()[j]
                &&& n.entries()[k].allocations@ == seq![a]
                &&& n.entries()[k].arena == 0
                &&& n.entries()[k].maximum_size == 0
            }
        }
}

/// What forgetting the allocation at `addr` against `handle` does to the
/// table `o`, giving `n` (the heap attributed as for [`record_effect`]).
pub open spec fn forget_effect(o: HandleManagement, n: HandleManagement, handle: u64, addr: u64) -> bool {
    &&& n.slot_count() <= o.slot_count() + 1
    &&& o.process_heap_live() ==> n.slot_count() == o.slot_count()
    &&& o.is_live_heap(handle) ==> {
        &&& n.process_key() == o.process_key()
        &&& only_at(n.entries(), o.entries(), handle as usize)
        &&& heap_forgotten(o.entries()[handle as usize], n.entries()[handle as usize], addr)
    }
    &&& !o.is_live_heap(handle) && o.process_heap_live() ==> {
        &&& n.process_key() == o.process_key()
        &&& only_at(n.entries(), o.entries(), o.process_key()->0 as usize)
        &&& heap_forgotten(
            o.entries()[o.process_key()->0 as usize],
            n.entries()[o.process_key()->0 as usize],
            addr,
        )
    }
    &&& !o.is_live_heap(handle) && !o.process_heap_live() ==> exists|k: usize|
        {
            &&& !o.entries().contains_key(k)
            &&& n.process_key() == Some(k as u32)
            &&& n.entries().dom() == o.entries().dom().insert(k)
            &&& k as u32 as usize == k ==> {
                &&& forall|j: usize| #[trigger] o.entries().contains_key(j) ==> n.entries()[j] == o.entries()[j]
                &&& fresh_process_heap(n.entries()[k])
            }
        }
}

impl HandleManagement {
    /// True when `key` is the process heap's key.
    pub fn is_process_heap(&self, key: u32) -> (r: bool)
        ensures
            r == (self.process_key() == Some(key)),
    {
        match self.process_heap_key {
            Some(k) => k == key,
            None => false,
        }
    }

    /// `(arena index, maximum size)` of the heap a guest handle (truncated
    /// to `u32`) names; `None` when it names no heap object.
    pub fn heap_alloc_context(&self, handle: u64) -> (r: Option<(usize, u64)>)
        ensures
            r == (if handle <= u32::MAX && self.entries().contains_key(handle as usize) {
                Some(
                    (
                        self.entries()[handle as usize].arena,
                        self.entries()[handle as usize].maximum_size,
                    ),
                )
            } else {
                None
            }),
    {
        if handle > 0xFFFF_FFFF {
            return None;
        }
        let key = handle as u32;
        match slab_get(&self.handle_types, key as usize) {
            Some(hh) => Some((hh.arena, hh.maximum_size)),
            None => None,
        }
    }

    /// The heap key a guest handle is attributed to: the handle itself when
    /// it names a heap object, else the process heap (created if needed).
    fn resolve_heap_handle_key(&mut self, handle: u64) -> (r: u32)
        requires
            old(self).wf(),
            old(self).has_room(1),
        ensures
            final(self).wf(),
            old(self).is_live_heap(handle) ==> r == handle as u32 && final(self).entries() == old(self).entries() && final(self).process_key() == old(self).process_key(),
            !old(self).is_live_heap(handle) && old(self).process_heap_live() ==> r == old(self).process_key()->0 && final(self).entries() == old(self).entries() && final(self).process_key() == old(self).process_key(),
            !old(self).is_live_heap(handle) && !old(self).process_heap_live() ==> exists|k: usize|
                !old(self).entries().contains_key(k) && final(self).entries() == old(self).entries().insert(k, final(self).entries()[k]) && fresh_process_heap(
                    final(self).entries()[k],
                ) && r == k as u32 && final(self).process_key() == Some(r),
            final(self).slot_count() <= old(self).slot_count() + 1,
            old(self).process_heap_live() ==> final(self).slot_count() == old(self).slot_count(),
    {
        if handle == 0 || handle > 0xFFFF_FFFF {
            return self.get_or_insert_process_heap();
        }
        let key = handle as u32;
        if slab_get(&self.handle_types, key as usize).is_some() {
            return key;
        }
        self.get_or_insert_process_heap()
    }

    /// Record an allocation against the heap `handle` names; unknown or
    /// zero handles are attributed to the process heap.
    pub fn record_heap_allocation(&mut self, handle: u64, addr: u64, size: u64)
        requires
            old(self).wf(),
            old(self).has_room(1),
        ensures
            final(self).wf(),
            record_effect(*old(self), *final(self), handle, HeapAllocation { addr, size }),
    {
        let key = self.resolve_heap_handle_key(handle);
        let ghost mid = self.entries();
        match self.get_mut_heap_handle(key) {
            Some(hh) => {
                hh.record_allocation(addr, size);
            },
            None => {},
        }
        proof {
            if old(self).is_live_heap(handle) {
                assert(key as usize == handle as usize);
                assert(self.entries().dom() =~= old(self).entries().dom());
            } else if old(self).process_heap_live() {
                assert(key as usize == old(self).process_key()->0 as usize);
                assert(self.entries().dom() =~= old(self).entries().dom());
            }
            if !old(self).is_live_heap(handle) && !old(self).process_heap_live() {
                let k = choose|k: usize|
                    !old(self).entries().contains_key(k) && mid == old(self).entries().insert(
                        k,
                        mid[k],
                    ) && fresh_process_heap(mid[k]) && key == k as u32 && self.process_key() == Some(
                        key,
                    );
                assert(self.entries().dom() =~= old(self).entries().dom().insert(k));
                if k as u32 as usize == k {
                    assert(key as usize == k);
                    assert(self.entries()[k].allocations@ =~= seq![HeapAllocation { addr, size }]);
                }
                assert({
                    &&& !old(self).entries().contains_key(k)
                    &&& self.process_key() == Some(k as u32)
                    &&& self.entries().dom() == old(self).entries().dom().insert(k)
                    &&& k as u32 as usize == k ==> {
                        &&& forall|j: usize| #[trigger] old(self).entries().contains_key(j) ==> self.entries()[j] == old(self).entries()[j]
                        &&& self.entries()[k].allocations@ == seq![HeapAllocation { addr, size }]
                        &&& self.entries()[k].arena == 0
                        &&& self.entries()[k].maximum_size == 0
                    }
                });
            }
        }
    }

    /// Forget the first allocation at `addr` recorded against the heap
    /// `handle` names (attributed as in [`Self::record_heap_allocation`]).
    pub fn forget_heap_allocation(&mut self, handle: u64, addr: u64)
        requires
            old(self).wf(),
            old(self).has_room(1),
        ensures
            final(self).wf(),
            forget_effect(*old(self), *final(self), handle, addr),
    {
        let key = self.resolve_heap_handle_key(handle);
        let ghost mid = self.entries();
        match self.get_mut_heap_handle(key) {
            Some(hh) => {
                hh.forget_allocation(addr);
            },
            None => {},
        }
        proof {
            if old(self).is_live_heap(handle) {
                assert(key as usize == handle as usize);
                assert(self.entries().dom() =~= old(self).entries().dom());
            } else if old(self).process_heap_live() {
                assert(key as usize == old(self).process_key()->0 as usize);
                assert(self.entries().dom() =~= old(self).entries().dom());
            }
            if !old(self).is_live_heap(handle) && !old(self).process_heap_live() {
                let k = choose|k: usize|
                    !old(self).entries().contains_key(k) && mid == old(self).entries().insert(
                        k,
                        mid[k],
                    ) && fresh_process_heap(mid[k]) && key == k as u32 && self.process_key() == Some(
                        key,
                    );
                assert(self.entries().dom() =~= old(self).entries().dom().insert(k));
                if k as u32 as usize == k {
                    assert(key as usize == k);
                    assert(forget_first(mid[k].allocations@, addr) =~= mid[k].allocations@);
                }
            }
        }
    }

    /// Drop the first allocation record at `addr` from every live heap
    /// (for callers that carry no heap handle, such as `LocalFree`).
    pub fn forget_heap_allocation_any(&mut self, addr: u64)
        requires
            old(self).wf(),
        ensures
            final(self).wf(),
            final(self).process_key() == old(self).process_key(),
            final(self).entries().dom() == old(self).entries().dom(),
            forall|k: usize|
                #[trigger] old(self).entries().contains_key(k) ==> heap_forgotten(
                    old(self).entries()[k],
                    final(self).entries()[k],
                    addr,
                ),
    {
        let keys = slab_keys(&self.handle_types);
        let mut i: usize = 0;
        while i < keys.len()
            invariant
                self.wf(),
                self.process_key() == old(self).process_key(),
                self.entries().dom() == old(self).entries().dom(),
                i <= keys@.len(),
                forall|a: int, b: int| 0 <= a < b < keys@.len() ==> keys@[a] < keys@[b],
                forall|k: usize| old(self).entries().contains_key(k) <==> keys@.contains(k),
                forall|a: int|
                    0 <= a < i ==> heap_forgotten(
                        old(self).entries()[#[trigger] keys@[a]],
                        self.entries()[keys@[a]],
                        addr,
                    ),
                forall|a: int|
                    i <= a < keys@.len() ==> self.entries()[#[trigger] keys@[a]] == old(self).entries()[keys@[a]],
            decreases keys@.len() - i,
        {
            let k = keys[i];
            assert(keys@.contains(k));
            let ghost before = self.entries();
            match slab_get_mut(&mut self.handle_types, k) {
                Some(hh) => {
                    hh.forget_allocation(addr);
                },
                None => {},
            }
            assert forall|a: int| 0 <= a < keys@.len() && a != i implies self.entries()[#[trigger] keys@[a]]
                == before[keys@[a]] by {
                assert(keys@[a] != k);
            }
            i = i + 1;
        }
        assert forall|k: usize| #[trigger] old(self).entries().contains_key(k) implies heap_forgotten(
            old(self).entries()[k],
            self.entries()[k],
            addr,
        ) by {
            assert(keys@.contains(k));
            let a = choose|a: int| 0 <= a < keys@.len() && keys@[a] == k;
            assert(heap_forgotten(old(self).entries()[keys@[a]], self.entries()[keys@[a]], addr));
        }
    }

    /// `r` is the process key (if set) followed by `ks` as `u32`s, where `ks`
    /// holds, ascending, every live key other than the process key.
    pub open spec fn keys_listed(&self, ks: Seq<usize>, r: Seq<u32>) -> bool {
        &&& forall|a: int, b: int| 0 <= a < b < ks.len() ==> ks[a] < ks[b]
        &&& forall|k: usize|
            (self.entries().contains_key(k) && self.process_key() != Some(k as u32))
                <==> ks.contains(k)
        &&& r == (if self.process_key() is Some {
            seq![self.process_key()->0]
        } else {
            Seq::empty()
        }) + ks.map_values(|k: usize| k as u32)
    }

    /// How many keys [`Self::heap_handle_keys`] lists: the process key, when
    /// set, and every other live key.
    pub open spec fn heap_key_count(&self) -> nat {
        (if self.process_key() is Some {
            1nat
        } else {
            0nat
        }) + self.entries().dom().filter(|k: usize| self.process_key() != Some(k as u32)).len()
    }

    /// Keys of every live heap handle; the process heap key comes first
    /// (as `RtlGetProcessHeaps` reports it), then the others in ascending
    /// key order.
    pub fn heap_handle_keys(&self) -> (r: Vec<u32>)
        requires
            self.wf(),
        ensures
            match self.process_key() {
                Some(pk) => r@.len() >= 1 && r@[0] == pk,
                None => true,
            },
            exists|ks: Seq<usize>| #[trigger] self.keys_listed(ks, r@),
            r@.len() == self.heap_key_count(),
    {
        let mut out: Vec<u32> = Vec::new();
        if let Some(pk) = self.process_heap_key {
            out.push(pk);
        }
        let ghost prefix = out@;
        let keys = slab_keys(&self.handle_types);
        let ghost mut ks: Seq<usize> = Seq::empty();
        let mut i: usize = 0;
        while i < keys.len()
            invariant
                i <= keys@.len(),
                prefix == (if self.process_key() is Some {
                    seq![self.process_key()->0]
                } else {
                    Seq::<u32>::empty()
                }),
                forall|a: int, b: int| 0 <= a < b < keys@.len() ==> keys@[a] < keys@[b],
                forall|k: usize| self.entries().contains_key(k) <==> keys@.contains(k),
                forall|a: int, b: int| 0 <= a < b < ks.len() ==> ks[a] < ks[b],
                forall|a: int|
                    0 <= a < ks.len() ==> self.entries().contains_key(#[trigger] ks[a])
                        && self.process_key() != Some(ks[a] as u32),
                forall|b: int|
                    0 <= b < i && self.process_key() != Some(keys@[b] as u32) ==> ks.contains(
                        #[trigger] keys@[b],
                    ),
                i > 0 && ks.len() > 0 ==> ks.last() <= keys@[i - 1],
                i == 0 ==> ks.len() == 0,
                out@ == prefix + ks.map_values(|k: usize| k as u32),
            decreases keys@.len() - i,
        {
            let k = keys[i];
            assert(keys@.contains(k));
            if Some(k as u32) != self.process_heap_key {
                let ghost old_ks = ks;
                proof {
                    if i > 0 && old_ks.len() > 0 {
                        assert(keys@[i - 1] < keys@[i as int]);
                    }
                    ks = ks.push(k);
                    assert forall|b: int|
                        0 <= b < i + 1 && self.process_key() != Some(keys@[b] as u32) implies ks.contains(
                        #[trigger] keys@[b],
                    ) by {
                        if b < i {
                            assert(old_ks.contains(keys@[b]));
                            let a = choose|a: int| 0 <= a < old_ks.len() && old_ks[a] == keys@[b];
                            assert(ks[a] == keys@[b]);
                        } else {
                            assert(ks[ks.len() - 1] == keys@[b]);
                        }
                    }
                }
                out.push(k as u32);
                assert(out@ =~= prefix + ks.map_values(|k: usize| k as u32));
            }
            i = i + 1;
        }
        proof {
            assert forall|k: usize|
                (self.entries().contains_key(k) && self.process_key() != Some(k as u32))
                    <==> ks.contains(k) by {
                if ks.contains(k) {
                    let a = choose|a: int| 0 <= a < ks.len() && ks[a] == k;
                    assert(self.entries().contains_key(ks[a]));
                }
                if self.entries().contains_key(k) && self.process_key() != Some(k as u32) {
                    assert(keys@.contains(k));
                    let b = choose|b: int| 0 <= b < keys@.len() && keys@[b] == k;
                    assert(ks.contains(keys@[b]));
                }
            }
            assert(self.keys_listed(ks, out@));
            let others = self.entries().dom().filter(|k: usize| self.process_key() != Some(k as u32));
            assert(ks.no_duplicates()) by {
                assert forall|a: int, b: int| 0 <= a < ks.len() && 0 <= b < ks.len() && a != b implies ks[a] != ks[b] by {
                    if a < b {
                        assert(ks[a] < ks[b]);
                    } else {
                        assert(ks[b] < ks[a]);
                    }
                }
            }
            ks.unique_seq_to_set();
            assert(ks.to_set() =~= others);
        }
        out
    }
}

/// Recording an allocation adds at most one handle: the process heap,
/// when it had to be created for it.
pub proof fn lemma_record_adds_at_most_one(o: HandleManagement, n: HandleManagement, handle: u64, a: HeapAllocation)
    requires
        o.wf(),
        n.wf(),
        record_effect(o, n, handle, a),
    ensures
        n.handle_count() <= o.handle_count() + 1,
{
    if !o.is_live_heap(handle) && !o.process_heap_live() {
        let k = choose|k: usize|
            {
                &&& !o.entries().contains_key(k)
                &&& n.process_key() == Some(k as u32)
                &&& n.entries().dom() == o.entries().dom().insert(k)
                &&& k as u32 as usize == k ==> {
                    &&& forall|j: usize| #[trigger] o.entries().contains_key(j) ==> n.entries()[j] == o.entries()[j]
                    &&& n.entries()[k].allocations@ == seq![a]
                    &&& n.entries()[k].arena == 0
                    &&& n.entries()[k].maximum_size == 0
                }
            };
        assert(n.entries().dom().len() == o.entries().dom().len() + 1);
    } else {
        assert(n.entries().dom() =~= o.entries().dom());
    }
}

/// Forgetting an allocation adds at most one handle, as recording does.
pub proof fn lemma_forget_adds_at_most_one(o: HandleManagement, n: HandleManagement, handle: u64, addr: u64)
    requires
        o.wf(),
        n.wf(),
        forget_effect(o, n, handle, addr),
    ensures
        n.handle_count() <= o.handle_count() + 1,
        o.process_heap_live() ==> n.handle_count() == o.handle_count(),
{
    if !o.is_live_heap(handle) && !o.process_heap_live() {
        let k = choose|k: usize|
            {
                &&& !o.entries().contains_key(k)
                &&& n.process_key() == Some(k as u32)
                &&& n.entries().dom() == o.entries().dom().insert(k)
                &&& k as u32 as usize == k ==> {
                    &&& forall|j: usize| #[trigger] o.entries().contains_key(j) ==> n.entries()[j] == o.entries()[j]
                    &&& fresh_process_heap(n.entries()[k])
                }
            };
        assert(n.entries().dom().len() == o.entries().dom().len() + 1);
    } else {
        assert(n.entries().dom() =~= o.entries().dom());
    }
}

} // verus!
