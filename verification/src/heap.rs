//! The heap routing engine shared by the kernel32 and ntdll heap APIs:
//! which arena or dedicated map an allocation comes from, what a pointer
//! is, how big its allocation is, and releasing it.

use vstd::prelude::*;
use crate::emu::{
    machine_kept,
    alloc_spec, arena_alloc_spec, block_at, granules, region_based_at, region_index, Emu,
    ExceptionType, HeapBlock, Mem64, O1Heap, RegionModel, lemma_alloc_fresh, zeros,
};
use crate::handles::{
    forget_effect, lemma_forget_adds_at_most_one, lemma_record_adds_at_most_one, record_effect,
    HandleManagement,
};
use crate::memory::{bytes_at, lemma_bytes_at_len, span, wrote};
use crate::heap_handle::HeapAllocation;
use crate::text::{chars_of, has_prefix, hex, push_hex, starts_with_chars, string_from_chars};

verus! {

/// Requests of at least this many bytes get a dedicated map.
pub const LARGE_ALLOC_THRESHOLD: u64 = 0x8000;

/// Heap flag: raise `STATUS_NO_MEMORY` when an allocation fails.
pub const HEAP_GENERATE_EXCEPTIONS: u64 = 0x4;

/// Heap flag: zero the memory handed out.
pub const HEAP_ZERO_MEMORY: u64 = 0x8;

/// Heap flag: a reallocation may not move the block.
pub const HEAP_REALLOC_IN_PLACE_ONLY: u64 = 0x10;

/// The exceptions after an allocation with result `r`: a failed one on a
/// call with `HEAP_GENERATE_EXCEPTIONS` raises `STATUS_NO_MEMORY`.
pub open spec fn exceptions_after(old: Seq<ExceptionType>, r: Option<u64>, flags: u64) -> Seq<ExceptionType> {
    if r is None && flags & HEAP_GENERATE_EXCEPTIONS != 0 {
        old.push(ExceptionType::HeapNoMemory)
    } else {
        old
    }
}

/// `rax` after an allocation: the address, or 0 on failure.
pub open spec fn address_or_zero(r: Option<u64>) -> u64 {
    match r {
        Some(a) => a,
        None => 0,
    }
}

/// `size` padded to at least `min`.
pub open spec fn padded(size: u64, min: u64) -> u64 {
    if size < min {
        min
    } else {
        size
    }
}

/// `(arena index, maximum size)` for a guest heap handle: those of the heap
/// it names, else the process arena with no maximum.
pub open spec fn context_of(hm: HandleManagement, handle: u64) -> (usize, u64) {
    if handle <= u32::MAX && hm.entries().contains_key(handle as usize) {
        (hm.entries()[handle as usize].arena, hm.entries()[handle as usize].maximum_size)
    } else {
        (0, 0)
    }
}

/// Lenient allocation context for a guest heap handle: unknown and zero
/// handles fall back to the process arena (index 0), growable.
pub fn alloc_context(emu: &Emu, handle: u64) -> (r: (usize, u64))
    ensures
        r == context_of(emu.handle_management, handle),
{
    match emu.handle_management.heap_alloc_context(handle) {
        Some((arena, max)) => (arena, max),
        None => (0, 0),
    }
}

/// What a heap pointer is.
#[derive(Clone, Copy, Debug, PartialEq, Eq, Structural)]
pub enum HeapPtrKind {
    /// A live allocation in one of the arenas.
    Arena,
    /// The base of a dedicated allocation map.
    Mapped,
    Invalid,
}

pub open spec fn alloc_prefix() -> Seq<char> {
    seq!['a', 'l', 'l', 'o', 'c', '_']
}

pub open spec fn valloc_prefix() -> Seq<char> {
    seq!['v', 'a', 'l', 'l', 'o', 'c', '_']
}

/// Index of the first arena, from `start` on, with a live allocation at
/// `addr`.
pub open spec fn arena_with(arenas: Seq<O1Heap>, addr: u64, start: int) -> Option<int>
    decreases arenas.len() - start,
{
    if start < 0 || start >= arenas.len() {
        None
    } else if block_at(arenas[start].blocks@, addr, 0) is Some {
        Some(start)
    } else {
        arena_with(arenas, addr, start + 1)
    }
}

proof fn lemma_arena_with(arenas: Seq<O1Heap>, addr: u64, start: int)
    ensures
        match arena_with(arenas, addr, start) {
            Some(i) => 0 <= i < arenas.len() && block_at(arenas[i].blocks@, addr, 0) is Some,
            None => true,
        },
    decreases arenas.len() - start,
{
    if 0 <= start < arenas.len() && !(block_at(arenas[start].blocks@, addr, 0) is Some) {
        lemma_arena_with(arenas, addr, start + 1);
    }
}

/// Index of the dedicated allocation map based at `addr`: the region that
/// holds `addr` when it starts there and is named `alloc_*` or `valloc_*`.
pub open spec fn allocation_map(rs: Seq<Mem64>, addr: u64) -> Option<int> {
    match region_index(rs, addr, 0) {
        Some(i) => if rs[i].base == addr && (has_prefix(rs[i].name@, alloc_prefix()) || has_prefix(
            rs[i].name@,
            valloc_prefix(),
        )) {
            Some(i)
        } else {
            None
        },
        None => None,
    }
}

pub open spec fn classify_spec(emu: Emu, addr: u64) -> HeapPtrKind {
    if arena_with(emu.heap_arenas@, addr, 0) is Some {
        HeapPtrKind::Arena
    } else if allocation_map(emu.maps.regions@, addr) is Some {
        HeapPtrKind::Mapped
    } else {
        HeapPtrKind::Invalid
    }
}

/// The size of the allocation at `addr`: from the first arena holding it,
/// else the size of its dedicated map.
pub open spec fn allocation_size_spec(emu: Emu, addr: u64) -> Option<usize> {
    match arena_with(emu.heap_arenas@, addr, 0) {
        Some(i) => {
            let bs = emu.heap_arenas@[i].blocks@;
            Some(bs[block_at(bs, addr, 0)->0].size)
        },
        None => match allocation_map(emu.maps.regions@, addr) {
            Some(j) => Some(emu.maps.regions@[j].size as usize),
            None => None,
        },
    }
}

/// Where an allocation of `size` bytes for `handle` lands: nowhere when it
/// exceeds a fixed-size heap's maximum; a dedicated map at or above the
/// threshold; else the owning arena.
pub open spec fn allocate_result(emu: Emu, handle: u64, size: u64) -> Option<u64> {
    let (idx, max) = context_of(emu.handle_management, handle);
    if max != 0 && size > max {
        None
    } else if size >= LARGE_ALLOC_THRESHOLD {
        alloc_spec(emu.maps.regions@, size)
    } else if idx < emu.heap_arenas@.len() {
        arena_alloc_spec(emu.heap_arenas@[idx as int], size as usize as int)
    } else {
        None
    }
}

/// Name of the dedicated map of an allocation at `a`.
pub open spec fn alloc_region_name(a: u64) -> Seq<char> {
    alloc_prefix() + hex(a as nat)
}

/// `n` is `o` with arena `idx` having handed out `a` for `size` bytes.
pub open spec fn arena_allocated(o: Seq<O1Heap>, n: Seq<O1Heap>, idx: int, a: u64, size: usize) -> bool {
    &&& n.len() == o.len()
    &&& 0 <= idx < o.len()
    &&& forall|j: int| 0 <= j < o.len() && j != idx ==> #[trigger] n[j] == o[j]
    &&& n[idx].base == o[idx].base
    &&& n[idx].capacity == o[idx].capacity
    &&& n[idx].next == o[idx].next + granules(size as int)
    &&& n[idx].blocks@ == o[idx].blocks@.push(HeapBlock { addr: a, size })
}

/// `n` is `o` with the allocation at `addr` released from arena `idx`.
pub open spec fn arena_freed(o: Seq<O1Heap>, n: Seq<O1Heap>, idx: int, addr: u64) -> bool {
    &&& n.len() == o.len()
    &&& 0 <= idx < o.len()
    &&& forall|j: int| 0 <= j < o.len() && j != idx ==> #[trigger] n[j] == o[j]
    &&& n[idx].base == o[idx].base
    &&& n[idx].capacity == o[idx].capacity
    &&& n[idx].next == o[idx].next
    &&& n[idx].blocks@ == o[idx].blocks@.remove(block_at(o[idx].blocks@, addr, 0)->0)
}

/// What an allocation with result `r` does to the heap state of `o`,
/// giving `n`: nothing on failure; on success the allocation is recorded
/// against the heap, and either a dedicated map of zero bytes is added or
/// the arena hands out the block.
pub open spec fn allocation_effect(o: Emu, n: Emu, handle: u64, size: u64, r: Option<u64>) -> bool {
    match r {
        None => {
            &&& n.maps.regions@ == o.maps.regions@
            &&& n.heap_arenas@ == o.heap_arenas@
            &&& n.handle_management == o.handle_management
        },
        Some(a) => {
            &&& record_effect(o.handle_management, n.handle_management, handle, HeapAllocation { addr: a, size })
            &&& size >= LARGE_ALLOC_THRESHOLD ==> {
                &&& n.maps.view_regions() == o.maps.view_regions().push(
                    RegionModel { name: alloc_region_name(a), base: a, size },
                )
                &&& n.maps.regions@.drop_last() == o.maps.regions@
                &&& n.maps.regions@.last().mem@ == zeros(size as nat)
                &&& n.heap_arenas@ == o.heap_arenas@
            }
            &&& size < LARGE_ALLOC_THRESHOLD ==> {
                &&& n.maps.regions@ == o.maps.regions@
                &&& arena_allocated(
                    o.heap_arenas@,
                    n.heap_arenas@,
                    context_of(o.handle_management, handle).0 as int,
                    a,
                    size as usize,
                )
            }
        },
    }
}

/// What freeing `addr` for `handle` (result `r`) does to the heap state of
/// `o`, giving `n`: the allocation record is forgotten; unless frees are
/// soft, an arena allocation is released from the first arena holding it
/// and a dedicated map is unmapped; an unknown pointer changes no memory.
pub open spec fn free_effect(o: Emu, n: Emu, handle: u64, addr: u64, r: bool) -> bool {
    &&& forget_effect(o.handle_management, n.handle_management, handle, addr)
    &&& o.cfg.heap_free_soft ==> r && n.maps.regions@ == o.maps.regions@ && n.heap_arenas@
        == o.heap_arenas@
    &&& !o.cfg.heap_free_soft ==> match classify_spec(o, addr) {
        HeapPtrKind::Arena => r && n.maps.regions@ == o.maps.regions@ && arena_freed(
            o.heap_arenas@,
            n.heap_arenas@,
            arena_with(o.heap_arenas@, addr, 0)->0,
            addr,
        ),
        HeapPtrKind::Mapped => r && n.heap_arenas@ == o.heap_arenas@ && match region_based_at(
            o.maps.regions@,
            addr,
            0,
        ) {
            Some(i) => n.maps.regions@ == o.maps.regions@.remove(i),
            None => n.maps.regions@ == o.maps.regions@,
        },
        HeapPtrKind::Invalid => !r && n.maps.regions@ == o.maps.regions@ && n.heap_arenas@
            == o.heap_arenas@,
    }
}

/// The parts of the state a heap operation does not touch.
pub open spec fn same_cpu_and_config(o: Emu, n: Emu) -> bool {
    &&& n.cfg == o.cfg
    &&& n.regs == o.regs
    &&& n.exceptions@ == o.exceptions@
}

/// What a pointer is: a live arena allocation, the base of a dedicated
/// `alloc_*`/`valloc_*` map, or neither.
pub fn classify(emu: &Emu, addr: u64) -> (r: HeapPtrKind)
    ensures
        r == classify_spec(*emu, addr),
{
    if find_arena(emu, addr).is_some() {
        return HeapPtrKind::Arena;
    }
    if find_allocation_map(emu, addr).is_some() {
        return HeapPtrKind::Mapped;
    }
    HeapPtrKind::Invalid
}

fn find_arena(emu: &Emu, addr: u64) -> (r: Option<usize>)
    ensures
        match arena_with(emu.heap_arenas@, addr, 0) {
            Some(i) => r is Some && r->0 as int == i && 0 <= i < emu.heap_arenas@.len(),
            None => r is None,
        },
{
    let mut i: usize = 0;
    while i < emu.heap_arenas.len()
        invariant
            i <= emu.heap_arenas@.len(),
            arena_with(emu.heap_arenas@, addr, 0) == arena_with(emu.heap_arenas@, addr, i as int),
        decreases emu.heap_arenas@.len() - i,
    {
        if emu.heap_arenas[i].check_fragment_exists(addr) {
            return Some(i);
        }
        i = i + 1;
    }
    None
}

fn find_allocation_map(emu: &Emu, addr: u64) -> (r: Option<usize>)
    ensures
        r is Some <==> allocation_map(emu.maps.regions@, addr) is Some,
        r is Some ==> emu.maps.regions@[allocation_map(emu.maps.regions@, addr)->0].size as usize
            == r->0,
{
    match emu.maps.get_mem_by_addr(addr) {
        Some(mem) => {
            if mem.base != addr {
                return None;
            }
            let name = chars_of(mem.name.as_str());
            let p1 = vec!['a', 'l', 'l', 'o', 'c', '_'];
            let p2 = vec!['v', 'a', 'l', 'l', 'o', 'c', '_'];
            assert(p1@ =~= alloc_prefix());
            assert(p2@ =~= valloc_prefix());
            if starts_with_chars(name.as_slice(), p1.as_slice()) || starts_with_chars(
                name.as_slice(),
                p2.as_slice(),
            ) {
                Some(mem.size as usize)
            } else {
                None
            }
        },
        None => None,
    }
}

/// Size of the allocation at `addr` (owning arena or dedicated map).
pub fn heap_allocation_size(emu: &Emu, addr: u64) -> (r: Option<usize>)
    ensures
        r == allocation_size_spec(*emu, addr),
{
    proof {
        lemma_arena_with(emu.heap_arenas@, addr, 0);
    }
    match find_arena(emu, addr) {
        Some(i) => emu.heap_arenas[i].allocation_size(addr),
        None => find_allocation_map(emu, addr),
    }
}

/// Allocate `size` bytes for the heap `handle` names (see
/// [`allocate_result`]): a dedicated `alloc_<hex address>` map at or above
/// [`LARGE_ALLOC_THRESHOLD`], else the owning arena (the process arena for
/// unknown handles); `None` for a fixed-size heap's oversized request, an
/// exhausted arena or no room for a map. A success is recorded against the
/// heap.
pub fn heap_allocate(emu: &mut Emu, handle: u64, size: u64) -> (r: Option<u64>)
    requires
        old(emu).wf(),
        old(emu).has_handle_room(),
    ensures
        machine_kept(*old(emu), *final(emu)),
        final(emu).wf(),
        same_cpu_and_config(*old(emu), *final(emu)),
        r == allocate_result(*old(emu), handle, size),
        allocation_effect(*old(emu), *final(emu), handle, size, r),
{
    let (arena_idx, maximum_size) = alloc_context(emu, handle);
    if maximum_size != 0 && size > maximum_size {
        return None;
    }
    if size >= LARGE_ALLOC_THRESHOLD {
        let allocation = match emu.maps.alloc_range(size) {
            Some(a) => a,
            None => {
                return None;
            },
        };
        proof {
            lemma_alloc_fresh(emu.maps.regions@, size);
        }
        let mut name_chars = vec!['a', 'l', 'l', 'o', 'c', '_'];
        push_hex(allocation, &mut name_chars);
        let name = string_from_chars(name_chars.as_slice());
        assert(name@ =~= alloc_region_name(allocation));
        let ok = emu.maps.create_map(name.as_str(), allocation, size);
        if !ok {
            return None;
        }
        emu.handle_management.record_heap_allocation(handle, allocation, size);
        return Some(allocation);
    }
    if arena_idx >= emu.heap_arenas.len() {
        return None;
    }
    let addr = match arena_allocate(emu, arena_idx, size as usize) {
        Some(a) => a,
        None => {
            return None;
        },
    };
    emu.handle_management.record_heap_allocation(handle, addr, size);
    Some(addr)
}

/// Allocate `size` bytes from arena `idx`.
pub(crate) fn arena_allocate(emu: &mut Emu, idx: usize, size: usize) -> (r: Option<u64>)
    requires
        old(emu).wf(),
        idx < old(emu).heap_arenas@.len(),
    ensures
        machine_kept(*old(emu), *final(emu)),
        final(emu).wf(),
        same_cpu_and_config(*old(emu), *final(emu)),
        final(emu).maps == old(emu).maps,
        final(emu).handle_management == old(emu).handle_management,
        r == arena_alloc_spec(old(emu).heap_arenas@[idx as int], size as int),
        match r {
            Some(a) => arena_allocated(old(emu).heap_arenas@, final(emu).heap_arenas@, idx as int, a, size),
            None => final(emu).heap_arenas@ == old(emu).heap_arenas@,
        },
{
    let ghost o = emu.heap_arenas@;
    let mut arena = emu.heap_arenas.remove(idx);
    let r = arena.allocate(size);
    emu.heap_arenas.insert(idx, arena);
    proof {
        assert forall|j: int| 0 <= j < o.len() && j != idx implies #[trigger] emu.heap_arenas@[j] == o[j] by {
            if j < idx {
                assert(o.remove(idx as int)[j] == o[j]);
            } else {
                assert(o.remove(idx as int)[j - 1] == o[j]);
            }
        }
        assert forall|j: int| 0 <= j < emu.heap_arenas@.len() implies (#[trigger] emu.heap_arenas@[j]).wf() by {
            if j != idx {
                assert(emu.heap_arenas@[j] == o[j]);
            }
        }
        if r is None {
            assert(emu.heap_arenas@ =~= o);
        }
    }
    r
}

/// Release the allocation at `addr` from arena `idx`.
pub(crate) fn arena_free(emu: &mut Emu, idx: usize, addr: u64)
    requires
        old(emu).wf(),
        idx < old(emu).heap_arenas@.len(),
        block_at(old(emu).heap_arenas@[idx as int].blocks@, addr, 0) is Some,
    ensures
        machine_kept(*old(emu), *final(emu)),
        final(emu).wf(),
        same_cpu_and_config(*old(emu), *final(emu)),
        final(emu).maps == old(emu).maps,
        final(emu).handle_management == old(emu).handle_management,
        arena_freed(old(emu).heap_arenas@, final(emu).heap_arenas@, idx as int, addr),
{
    let ghost o = emu.heap_arenas@;
    let mut arena = emu.heap_arenas.remove(idx);
    arena.free(addr);
    emu.heap_arenas.insert(idx, arena);
    proof {
        assert forall|j: int| 0 <= j < o.len() && j != idx implies #[trigger] emu.heap_arenas@[j] == o[j] by {
            if j < idx {
                assert(o.remove(idx as int)[j] == o[j]);
            } else {
                assert(o.remove(idx as int)[j - 1] == o[j]);
            }
        }
        assert forall|j: int| 0 <= j < emu.heap_arenas@.len() implies (#[trigger] emu.heap_arenas@[j]).wf() by {
            if j != idx {
                assert(emu.heap_arenas@[j] == o[j]);
            }
        }
    }
}

/// Free `addr` from its arena or dedicated map, first forgetting its
/// allocation record. With `heap_free_soft` only the record is dropped.
/// True when memory was released (or the free was soft).
pub fn heap_free(emu: &mut Emu, handle: u64, addr: u64) -> (r: bool)
    requires
        old(emu).wf(),
        old(emu).has_handle_room(),
    ensures
        machine_kept(*old(emu), *final(emu)),
        final(emu).wf(),
        same_cpu_and_config(*old(emu), *final(emu)),
        free_effect(*old(emu), *final(emu), handle, addr, r),
{
    emu.handle_management.forget_heap_allocation(handle, addr);
    if emu.cfg.heap_free_soft {
        return true;
    }
    match classify(emu, addr) {
        HeapPtrKind::Arena => {
            proof {
                lemma_arena_with(emu.heap_arenas@, addr, 0);
            }
            let i = find_arena(emu, addr).unwrap();
            arena_free(emu, i, addr);
            true
        },
        HeapPtrKind::Mapped => {
            emu.maps.dealloc(addr);
            true
        },
        HeapPtrKind::Invalid => false,
    }
}

/// Failure semantics of `HeapAlloc`/`HeapReAlloc`: with
/// `HEAP_GENERATE_EXCEPTIONS` in `flags`, raise `STATUS_NO_MEMORY`.
pub fn fail_allocation(emu: &mut Emu, flags: u64)
    ensures
        machine_kept(*old(emu), *final(emu)),
        final(emu).exceptions@ == if flags & HEAP_GENERATE_EXCEPTIONS != 0 {
            old(emu).exceptions@.push(ExceptionType::HeapNoMemory)
        } else {
            old(emu).exceptions@
        },
        final(emu).cfg == old(emu).cfg,
        final(emu).regs == old(emu).regs,
        final(emu).maps == old(emu).maps,
        final(emu).heap_arenas == old(emu).heap_arenas,
        final(emu).handle_management == old(emu).handle_management,
{
    if flags & HEAP_GENERATE_EXCEPTIONS != 0 {
        emu.exception(ExceptionType::HeapNoMemory);
    }
}

/// A whole number of granules covers the size asked for.
pub proof fn lemma_granules_cover(size: int)
    ensures
        granules(size) >= size,
{
    let s = if size < 1 {
        1
    } else {
        size
    };
    assert((s + 15) / 16 * 16 >= s) by (nonlinear_arith);
}

/// A successful allocation's block lies inside the address space, and its
/// size can be held in memory.
pub proof fn lemma_allocation_fits(emu: Emu, handle: u64, size: u64)
    requires
        emu.wf(),
        allocate_result(emu, handle, size) is Some,
    ensures
        allocate_result(emu, handle, size)->0 + size <= u64::MAX,
        size <= usize::MAX,
{
    let (idx, max) = context_of(emu.handle_management, handle);
    if size < LARGE_ALLOC_THRESHOLD {
        let a = emu.heap_arenas@[idx as int];
        assert(a.wf());
        lemma_granules_cover(size as usize as int);
    }
}

/// The heap state and memory are as they were.
pub open spec fn heap_unchanged(o: Emu, n: Emu) -> bool {
    &&& n.maps.regions@ == o.maps.regions@
    &&& n.heap_arenas@ == o.heap_arenas@
    &&& n.handle_management == o.handle_management
}

/// Only memory changed: `data` was written at `addr` (when it fit).
pub open spec fn memory_written(o: Emu, n: Emu, addr: u64, data: Seq<u8>) -> bool {
    &&& wrote(o.maps.regions@, n.maps.regions@, addr, data)
    &&& n.heap_arenas@ == o.heap_arenas@
    &&& n.handle_management == o.handle_management
    &&& same_cpu_and_config(o, n)
}

/// The heap state after freeing `addr` for `handle`, however it went.
pub open spec fn freed(o: Emu, n: Emu, handle: u64, addr: u64) -> bool {
    exists|r: bool| free_effect(o, n, handle, addr, r)
}

/// How many bytes a move of an `old_size`-byte block to `size` bytes keeps.
pub open spec fn kept_bytes(old_size: usize, size: u64) -> usize {
    if (old_size as int) < size {
        old_size
    } else {
        size as usize
    }
}

/// The bytes kept by a move can be read from the old block and written
/// whole to the new one `a`.
pub open spec fn copy_fits(m: Emu, old_ptr: u64, a: u64, copy: usize) -> bool {
    &&& bytes_at(m.maps.regions@, old_ptr, copy as int) is Some
    &&& span(m.maps.regions@, a, copy as int) is Some
}

/// A move of the `old_size`-byte block at `old_ptr` to the fresh block `a`
/// of `size` bytes, through the states `m1` (`a` allocated), `m2` (the
/// kept bytes copied), `m3` (with `HEAP_ZERO_MEMORY`, the grown tail
/// zeroed) to `n` (the old block freed).
pub open spec fn move_steps(
    o: Emu,
    m1: Emu,
    m2: Emu,
    m3: Emu,
    n: Emu,
    handle: u64,
    flags: u64,
    old_ptr: u64,
    old_size: usize,
    size: u64,
    a: u64,
) -> bool {
    let copy = kept_bytes(old_size, size);
    &&& allocation_effect(o, m1, handle, size, Some(a))
    &&& m1.cfg == o.cfg
    &&& copy_fits(m1, old_ptr, a, copy)
    &&& memory_written(m1, m2, a, bytes_at(m1.maps.regions@, old_ptr, copy as int)->0)
    &&& if flags & HEAP_ZERO_MEMORY != 0 && size > old_size {
        memory_written(m2, m3, (a + old_size) as u64, zeros((size - old_size) as nat))
    } else {
        m3 == m2
    }
    &&& freed(m3, n, handle, old_ptr)
}

/// A move whose copy could not be made: the fresh block `a` (state `m1`)
/// is freed again, giving `n`.
pub open spec fn failed_move_steps(
    o: Emu,
    m1: Emu,
    n: Emu,
    handle: u64,
    old_ptr: u64,
    old_size: usize,
    size: u64,
    a: u64,
) -> bool {
    &&& allocation_effect(o, m1, handle, size, Some(a))
    &&& m1.cfg == o.cfg
    &&& !copy_fits(m1, old_ptr, a, kept_bytes(old_size, size))
    &&& freed(m1, n, handle, a)
}

/// What reallocating the block at `old_ptr` to `size` bytes for `handle`
/// with `flags` returns (`r`) and does to `o`, giving `n`:
/// - an unknown block: 0, nothing changes;
/// - with `HEAP_REALLOC_IN_PLACE_ONLY`: the block itself when it is big
///   enough, else 0 (a failure); nothing else changes;
/// - else a fresh block is allocated (failing as an allocation fails), the
///   kept bytes copied into it, with `HEAP_ZERO_MEMORY` its grown tail
///   zeroed, and the old block freed; the fresh block is returned. When
///   the copy cannot be made, the fresh block is freed and it fails.
/// A failure raises `STATUS_NO_MEMORY` when the flags ask for it.
pub open spec fn realloc_outcome(o: Emu, n: Emu, handle: u64, flags: u64, old_ptr: u64, size: u64, r: u64) -> bool {
    let failed = n.exceptions@ == exceptions_on_failure(o.exceptions@, flags);
    &&& n.cfg == o.cfg
    &&& match allocation_size_spec(o, old_ptr) {
        None => r == 0 && heap_unchanged(o, n) && n.exceptions@ == o.exceptions@,
        Some(old_size) => if flags & HEAP_REALLOC_IN_PLACE_ONLY != 0 {
            &&& heap_unchanged(o, n)
            &&& if size <= old_size {
                r == old_ptr && n.exceptions@ == o.exceptions@
            } else {
                r == 0 && failed
            }
        } else {
            match allocate_result(o, handle, size) {
                None => r == 0 && heap_unchanged(o, n) && failed,
                Some(a) => {
                    ||| r == a && n.exceptions@ == o.exceptions@ && exists|m1: Emu, m2: Emu, m3: Emu|
                        #[trigger] move_steps(o, m1, m2, m3, n, handle, flags, old_ptr, old_size, size, a)
                    ||| r == 0 && failed && exists|m1: Emu|
                        #[trigger] failed_move_steps(o, m1, n, handle, old_ptr, old_size, size, a)
                },
            }
        },
    }
}

/// The exceptions after a failed allocation made with `flags`.
pub open spec fn exceptions_on_failure(old: Seq<ExceptionType>, flags: u64) -> Seq<ExceptionType> {
    if flags & HEAP_GENERATE_EXCEPTIONS != 0 {
        old.push(ExceptionType::HeapNoMemory)
    } else {
        old
    }
}

/// Reallocate the block at `old_ptr` to `size` bytes for the heap
/// `handle` names (see [`realloc_outcome`]); returns the block's address,
/// or 0 on failure.
pub fn heap_reallocate(emu: &mut Emu, handle: u64, flags: u64, old_ptr: u64, size: u64) -> (r: u64)
    requires
        old(emu).wf(),
        old(emu).handle_management.has_room(3),
    ensures
        machine_kept(*old(emu), *final(emu)),
        final(emu).wf(),
        final(emu).regs == old(emu).regs,
        realloc_outcome(*old(emu), *final(emu), handle, flags, old_ptr, size, r),
{
    let ghost o = *emu;
    let old_size = match heap_allocation_size(emu, old_ptr) {
        Some(s) => s,
        None => {
            return 0;
        },
    };
    if (flags & HEAP_REALLOC_IN_PLACE_ONLY) != 0 {
        if size <= old_size as u64 {
            return old_ptr;
        }
        fail_allocation(emu, flags);
        return 0;
    }
    let new_addr = match heap_allocate(emu, handle, size) {
        Some(a) => a,
        None => {
            fail_allocation(emu, flags);
            return 0;
        },
    };
    let ghost m1 = *emu;
    proof {
        lemma_allocation_fits(o, handle, size);
        lemma_record_adds_at_most_one(
            o.handle_management,
            m1.handle_management,
            handle,
            HeapAllocation { addr: new_addr, size },
        );
    }
    let copy_size: usize = if old_size < size as usize {
        old_size
    } else {
        size as usize
    };
    assert(copy_size == kept_bytes(old_size, size));
    proof {
        lemma_bytes_at_len(m1.maps.regions@, old_ptr, copy_size as int);
    }
    if !emu.maps.memcpy(new_addr, old_ptr, copy_size) {
        let ghost before_free = *emu;
        assert(!copy_fits(m1, old_ptr, new_addr, copy_size));
        assert(before_free.maps.regions@ == m1.maps.regions@);
        let freed_new = heap_free(emu, handle, new_addr);
        assert(free_effect(m1, *emu, handle, new_addr, freed_new));
        fail_allocation(emu, flags);
        assert(free_effect(m1, *emu, handle, new_addr, freed_new));
        assert(failed_move_steps(o, m1, *emu, handle, old_ptr, old_size, size, new_addr));
        return 0;
    }
    let ghost m2 = *emu;
    assert(memory_written(m1, m2, new_addr, bytes_at(m1.maps.regions@, old_ptr, copy_size as int)->0));
    if (flags & HEAP_ZERO_MEMORY) != 0 && (size as usize) > old_size {
        let zero_start = new_addr + old_size as u64;
        let zero_size = (size as usize) - old_size;
        let _ = emu.maps.memset(zero_start, 0, zero_size);
        assert(Seq::new(zero_size as nat, |_k: int| 0u8) =~= zeros((size - old_size) as nat));
    }
    let ghost m3 = *emu;
    if !emu.cfg.heap_free_soft {
        let freed_old = heap_free(emu, handle, old_ptr);
        assert(free_effect(m3, *emu, handle, old_ptr, freed_old));
    } else {
        emu.handle_management.forget_heap_allocation(handle, old_ptr);
        assert(free_effect(m3, *emu, handle, old_ptr, true));
    }
    assert(move_steps(o, m1, m2, m3, *emu, handle, flags, old_ptr, old_size, size, new_addr));
    new_addr
}

/// A reallocation's outcome speaks only of the configuration, memory, heap
/// state and exceptions, never of the registers: states that agree with
/// `o` and `n` on those have the same outcome.
pub proof fn lemma_realloc_outcome_keeps(
    o: Emu,
    n: Emu,
    o2: Emu,
    n2: Emu,
    handle: u64,
    flags: u64,
    old_ptr: u64,
    size: u64,
    r: u64,
)
    requires
        realloc_outcome(o, n, handle, flags, old_ptr, size, r),
        o2.cfg == o.cfg,
        o2.maps.regions@ == o.maps.regions@,
        o2.heap_arenas@ == o.heap_arenas@,
        o2.handle_management == o.handle_management,
        o2.exceptions@ == o.exceptions@,
        n2.cfg == n.cfg,
        n2.maps.regions@ == n.maps.regions@,
        n2.heap_arenas@ == n.heap_arenas@,
        n2.handle_management == n.handle_management,
        n2.exceptions@ == n.exceptions@,
    ensures
        realloc_outcome(o2, n2, handle, flags, old_ptr, size, r),
{
    assert(o2.maps.view_regions() == o.maps.view_regions());
    assert(allocation_size_spec(o2, old_ptr) == allocation_size_spec(o, old_ptr));
    assert(allocate_result(o2, handle, size) == allocate_result(o, handle, size));
    if let Some(old_size) = allocation_size_spec(o, old_ptr) {
        if flags & HEAP_REALLOC_IN_PLACE_ONLY == 0 {
            if let Some(a) = allocate_result(o, handle, size) {
                if r == a && n.exceptions@ == o.exceptions@ && exists|m1: Emu, m2: Emu, m3: Emu|
                    #[trigger] move_steps(o, m1, m2, m3, n, handle, flags, old_ptr, old_size, size, a) {
                    let (m1, m2, m3) = choose|m1: Emu, m2: Emu, m3: Emu|
                        #[trigger] move_steps(o, m1, m2, m3, n, handle, flags, old_ptr, old_size, size, a);
                    let fr = choose|fr: bool| free_effect(m3, n, handle, old_ptr, fr);
                    assert(free_effect(m3, n2, handle, old_ptr, fr));
                    assert(allocation_effect(o2, m1, handle, size, Some(a)));
                    assert(move_steps(o2, m1, m2, m3, n2, handle, flags, old_ptr, old_size, size, a));
                } else {
                    let m1 = choose|m1: Emu| #[trigger] failed_move_steps(o, m1, n, handle, old_ptr, old_size, size, a);
                    let fr = choose|fr: bool| free_effect(m1, n, handle, a, fr);
                    assert(free_effect(m1, n2, handle, a, fr));
                    assert(allocation_effect(o2, m1, handle, size, Some(a)));
                    assert(failed_move_steps(o2, m1, n2, handle, old_ptr, old_size, size, a));
                }
            }
        }
    }
}

proof fn lemma_block_at_push(bs: Seq<HeapBlock>, x: HeapBlock, addr: u64, k: int)
    requires
        block_at(bs, addr, k) is Some,
    ensures
        block_at(bs.push(x), addr, k) is Some,
    decreases bs.len() - k,
{
    if 0 <= k < bs.len() {
        assert(bs.push(x)[k] == bs[k]);
        if bs[k].addr != addr {
            lemma_block_at_push(bs, x, addr, k + 1);
        }
    }
}

/// An arena handing out a block keeps every live block live.
proof fn lemma_arena_with_after_allocation(o: Seq<O1Heap>, n: Seq<O1Heap>, idx: int, a: u64, size: usize, addr: u64, k: int)
    requires
        arena_allocated(o, n, idx, a, size),
        arena_with(o, addr, k) is Some,
        k >= 0,
    ensures
        arena_with(n, addr, k) is Some,
    decreases o.len() - k,
{
    if k < o.len() {
        if block_at(o[k].blocks@, addr, 0) is Some {
            if k == idx {
                lemma_block_at_push(o[k].blocks@, HeapBlock { addr: a, size }, addr, 0);
            } else {
                assert(n[k] == o[k]);
            }
        } else {
            lemma_arena_with_after_allocation(o, n, idx, a, size, addr, k + 1);
            if k != idx {
                assert(n[k] == o[k]);
            }
            if k == idx && block_at(n[k].blocks@, addr, 0) is Some {
            }
        }
    }
}

/// A reallocation that moves a block of the arenas keeps its bytes: after
/// a successful move, the first `kept_bytes(old_size, size)` bytes of the
/// new block are the bytes the old block held.
pub proof fn law_realloc_keeps_contents(
    o: Emu,
    m1: Emu,
    m2: Emu,
    m3: Emu,
    n: Emu,
    handle: u64,
    flags: u64,
    old_ptr: u64,
    old_size: usize,
    size: u64,
    a: u64,
)
    requires
        o.wf(),
        m1.wf(),
        m2.wf(),
        m3.wf(),
        classify_spec(o, old_ptr) == HeapPtrKind::Arena,
        allocate_result(o, handle, size) == Some(a),
        move_steps(o, m1, m2, m3, n, handle, flags, old_ptr, old_size, size, a),
        bytes_at(o.maps.regions@, old_ptr, kept_bytes(old_size, size) as int) is Some,
    ensures
        bytes_at(n.maps.regions@, a, kept_bytes(old_size, size) as int) == bytes_at(
            o.maps.regions@,
            old_ptr,
            kept_bytes(old_size, size) as int,
        ),
{
    let kept = kept_bytes(old_size, size) as int;
    let before = bytes_at(o.maps.regions@, old_ptr, kept);
    // The fresh block leaves the old block's bytes where they were.
    if size >= LARGE_ALLOC_THRESHOLD {
        let rs = o.maps.regions@;
        assert(m1.maps.regions@ =~= rs.push(m1.maps.regions@.last()));
        crate::memory::lemma_bytes_at_push(rs, m1.maps.regions@.last(), old_ptr, kept);
    }
    assert(bytes_at(m1.maps.regions@, old_ptr, kept) == before);
    // The copy puts them at the new block.
    let b = before->0;
    lemma_bytes_at_len(m1.maps.regions@, old_ptr, kept);
    crate::memory::law_read_after_write(m1.maps.regions@, m2.maps.regions@, a, b);
    assert(bytes_at(m2.maps.regions@, a, kept) == before);
    // Zeroing the grown tail writes past them.
    lemma_allocation_fits(o, handle, size);
    if flags & HEAP_ZERO_MEMORY != 0 && size > old_size {
        crate::memory::lemma_write_after_span(
            m2.maps.regions@,
            m3.maps.regions@,
            (a + old_size) as u64,
            zeros((size - old_size) as nat),
            a,
            kept,
        );
    }
    assert(bytes_at(m3.maps.regions@, a, kept) == before);
    // Freeing an arena block unmaps nothing.
    assert(arena_with(m3.heap_arenas@, old_ptr, 0) is Some) by {
        if size < LARGE_ALLOC_THRESHOLD {
            lemma_arena_with_after_allocation(
                o.heap_arenas@,
                m1.heap_arenas@,
                context_of(o.handle_management, handle).0 as int,
                a,
                size as usize,
                old_ptr,
                0,
            );
        }
    }
    assert(classify_spec(m3, old_ptr) == HeapPtrKind::Arena);
    assert(n.maps.regions@ == m3.maps.regions@);
}

} // verus!
