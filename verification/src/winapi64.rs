//! The 64-bit kernel32 and ntdll heap APIs: each reads its arguments from
//! the Windows x64 argument registers (`rcx`, `rdx`, `r8`, `r9`), works on
//! the emulator state and returns its result in `rax`.

#![allow(non_snake_case)]

use vstd::prelude::*;
use vstd::utf8::encode_utf8;
use crate::emu::{
    machine_kept,
    Mem64, arena_alloc_spec, arena_map_name, new_arena_base, with_rax, Emu, ExceptionType, RegionModel, Regs64,
    HEAP_ARENA_SIZE,
};
use crate::heap::{
    address_or_zero, allocate_result, allocation_effect, allocation_size_spec, arena_allocate,
    arena_allocated, exceptions_after, exceptions_on_failure, fail_allocation, free_effect,
    heap_allocate, heap_allocation_size, heap_free, heap_reallocate, heap_unchanged, padded,
    realloc_outcome, lemma_realloc_outcome_keeps, HEAP_GENERATE_EXCEPTIONS,
};
use crate::memory::{
    le_bytes, lemma_write_chain_push, utf16le, values_written, write_chain, wrote,
};
use crate::handles::{forget_effect, fresh_process_heap};
use crate::heap_handle::HeapHandle;
use crate::text::str_eq;

verus! {

/// ntdll pads smaller `RtlAllocateHeap` requests to this size.
pub const RTL_MIN_ALLOCATION: u64 = 1024;

/// The allocation the heap allocators share: allocate `size` bytes for
/// `handle`; on failure raise as `flags` ask and return 0.
fn allocate_or_fail(emu: &mut Emu, handle: u64, flags: u64, size: u64)
    requires
        old(emu).wf(),
        old(emu).has_handle_room(),
    ensures
        machine_kept(*old(emu), *final(emu)),
        final(emu).wf(),
        final(emu).cfg == old(emu).cfg,
        allocation_effect(*old(emu), *final(emu), handle, size, allocate_result(*old(emu), handle, size)),
        final(emu).regs == with_rax(old(emu).regs, address_or_zero(allocate_result(*old(emu), handle, size))),
        final(emu).exceptions@ == exceptions_after(old(emu).exceptions@, allocate_result(*old(emu), handle, size), flags),
{
    match heap_allocate(emu, handle, size) {
        Some(heap_addr) => {
            emu.regs.rax = heap_addr;
        },
        None => {
            fail_allocation(emu, flags);
            emu.regs.rax = 0;
        },
    }
}

/// `kernel32!HeapAlloc(hHeap = rcx, dwFlags = rdx, dwBytes = r8)`: the
/// request is padded to `cfg.heap_alloc_min_size`, then allocated from the
/// heap the handle names; `rax` is the address, or 0 on failure (raising
/// `STATUS_NO_MEMORY` when the flags ask for it).
pub fn HeapAlloc(emu: &mut Emu)
    requires
        old(emu).wf(),
        old(emu).has_handle_room(),
    ensures
        machine_kept(*old(emu), *final(emu)),
        final(emu).wf(),
        final(emu).cfg == old(emu).cfg,
        ({
            let size = padded(old(emu).regs.r8, old(emu).cfg.heap_alloc_min_size);
            let r = allocate_result(*old(emu), old(emu).regs.rcx, size);
            &&& allocation_effect(*old(emu), *final(emu), old(emu).regs.rcx, size, r)
            &&& final(emu).regs == with_rax(old(emu).regs, address_or_zero(r))
            &&& final(emu).exceptions@ == exceptions_after(old(emu).exceptions@, r, old(emu).regs.rdx)
        }),
{
    let hndl = emu.regs().rcx;
    let flags = emu.regs().rdx;
    let mut size = emu.regs().r8;
    // Apply minimum padding.
    if size < emu.cfg.heap_alloc_min_size {
        size = emu.cfg.heap_alloc_min_size;
    }
    allocate_or_fail(emu, hndl, flags, size);
}

/// `kernel32!LocalAlloc(uFlags = rcx, uBytes = rdx)`: the same as
/// `HeapAlloc(GetProcessHeap(), uFlags, uBytes)`, the arguments moved into
/// place (`rcx` = 0, `rdx` = flags, `r8` = size) first.
pub fn LocalAlloc(emu: &mut Emu)
    requires
        old(emu).wf(),
        old(emu).has_handle_room(),
    ensures
        machine_kept(*old(emu), *final(emu)),
        final(emu).wf(),
        final(emu).cfg == old(emu).cfg,
        ({
            let size = padded(old(emu).regs.rdx, old(emu).cfg.heap_alloc_min_size);
            let r = allocate_result(*old(emu), 0, size);
            let moved = Regs64 { rcx: 0, rdx: old(emu).regs.rcx, r8: old(emu).regs.rdx, ..old(emu).regs };
            &&& allocation_effect(*old(emu), *final(emu), 0, size, r)
            &&& final(emu).regs == with_rax(moved, address_or_zero(r))
            &&& final(emu).exceptions@ == exceptions_after(old(emu).exceptions@, r, old(emu).regs.rcx)
        }),
{
    let flags = emu.regs().rcx;
    let size = emu.regs().rdx;
    emu.regs.rcx = 0;
    emu.regs.rdx = flags;
    emu.regs.r8 = size;
    HeapAlloc(emu);
}

/// What `RtlAllocateHeap` does to `o`, giving `n` (see [`RtlAllocateHeap`]).
pub open spec fn rtl_allocate_heap_effect(o: Emu, n: Emu) -> bool {
    let size = padded(o.regs.r8, RTL_MIN_ALLOCATION);
    let r = allocate_result(o, o.regs.rcx, size);
    &&& machine_kept(o, n)
    &&& n.wf()
    &&& n.cfg == o.cfg
    &&& allocation_effect(o, n, o.regs.rcx, size, r)
    &&& n.regs == with_rax(o.regs, address_or_zero(r))
    &&& n.exceptions@ == exceptions_after(o.exceptions@, r, o.regs.rdx)
}

/// `ntdll!RtlAllocateHeap(HeapHandle = rcx, Flags = rdx, Size = r8)`:
/// requests under 1024 bytes are bumped to 1024, then allocated as
/// `HeapAlloc` does.
pub fn RtlAllocateHeap(emu: &mut Emu)
    requires
        old(emu).wf(),
        old(emu).has_handle_room(),
    ensures
        rtl_allocate_heap_effect(*old(emu), *final(emu)),
{
    let handle = emu.regs().rcx;
    let flags = emu.regs().rdx;
    let mut size = emu.regs().r8;
    if size < RTL_MIN_ALLOCATION {
        size = RTL_MIN_ALLOCATION;
    }
    allocate_or_fail(emu, handle, flags, size);
}

/// `kernel32!HeapFree(hHeap = rcx, dwFlags = rdx, lpMem = r8)`: frees the
/// block (see [`heap_free`]); `rax` is always 1.
pub fn HeapFree(emu: &mut Emu)
    requires
        old(emu).wf(),
        old(emu).has_handle_room(),
    ensures
        machine_kept(*old(emu), *final(emu)),
        final(emu).wf(),
        final(emu).cfg == old(emu).cfg,
        final(emu).exceptions@ == old(emu).exceptions@,
        final(emu).regs == with_rax(old(emu).regs, 1),
        exists|r: bool| free_effect(*old(emu), *final(emu), old(emu).regs.rcx, old(emu).regs.r8, r),
{
    let heap = emu.regs().rcx;
    let mem = emu.regs().r8;
    let r = heap_free(emu, heap, mem);
    emu.regs.rax = 1;
    assert(free_effect(*old(emu), *emu, heap, mem, r));
}

/// What `RtlFreeHeap` does to `o`, giving `n` (see [`RtlFreeHeap`]).
pub open spec fn rtl_free_heap_effect(o: Emu, n: Emu) -> bool {
    let hndl = o.regs.rcx;
    let base = o.regs.r8;
    &&& machine_kept(o, n)
    &&& n.wf()
    &&& n.cfg == o.cfg
    &&& n.exceptions@ == o.exceptions@
    &&& if base != 0 && allocation_size_spec(o, base) is Some {
        &&& n.regs == with_rax(o.regs, 1)
        &&& exists|r: bool| free_effect(o, n, hndl, base, r)
    } else {
        &&& n.regs == with_rax(o.regs, 0)
        &&& n.maps.regions@ == o.maps.regions@
        &&& n.heap_arenas@ == o.heap_arenas@
        &&& base != 0 ==> forget_effect(o.handle_management, n.handle_management, hndl, base)
        &&& base == 0 ==> n.handle_management == o.handle_management
    }
}

/// `ntdll!RtlFreeHeap(HeapHandle = rcx, Flags = rdx, BaseAddress = r8)`:
/// a block the heaps know (it has an allocation size) is freed and `rax`
/// is 1; otherwise only its allocation record (if any) is dropped and
/// `rax` is 0.
pub fn RtlFreeHeap(emu: &mut Emu)
    requires
        old(emu).wf(),
        old(emu).has_handle_room(),
    ensures
        rtl_free_heap_effect(*old(emu), *final(emu)),
{
    let hndl = emu.regs().rcx;
    let base_addr = emu.regs().r8;
    if base_addr != 0 && heap_allocation_size(emu, base_addr).is_some() {
        let r = heap_free(emu, hndl, base_addr);
        emu.regs.rax = 1;
        assert(free_effect(*old(emu), *emu, hndl, base_addr, r));
    } else {
        if base_addr != 0 {
            emu.handle_management.forget_heap_allocation(hndl, base_addr);
        }
        emu.regs.rax = 0;
    }
}

/// `kernel32!HeapCreate(flOptions = rcx, dwInitialSize = rdx,
/// dwMaximumSize = r8)`: a new arena and a new heap object bound to it;
/// `rax` is the new handle (its table key).
pub fn HeapCreate(emu: &mut Emu)
    requires
        old(emu).wf(),
        old(emu).has_handle_room(),
    ensures
        machine_kept(*old(emu), *final(emu)),
        final(emu).wf(),
        final(emu).cfg == old(emu).cfg,
        final(emu).exceptions@ == old(emu).exceptions@,
        final(emu).heap_arenas@.len() == old(emu).heap_arenas@.len() + 1,
        forall|i: int|
            0 <= i < old(emu).heap_arenas@.len() ==> #[trigger] final(emu).heap_arenas@[i]
                == old(emu).heap_arenas@[i],
        final(emu).handle_management.process_key() == old(emu).handle_management.process_key(),
        exists|k: usize|
            {
                &&& !old(emu).handle_management.entries().contains_key(k)
                &&& final(emu).handle_management.entries() == old(emu).handle_management.entries().insert(
                    k,
                    final(emu).handle_management.entries()[k],
                )
                &&& final(emu).handle_management.entries()[k].opts == old(emu).regs.rcx as u32
                &&& final(emu).handle_management.entries()[k].initial_size == old(emu).regs.rdx
                &&& final(emu).handle_management.entries()[k].maximum_size == old(emu).regs.r8
                &&& final(emu).handle_management.entries()[k].arena == old(emu).heap_arenas@.len()
                &&& final(emu).handle_management.entries()[k].allocations@.len() == 0
                &&& k <= u32::MAX
                &&& final(emu).regs == with_rax(old(emu).regs, k as u64)
            },
{
    let opts = emu.regs().rcx as u32;
    let init_sz = emu.regs().rdx;
    let max_sz = emu.regs().r8;
    let arena = emu.create_heap_arena();
    let key = emu.handle_management.insert_heap_handle(HeapHandle::new(opts, init_sz, max_sz, arena));
    emu.regs.rax = key as u64;
}

/// `kernel32!HeapDestroy(hHeap = rcx)`: removes the heap object; `rax` is
/// 1 on success, 0 for a handle that is zero, too wide, the process heap
/// (which cannot be destroyed) or not a live handle.
pub fn HeapDestroy(emu: &mut Emu)
    requires
        old(emu).wf(),
    ensures
        machine_kept(*old(emu), *final(emu)),
        final(emu).wf(),
        final(emu).cfg == old(emu).cfg,
        final(emu).exceptions@ == old(emu).exceptions@,
        final(emu).maps == old(emu).maps,
        final(emu).heap_arenas == old(emu).heap_arenas,
        final(emu).handle_management.process_key() == old(emu).handle_management.process_key(),
        ({
            let h = old(emu).regs.rcx;
            let hm = old(emu).handle_management;
            if h == 0 || h > u32::MAX || hm.process_key() == Some(h as u32) {
                &&& final(emu).regs == with_rax(old(emu).regs, 0)
                &&& final(emu).handle_management == hm
            } else {
                &&& final(emu).handle_management.entries() == hm.entries().remove(h as usize)
                &&& final(emu).regs == with_rax(
                    old(emu).regs,
                    if hm.entries().contains_key(h as usize) {
                        1
                    } else {
                        0
                    },
                )
            }
        }),
{
    let hndl = emu.regs().rcx;
    if hndl == 0 || hndl > 0xFFFF_FFFF {
        emu.regs.rax = 0;
        return;
    }
    let key = hndl as u32;
    if emu.handle_management.is_process_heap(key) {
        emu.regs.rax = 0;
        return;
    }
    match emu.handle_management.remove_heap_handle(key) {
        Some(_) => emu.regs.rax = 1,
        None => emu.regs.rax = 0,
    }
}

/// `kernel32!HeapSetInformation`: accepted and ignored; `rax` is 1.
pub fn HeapSetInformation(emu: &mut Emu)
    ensures
        machine_kept(*old(emu), *final(emu)),
        final(emu).cfg == old(emu).cfg,
        final(emu).maps == old(emu).maps,
        final(emu).heap_arenas == old(emu).heap_arenas,
        final(emu).handle_management == old(emu).handle_management,
        final(emu).exceptions == old(emu).exceptions,
        final(emu).regs == with_rax(old(emu).regs, 1),
{
    emu.regs.rax = 1;
}

/// What `GetProcessHeap` does to `o`, giving `n` (see [`GetProcessHeap`]).
pub open spec fn get_process_heap_effect(o: Emu, n: Emu) -> bool {
    &&& machine_kept(o, n)
    &&& n.wf()
    &&& n.cfg == o.cfg
    &&& n.maps == o.maps
    &&& n.heap_arenas == o.heap_arenas
    &&& n.exceptions == o.exceptions
    &&& o.handle_management.process_heap_live() ==> {
        &&& n.regs == with_rax(o.regs, o.handle_management.process_key()->0 as u64)
        &&& n.handle_management.entries() == o.handle_management.entries()
        &&& n.handle_management.process_key() == o.handle_management.process_key()
    }
    &&& !o.handle_management.process_heap_live() ==> exists|k: usize|
        {
            &&& !o.handle_management.entries().contains_key(k)
            &&& n.handle_management.entries() == o.handle_management.entries().insert(
                k,
                n.handle_management.entries()[k],
            )
            &&& fresh_process_heap(n.handle_management.entries()[k])
            &&& n.handle_management.process_key() == Some(k as u32)
            &&& n.regs == with_rax(o.regs, k as u32 as u64)
        }
}

/// `kernel32!GetProcessHeap`: `rax` is the process heap's handle, the heap
/// being created (bound to arena 0) on first use.
pub fn GetProcessHeap(emu: &mut Emu)
    requires
        old(emu).wf(),
        old(emu).has_handle_room(),
    ensures
        get_process_heap_effect(*old(emu), *final(emu)),
{
    let key = emu.handle_management.get_or_insert_process_heap();
    emu.regs.rax = key as u64;
}

/// Asking for the process heap twice gives the same handle, the second
/// time creating nothing. The handle names the process heap; when the
/// first call created it, it is a fresh heap (no options, no sizes,
/// arena 0, no allocations).
pub proof fn law_process_heap_stable(o: Emu, m: Emu, n: Emu)
    requires
        get_process_heap_effect(o, m),
        get_process_heap_effect(m, n),
    ensures
        m.regs.rax <= u32::MAX,
        m.handle_management.process_key() == Some(m.regs.rax as u32),
        m.handle_management.process_heap_live(),
        !o.handle_management.process_heap_live() ==> fresh_process_heap(
            m.handle_management.entries()[m.regs.rax as usize],
        ),
        n.regs.rax == m.regs.rax,
        n.handle_management.entries() == m.handle_management.entries(),
        n.handle_management.process_key() == m.handle_management.process_key(),
{
    if !o.handle_management.process_heap_live() {
        let k = choose|k: usize|
            {
                &&& !o.handle_management.entries().contains_key(k)
                &&& m.handle_management.entries() == o.handle_management.entries().insert(
                    k,
                    m.handle_management.entries()[k],
                )
                &&& fresh_process_heap(m.handle_management.entries()[k])
                &&& m.handle_management.process_key() == Some(k as u32)
                &&& m.regs == with_rax(o.regs, k as u32 as u64)
            };
        assert(m.handle_management.entries().contains_key(k));
        assert(k < m.handle_management.slot_count());
        assert(k as u32 as usize == k);
    }
    assert(m.handle_management.process_heap_live());
}

/// What `RtlReAllocateHeap` does to `o`, giving `n` (see
/// [`RtlReAllocateHeap`]).
pub open spec fn rtl_reallocate_heap_effect(o: Emu, n: Emu) -> bool {
    let handle = o.regs.rcx;
    let flags = o.regs.rdx;
    let old_ptr = o.regs.r8;
    let new_size = o.regs.r9;
    &&& machine_kept(o, n)
    &&& n.wf()
    &&& n.regs == with_rax(o.regs, n.regs.rax)
    &&& if old_ptr == 0 || new_size == 0 {
        &&& n.regs.rax == 0
        &&& heap_unchanged(o, n)
        &&& n.cfg == o.cfg
        &&& n.exceptions@ == exceptions_on_failure(o.exceptions@, flags)
    } else {
        realloc_outcome(o, n, handle, flags, old_ptr, new_size, n.regs.rax)
    }
}

/// `ntdll!RtlReAllocateHeap(HeapHandle = rcx, Flags = rdx, BaseAddress =
/// r8, Size = r9)`: a null block or a zero size fails at once (raising as
/// the flags ask); otherwise the block is reallocated (see
/// [`realloc_outcome`]). `rax` is the block's address, or 0.
pub fn RtlReAllocateHeap(emu: &mut Emu)
    requires
        old(emu).wf(),
        old(emu).handle_management.has_room(3),
    ensures
        rtl_reallocate_heap_effect(*old(emu), *final(emu)),
{
    let handle = emu.regs().rcx;
    let flags = emu.regs().rdx;
    let old_ptr = emu.regs().r8;
    let new_size = emu.regs().r9;
    if old_ptr == 0 || new_size == 0 {
        fail_allocation(emu, flags);
        emu.regs.rax = 0;
        return;
    }
    let ghost o = *emu;
    let r = heap_reallocate(emu, handle, flags, old_ptr, new_size);
    let ghost mid = *emu;
    emu.regs.rax = r;
    proof {
        lemma_realloc_outcome_keeps(o, mid, o, *emu, handle, flags, old_ptr, new_size, r);
    }
}

/// The handles `RtlGetProcessHeaps` writes to its buffer fit below the top
/// of the address space (or there is no buffer).
pub open spec fn process_heaps_fit(o: Emu) -> bool {
    o.regs.rdx == 0 || o.regs.rdx + (if (o.regs.rcx as int) < o.handle_management.heap_key_count() {
        o.regs.rcx as int
    } else {
        o.handle_management.heap_key_count() as int
    }) * 8 <= u64::MAX
}

/// What `RtlGetProcessHeaps` does to `o`, giving `n` (see
/// [`RtlGetProcessHeaps`]).
pub open spec fn rtl_get_process_heaps_effect(o: Emu, n: Emu) -> bool {
    &&& machine_kept(o, n)
    &&& n.wf()
    &&& n.cfg == o.cfg
    &&& n.heap_arenas == o.heap_arenas
    &&& n.handle_management == o.handle_management
    &&& n.exceptions == o.exceptions
    &&& exists|ks: Seq<usize>, keys: Seq<u32>|
        #[trigger] o.handle_management.keys_listed(ks, keys) && {
            let count = o.regs.rcx;
            let buffer = o.regs.rdx;
            let total = keys.len();
            if buffer == 0 {
                &&& n.maps.regions@ == o.maps.regions@
                &&& n.regs == with_rax(o.regs, total as u64)
            } else {
                let w = if (count as int) < total {
                    count as int
                } else {
                    total as int
                };
                &&& values_written(
                    o.maps.regions@,
                    n.maps.regions@,
                    buffer,
                    keys.take(w).map_values(|k: u32| k as u64),
                    8,
                )
                &&& n.regs == with_rax(o.regs, if w < count { 0 } else { w as u64 })
            }
        }
}

/// `ntdll!RtlGetProcessHeaps(NumberOfHeaps = rcx, ProcessHeaps = rdx)`: with
/// no buffer, `rax` is the number of heaps; else the first
/// `min(NumberOfHeaps, heaps)` heap handles (process heap first) are
/// written to the buffer as qwords, and `rax` is that number, or 0 when
/// the buffer had room for more handles than there are heaps.
pub fn RtlGetProcessHeaps(emu: &mut Emu)
    requires
        old(emu).wf(),
        process_heaps_fit(*old(emu)),
    ensures
        rtl_get_process_heaps_effect(*old(emu), *final(emu)),
{
    let count = emu.regs().rcx;
    let buffer = emu.regs().rdx;
    let keys = emu.handle_management.heap_handle_keys();
    let total = keys.len() as u64;
    let ghost ks = choose|ks: Seq<usize>| emu.handle_management.keys_listed(ks, keys@);
    if buffer == 0 {
        emu.regs.rax = total;
        assert(old(emu).handle_management.keys_listed(ks, keys@));
        return;
    }
    let to_write = if count < total {
        count
    } else {
        total
    };
    let ghost o = emu.maps.regions@;
    let ghost vals = keys@.take(to_write as int).map_values(|k: u32| k as u64);
    let ghost mut steps: Seq<Seq<Mem64>> = seq![o];
    let mut i: usize = 0;
    assert(vals.take(0) =~= Seq::<u64>::empty());
    while i < to_write as usize
        invariant
            emu.maps.wf(),
            i <= to_write,
            to_write <= keys@.len(),
            vals == keys@.take(to_write as int).map_values(|k: u32| k as u64),
            buffer + to_write * 8 <= u64::MAX,
            write_chain(steps, buffer, vals.take(i as int), 8),
            steps[0] == o,
            steps.last() == emu.maps.regions@,
            emu.cfg == old(emu).cfg,
            emu.regs == old(emu).regs,
            emu.heap_arenas == old(emu).heap_arenas,
            emu.handle_management == old(emu).handle_management,
            emu.exceptions == old(emu).exceptions,
            machine_kept(*old(emu), *emu),
        decreases to_write - i,
    {
        let ghost before = emu.maps.regions@;
        let at = buffer + (i as u64) * 8;
        let v = keys[i] as u64;
        let _ = emu.maps.write_qword(at, v);
        proof {
            assert(vals.take(i + 1).len() == i + 1);
            assert(wrote(before, emu.maps.regions@, at, le_bytes(v as nat, 8)));
            assert(vals.take(i as int).push(v) =~= vals.take(i + 1));
            lemma_write_chain_push(steps, emu.maps.regions@, buffer, vals.take(i as int), 8, v);
            steps = steps.push(emu.maps.regions@);
        }
        i = i + 1;
    }
    assert(vals.take(to_write as int) =~= vals);
    assert(write_chain(steps, buffer, vals, 8));
    if to_write < count {
        emu.regs.rax = 0;
    } else {
        emu.regs.rax = to_write;
    }
    assert(old(emu).handle_management.keys_listed(ks, keys@));
}

/// `kernel32!GetCommandLineA`: 2048 bytes from the process arena receive
/// the executable's name, UTF-8 and NUL-terminated; `rax` is their
/// address.
pub fn GetCommandLineA(emu: &mut Emu)
    requires
        old(emu).wf(),
        old(emu).heap_arenas@.len() > 0,
        arena_alloc_spec(old(emu).heap_arenas@[0], 2048) is Some,
    ensures
        machine_kept(*old(emu), *final(emu)),
        final(emu).wf(),
        final(emu).cfg == old(emu).cfg,
        final(emu).handle_management == old(emu).handle_management,
        final(emu).exceptions@ == old(emu).exceptions@,
        ({
            let a = arena_alloc_spec(old(emu).heap_arenas@[0], 2048)->0;
            &&& arena_allocated(old(emu).heap_arenas@, final(emu).heap_arenas@, 0, a, 2048)
            &&& wrote(
                old(emu).maps.regions@,
                final(emu).maps.regions@,
                a,
                encode_utf8(old(emu).cfg.exe_name@).push(0u8),
            )
            &&& final(emu).regs == with_rax(old(emu).regs, a)
        }),
{
    let addr = arena_allocate(emu, 0, 2048).unwrap();
    let exe_name = emu.cfg.exe_name.clone();
    let _ = emu.maps.write_string(addr, exe_name.as_str());
    emu.regs.rax = addr;
}

/// `kernel32!GetCommandLineW`: as `GetCommandLineA`, the name written in
/// UTF-16 with a 16-bit NUL.
pub fn GetCommandLineW(emu: &mut Emu)
    requires
        old(emu).wf(),
        old(emu).heap_arenas@.len() > 0,
        arena_alloc_spec(old(emu).heap_arenas@[0], 2048) is Some,
    ensures
        machine_kept(*old(emu), *final(emu)),
        final(emu).wf(),
        final(emu).cfg == old(emu).cfg,
        final(emu).handle_management == old(emu).handle_management,
        final(emu).exceptions@ == old(emu).exceptions@,
        ({
            let a = arena_alloc_spec(old(emu).heap_arenas@[0], 2048)->0;
            &&& arena_allocated(old(emu).heap_arenas@, final(emu).heap_arenas@, 0, a, 2048)
            &&& wrote(
                old(emu).maps.regions@,
                final(emu).maps.regions@,
                a,
                utf16le(old(emu).cfg.exe_name@) + seq![0u8, 0u8],
            )
            &&& final(emu).regs == with_rax(old(emu).regs, a)
        }),
{
    let addr = arena_allocate(emu, 0, 2048).unwrap();
    let exe_name = emu.cfg.exe_name.clone();
    let _ = emu.maps.write_wide_string(addr, exe_name.as_str());
    emu.regs.rax = addr;
}

/// `ntdll!RtlFreeAnsiString(AnsiString = rcx)`: accepted; nothing changes.
pub fn RtlFreeAnsiString(emu: &mut Emu)
    ensures
        *final(emu) == *old(emu),
{
}

/// The heap workers the `ntdll` heap routing runs.
#[derive(PartialEq, Eq, Structural)]
pub enum NtdllHeapApi {
    Allocate,
    Free,
    ReAllocate,
    GetProcessHeaps,
    FreeAnsiString,
}

/// The worker the `ntdll` heap routing runs for `api` (`kernel32!Heap*`
/// forward to the `Rtl*` workers, with the same registers); `None` for a
/// name it does not handle.
pub open spec fn ntdll_heap_worker(api: Seq<char>) -> Option<NtdllHeapApi> {
    if api == "RtlAllocateHeap"@ || api == "HeapAlloc"@ {
        Some(NtdllHeapApi::Allocate)
    } else if api == "RtlFreeHeap"@ || api == "HeapFree"@ {
        Some(NtdllHeapApi::Free)
    } else if api == "RtlReAllocateHeap"@ || api == "HeapReAlloc"@ {
        Some(NtdllHeapApi::ReAllocate)
    } else if api == "RtlGetProcessHeaps"@ {
        Some(NtdllHeapApi::GetProcessHeaps)
    } else if api == "RtlFreeAnsiString"@ {
        Some(NtdllHeapApi::FreeAnsiString)
    } else {
        None
    }
}

/// The conditions the worker for `api` runs under on `emu`.
pub open spec fn ntdll_heap_ok(api: Seq<char>, emu: Emu) -> bool {
    &&& emu.wf()
    &&& match ntdll_heap_worker(api) {
        Some(NtdllHeapApi::Allocate) | Some(NtdllHeapApi::Free) => emu.has_handle_room(),
        Some(NtdllHeapApi::ReAllocate) => emu.handle_management.has_room(3),
        Some(NtdllHeapApi::GetProcessHeaps) => process_heaps_fit(emu),
        _ => true,
    }
}

/// What the worker for `api` does to `o`, giving `n`; nothing for a name
/// the routing does not handle.
pub open spec fn ntdll_heap_effect(api: Seq<char>, o: Emu, n: Emu) -> bool {
    match ntdll_heap_worker(api) {
        Some(NtdllHeapApi::Allocate) => rtl_allocate_heap_effect(o, n),
        Some(NtdllHeapApi::Free) => rtl_free_heap_effect(o, n),
        Some(NtdllHeapApi::ReAllocate) => rtl_reallocate_heap_effect(o, n),
        Some(NtdllHeapApi::GetProcessHeaps) => rtl_get_process_heaps_effect(o, n),
        Some(NtdllHeapApi::FreeAnsiString) => n == o,
        None => n == o,
    }
}

/// Route an `ntdll` heap API by name: true when `api` names one of the
/// heap workers (see [`ntdll_heap_worker`]), which then ran on `emu`;
/// false, with nothing done, otherwise.
pub fn dispatch(api: &str, emu: &mut Emu) -> (handled: bool)
    requires
        ntdll_heap_ok(api@, *old(emu)),
    ensures
        handled == ntdll_heap_worker(api@) is Some,
        ntdll_heap_effect(api@, *old(emu), *final(emu)),
{
    if str_eq(api, "RtlAllocateHeap") || str_eq(api, "HeapAlloc") {
        RtlAllocateHeap(emu);
    } else if str_eq(api, "RtlFreeHeap") || str_eq(api, "HeapFree") {
        RtlFreeHeap(emu);
    } else if str_eq(api, "RtlReAllocateHeap") || str_eq(api, "HeapReAlloc") {
        RtlReAllocateHeap(emu);
    } else if str_eq(api, "RtlGetProcessHeaps") {
        RtlGetProcessHeaps(emu);
    } else if str_eq(api, "RtlFreeAnsiString") {
        RtlFreeAnsiString(emu);
    } else {
        return false;
    }
    true
}

} // verus!
