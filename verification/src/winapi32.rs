//! The 32-bit kernel32 and ntdll heap APIs. They are `stdcall`: each reads
//! its arguments as dwords from the 32-bit stack (`esp`, `esp + 4`, ...),
//! pops them before returning, and returns its result in `rax`.

#![allow(non_snake_case)]

use vstd::prelude::*;
use vstd::utf8::encode_utf8;
use crate::bytes::le_u32;
use crate::emu::{
    machine_kept,
    arena_alloc_spec, esp_of, pops32_regs, with_esp, with_rax, Emu, Mem64, Regs64,
};
use crate::heap::{
    address_or_zero, allocate_result, allocation_effect, allocation_size_spec, arena_allocate,
    arena_allocated, exceptions_after, exceptions_on_failure, fail_allocation, free_effect,
    heap_allocate, heap_allocation_size, heap_free, heap_reallocate, heap_unchanged,
    lemma_realloc_outcome_keeps, padded, realloc_outcome,
};
use crate::heap_handle::HeapHandle;
use crate::memory::{
    bytes_at, le_bytes, lemma_wrote_keeps_spans, lemma_write_chain_push, utf16le, values_written,
    write_chain, wrote,
};
use crate::get_proc_address::{
    by_name_spec, by_ordinal_spec, resolve_name_via_registry, resolve_ordinal_via_registry_or_scanner,
};
use crate::memory::string_at;
use crate::export_registry::ExportIndexRegistry;
use crate::resolver32::{in_module_result32, resolve_api_name_in_module as resolve_api_name_in_module32};
use crate::text::{str_eq, to_lowercase_string, unicode_lowercase};

verus! {

/// The dword at `addr` can be read.
pub open spec fn dword_readable(rs: Seq<Mem64>, addr: u64) -> bool {
    bytes_at(rs, addr, 4) is Some
}

/// The first `n` (at most four) dword arguments at `esp` can be read.
pub open spec fn args_readable(rs: Seq<Mem64>, esp: u64, n: int) -> bool {
    &&& n > 0 ==> dword_readable(rs, esp)
    &&& n > 1 ==> dword_readable(rs, (esp + 4) as u64)
    &&& n > 2 ==> dword_readable(rs, (esp + 8) as u64)
    &&& n > 3 ==> dword_readable(rs, (esp + 12) as u64)
}

/// The `i`-th dword argument on the 32-bit stack at `esp`.
pub open spec fn stack_arg32(rs: Seq<Mem64>, esp: u64, i: int) -> u64 {
    le_u32(bytes_at(rs, (esp + 4 * i) as u64, 4)->0, 0) as u64
}

/// The registers `r` after `k` pops in memory `rs`, with `rax` set to `v`.
pub open spec fn returned32(r: Regs64, rs: Seq<Mem64>, k: nat, v: u64) -> Regs64 {
    with_rax(pops32_regs(r, rs, k), v)
}

/// Popping leaves `rax` alone: setting it before or after is the same.
proof fn lemma_pops_keep_rax(r: Regs64, rs: Seq<Mem64>, k: nat, v: u64)
    ensures
        pops32_regs(with_rax(r, v), rs, k) == with_rax(pops32_regs(r, rs, k), v),
    decreases k,
{
    if k > 0 {
        lemma_pops_keep_rax(r, rs, (k - 1) as nat, v);
    }
}

/// Read the `i`-th dword argument.
fn arg32(emu: &Emu, i: u64) -> (r: u64)
    requires
        emu.maps.wf(),
        i < 4,
        dword_readable(emu.maps.regions@, (esp_of(emu.regs) + 4 * i) as u64),
    ensures
        r == stack_arg32(emu.maps.regions@, esp_of(emu.regs), i as int),
{
    let esp = emu.regs().get_esp();
    emu.maps.read_dword(esp + 4 * i).unwrap() as u64
}

/// What an allocation API with the stack arguments `(handle, flags,
/// size)` does, the size first padded to `min`: allocate from the heap the
/// handle names; `rax` is the address, or 0 on failure (raising as the
/// flags ask); three dwords are popped.
pub open spec fn alloc32_effect(o: Emu, n: Emu, min: u64) -> bool {
    let rs = o.maps.regions@;
    let esp = esp_of(o.regs);
    let hndl = stack_arg32(rs, esp, 0);
    let flags = stack_arg32(rs, esp, 1);
    let size = padded(stack_arg32(rs, esp, 2), min);
    let r = allocate_result(o, hndl, size);
    &&& n.cfg == o.cfg
    &&& allocation_effect(o, n, hndl, size, r)
    &&& n.regs == returned32(o.regs, n.maps.regions@, 3, address_or_zero(r))
    &&& n.exceptions@ == exceptions_after(o.exceptions@, r, flags)
}

/// Allocate as [`alloc32_effect`] says.
fn alloc32(emu: &mut Emu, min: u64)
    requires
        old(emu).wf(),
        old(emu).has_handle_room(),
        args_readable(old(emu).maps.regions@, esp_of(old(emu).regs), 3),
    ensures
        machine_kept(*old(emu), *final(emu)),
        final(emu).wf(),
        alloc32_effect(*old(emu), *final(emu), min),
{
    let hndl = arg32(emu, 0);
    let flags = arg32(emu, 1);
    let mut size = arg32(emu, 2);
    if size < min {
        size = min;
    }
    let ghost regs0 = emu.regs;
    match heap_allocate(emu, hndl, size) {
        Some(heap_addr) => {
            emu.regs.rax = heap_addr;
        },
        None => {
            fail_allocation(emu, flags);
            emu.regs.rax = 0;
        },
    }
    let ghost v = emu.regs.rax;
    emu.stack_pop32_n(3);
    proof {
        lemma_pops_keep_rax(regs0, emu.maps.regions@, 3, v);
    }
}

/// `kernel32!HeapAlloc(hHeap, dwFlags, dwBytes)`: the request is padded to
/// `cfg.heap_alloc_min_size`, then allocated (see [`alloc32_effect`]).
pub fn HeapAlloc(emu: &mut Emu)
    requires
        old(emu).wf(),
        old(emu).has_handle_room(),
        args_readable(old(emu).maps.regions@, esp_of(old(emu).regs), 3),
    ensures
        machine_kept(*old(emu), *final(emu)),
        final(emu).wf(),
        alloc32_effect(*old(emu), *final(emu), old(emu).cfg.heap_alloc_min_size),
{
    let min = emu.cfg.heap_alloc_min_size;
    alloc32(emu, min);
}

/// `n` is `o` with `v` pushed onto the 32-bit stack.
pub open spec fn pushed32(o: Emu, n: Emu, v: u32) -> bool {
    let esp = (esp_of(o.regs) - 4) as u64;
    &&& n.regs == with_esp(o.regs, esp)
    &&& wrote(o.maps.regions@, n.maps.regions@, esp, le_bytes(v as nat, 4))
    &&& n.cfg == o.cfg
    &&& n.heap_arenas == o.heap_arenas
    &&& n.handle_management == o.handle_management
    &&& n.exceptions == o.exceptions
}

/// `kernel32!LocalAlloc(uFlags, uBytes)`: pushes a zero heap handle and
/// goes on as `HeapAlloc(0, uFlags, uBytes)`.
pub fn LocalAlloc(emu: &mut Emu)
    requires
        old(emu).wf(),
        old(emu).has_handle_room(),
        esp_of(old(emu).regs) >= 4,
        args_readable(old(emu).maps.regions@, (esp_of(old(emu).regs) - 4) as u64, 3),
    ensures
        machine_kept(*old(emu), *final(emu)),
        final(emu).wf(),
        exists|mid: Emu|
            #[trigger] pushed32(*old(emu), mid, 0) && alloc32_effect(
                mid,
                *final(emu),
                old(emu).cfg.heap_alloc_min_size,
            ),
{
    let ghost o = *emu;
    let _ = emu.stack_push32(0);
    let ghost mid = *emu;
    proof {
        let esp = (esp_of(o.regs) - 4) as u64;
        crate::emu::lemma_with_esp_back(o.regs, esp);
        lemma_wrote_keeps_spans(o.maps.regions@, mid.maps.regions@, esp, le_bytes(0, 4), esp, 4);
        lemma_wrote_keeps_spans(o.maps.regions@, mid.maps.regions@, esp, le_bytes(0, 4), (esp + 4) as u64, 4);
        lemma_wrote_keeps_spans(o.maps.regions@, mid.maps.regions@, esp, le_bytes(0, 4), (esp + 8) as u64, 4);
    }
    HeapAlloc(emu);
    assert(pushed32(o, mid, 0));
}

/// `ntdll!RtlAllocateHeap(HeapHandle, Flags, Size)`: allocated as requested
/// (see [`alloc32_effect`], with no padding).
pub fn RtlAllocateHeap(emu: &mut Emu)
    requires
        old(emu).wf(),
        old(emu).has_handle_room(),
        args_readable(old(emu).maps.regions@, esp_of(old(emu).regs), 3),
    ensures
        machine_kept(*old(emu), *final(emu)),
        final(emu).wf(),
        alloc32_effect(*old(emu), *final(emu), 0),
{
    alloc32(emu, 0);
}

/// What `ntdll!RtlFreeHeap(HeapHandle, Flags, BaseAddress)` does: the block
/// is freed (see [`free_effect`]); three dwords are popped; `rax` is 1.
pub open spec fn rtl_free_heap32_effect(o: Emu, n: Emu) -> bool {
    let rs = o.maps.regions@;
    let esp = esp_of(o.regs);
    &&& n.cfg == o.cfg
    &&& n.exceptions@ == o.exceptions@
    &&& exists|r: bool| free_effect(o, n, stack_arg32(rs, esp, 0), stack_arg32(rs, esp, 2), r)
    &&& n.regs == returned32(o.regs, n.maps.regions@, 3, 1)
}

/// `ntdll!RtlFreeHeap(HeapHandle, Flags, BaseAddress)`: see
/// [`rtl_free_heap32_effect`].
pub fn RtlFreeHeap(emu: &mut Emu)
    requires
        old(emu).wf(),
        old(emu).has_handle_room(),
        dword_readable(old(emu).maps.regions@, esp_of(old(emu).regs)),
        dword_readable(old(emu).maps.regions@, (esp_of(old(emu).regs) + 8) as u64),
    ensures
        machine_kept(*old(emu), *final(emu)),
        final(emu).wf(),
        rtl_free_heap32_effect(*old(emu), *final(emu)),
{
    let handle = arg32(emu, 0);
    let base_addr = arg32(emu, 2);
    let r = heap_free(emu, handle, base_addr);
    let ghost freed = *emu;
    emu.stack_pop32_n(3);
    emu.regs.rax = 1;
    assert(free_effect(*old(emu), freed, handle, base_addr, r));
    assert(free_effect(*old(emu), *emu, handle, base_addr, r));
}

/// What a reallocation API with the stack arguments `(handle, flags,
/// block, size)` does, a nonzero size first padded to `min`: four dwords
/// are popped; a null block or a zero size fails at once (raising as the
/// flags ask); otherwise the block is reallocated (see
/// [`realloc_outcome`]). `rax` is the block's address, or 0.
pub open spec fn realloc32_effect(o: Emu, n: Emu, min: u64) -> bool {
    let rs = o.maps.regions@;
    let esp = esp_of(o.regs);
    let handle = stack_arg32(rs, esp, 0);
    let flags = stack_arg32(rs, esp, 1);
    let old_ptr = stack_arg32(rs, esp, 2);
    let new_size = stack_arg32(rs, esp, 3);
    &&& n.regs == returned32(o.regs, rs, 4, n.regs.rax)
    &&& if old_ptr == 0 || new_size == 0 {
        &&& n.regs.rax == 0
        &&& heap_unchanged(o, n)
        &&& n.cfg == o.cfg
        &&& n.exceptions@ == exceptions_on_failure(o.exceptions@, flags)
    } else {
        realloc_outcome(o, n, handle, flags, old_ptr, padded(new_size, min), n.regs.rax)
    }
}

/// Reallocate as [`realloc32_effect`] says.
fn realloc32(emu: &mut Emu, min: u64)
    requires
        old(emu).wf(),
        old(emu).handle_management.has_room(3),
        args_readable(old(emu).maps.regions@, esp_of(old(emu).regs), 4),
    ensures
        machine_kept(*old(emu), *final(emu)),
        final(emu).wf(),
        realloc32_effect(*old(emu), *final(emu), min),
{
    let ghost o = *emu;
    let handle = arg32(emu, 0);
    let flags = arg32(emu, 1);
    let old_ptr = arg32(emu, 2);
    let new_size = arg32(emu, 3);
    emu.stack_pop32_n(4);
    if old_ptr == 0 || new_size == 0 {
        fail_allocation(emu, flags);
        emu.regs.rax = 0;
        return;
    }
    let mut size = new_size;
    if size < min {
        size = min;
    }
    let ghost popped = *emu;
    let r = heap_reallocate(emu, handle, flags, old_ptr, size);
    let ghost mid = *emu;
    emu.regs.rax = r;
    proof {
        lemma_realloc_outcome_keeps(popped, mid, o, *emu, handle, flags, old_ptr, size, r);
    }
}

/// `kernel32!HeapReAlloc(hHeap, dwFlags, lpMem, dwBytes)`: a nonzero size
/// is padded to `cfg.heap_alloc_min_size`; see [`realloc32_effect`].
pub fn HeapReAlloc(emu: &mut Emu)
    requires
        old(emu).wf(),
        old(emu).handle_management.has_room(3),
        args_readable(old(emu).maps.regions@, esp_of(old(emu).regs), 4),
    ensures
        machine_kept(*old(emu), *final(emu)),
        final(emu).wf(),
        realloc32_effect(*old(emu), *final(emu), old(emu).cfg.heap_alloc_min_size),
{
    let min = emu.cfg.heap_alloc_min_size;
    realloc32(emu, min);
}

/// `ntdll!RtlReAllocateHeap(HeapHandle, Flags, BaseAddress, Size)`: see
/// [`realloc32_effect`], with no padding.
pub fn RtlReAllocateHeap(emu: &mut Emu)
    requires
        old(emu).wf(),
        old(emu).handle_management.has_room(3),
        args_readable(old(emu).maps.regions@, esp_of(old(emu).regs), 4),
    ensures
        machine_kept(*old(emu), *final(emu)),
        final(emu).wf(),
        realloc32_effect(*old(emu), *final(emu), 0),
{
    realloc32(emu, 0);
}

/// What `kernel32!HeapCreate(flOptions, dwInitialSize, dwMaximumSize)`
/// does: three dwords are popped, a new arena is added and a heap object
/// bound to it; `rax` is its handle (its table key).
pub open spec fn heap_create32_effect(o: Emu, n: Emu) -> bool {
    let rs = o.maps.regions@;
    let esp = esp_of(o.regs);
    &&& n.cfg == o.cfg
    &&& n.exceptions@ == o.exceptions@
    &&& n.heap_arenas@.len() == o.heap_arenas@.len() + 1
    &&& forall|i: int| 0 <= i < o.heap_arenas@.len() ==> #[trigger] n.heap_arenas@[i] == o.heap_arenas@[i]
    &&& n.handle_management.process_key() == o.handle_management.process_key()
    &&& exists|k: usize|
        {
            &&& !o.handle_management.entries().contains_key(k)
            &&& n.handle_management.entries() == o.handle_management.entries().insert(
                k,
                n.handle_management.entries()[k],
            )
            &&& n.handle_management.entries()[k].opts == stack_arg32(rs, esp, 0) as u32
            &&& n.handle_management.entries()[k].initial_size == stack_arg32(rs, esp, 1)
            &&& n.handle_management.entries()[k].maximum_size == stack_arg32(rs, esp, 2)
            &&& n.handle_management.entries()[k].arena == o.heap_arenas@.len()
            &&& n.handle_management.entries()[k].allocations@.len() == 0
            &&& k <= u32::MAX
            &&& n.regs == returned32(o.regs, rs, 3, k as u64)
        }
}

/// `kernel32!HeapCreate(flOptions, dwInitialSize, dwMaximumSize)`: see
/// [`heap_create32_effect`].
pub fn HeapCreate(emu: &mut Emu)
    requires
        old(emu).wf(),
        old(emu).has_handle_room(),
        args_readable(old(emu).maps.regions@, esp_of(old(emu).regs), 3),
    ensures
        machine_kept(*old(emu), *final(emu)),
        final(emu).wf(),
        heap_create32_effect(*old(emu), *final(emu)),
{
    let opts = arg32(emu, 0) as u32;
    let init_sz = arg32(emu, 1);
    let max_sz = arg32(emu, 2);
    emu.stack_pop32_n(3);
    let arena = emu.create_heap_arena();
    let key = emu.handle_management.insert_heap_handle(HeapHandle::new(opts, init_sz, max_sz, arena));
    emu.regs.rax = key as u64;
}

/// What `ntdll!RtlGetProcessHeaps(NumberOfHeaps, ProcessHeaps)` does: with
/// no buffer, `rax` is the number of heaps; else the first
/// `min(NumberOfHeaps, heaps)` heap handles (process heap first) are
/// written to the buffer as dwords and `rax` is that number, or 0 when the
/// buffer had room for more handles than there are heaps. Two dwords are
/// popped.
pub open spec fn rtl_get_process_heaps32_effect(o: Emu, n: Emu) -> bool {
    let rs = o.maps.regions@;
    let esp = esp_of(o.regs);
    let count = stack_arg32(rs, esp, 0);
    let buffer = stack_arg32(rs, esp, 1);
    &&& n.cfg == o.cfg
    &&& n.heap_arenas == o.heap_arenas
    &&& n.handle_management == o.handle_management
    &&& n.exceptions == o.exceptions
    &&& exists|ks: Seq<usize>, keys: Seq<u32>|
        #[trigger] o.handle_management.keys_listed(ks, keys) && {
            let total = keys.len();
            if buffer == 0 {
                &&& n.maps.regions@ == rs
                &&& n.regs == returned32(o.regs, rs, 2, total as u64)
            } else {
                let w = if (count as int) < total {
                    count as int
                } else {
                    total as int
                };
                &&& values_written(rs, n.maps.regions@, buffer, keys.take(w).map_values(|k: u32| k as u64), 4)
                &&& n.regs == returned32(o.regs, n.maps.regions@, 2, if w < count { 0 } else { w as u64 })
            }
        }
}

/// `ntdll!RtlGetProcessHeaps(NumberOfHeaps, ProcessHeaps)`: see
/// [`rtl_get_process_heaps32_effect`].
pub fn RtlGetProcessHeaps(emu: &mut Emu)
    requires
        old(emu).wf(),
        args_readable(old(emu).maps.regions@, esp_of(old(emu).regs), 2),
    ensures
        machine_kept(*old(emu), *final(emu)),
        final(emu).wf(),
        rtl_get_process_heaps32_effect(*old(emu), *final(emu)),
{
    let count = arg32(emu, 0);
    let buffer = arg32(emu, 1);
    let keys = emu.handle_management.heap_handle_keys();
    let total = keys.len() as u64;
    let ghost ks = choose|ks: Seq<usize>| emu.handle_management.keys_listed(ks, keys@);
    let ghost regs0 = emu.regs;
    if buffer == 0 {
        emu.stack_pop32_n(2);
        emu.regs.rax = total;
        assert(old(emu).handle_management.keys_listed(ks, keys@));
        return;
    }
    let to_write = if count < total {
        count
    } else {
        total
    };
    let ghost o = emu.maps.regions@;
    let ghost vals = keys@.take(to_write as int).map_values(|k: u32| k as u64);
    let ghost mut steps: Seq<Seq<Mem64>> = seq![o];
    let mut i: usize = 0;
    assert(vals.take(0) =~= Seq::<u64>::empty());
    while i < to_write as usize
        invariant
            emu.maps.wf(),
            i <= to_write,
            to_write <= keys@.len(),
            to_write <= count,
            count < 0x1_0000_0000,
            buffer < 0x1_0000_0000,
            vals == keys@.take(to_write as int).map_values(|k: u32| k as u64),
            write_chain(steps, buffer, vals.take(i as int), 4),
            steps[0] == o,
            steps.last() == emu.maps.regions@,
            emu.cfg == old(emu).cfg,
            emu.regs == regs0,
            emu.heap_arenas == old(emu).heap_arenas,
            emu.handle_management == old(emu).handle_management,
            emu.exceptions == old(emu).exceptions,
            machine_kept(*old(emu), *emu),
        decreases to_write - i,
    {
        let at = buffer + (i as u64) * 4;
        let k = keys[i];
        let _ = emu.maps.write_dword(at, k);
        proof {
            assert(vals.take(i as int).push(k as u64) =~= vals.take(i + 1));
            lemma_write_chain_push(steps, emu.maps.regions@, buffer, vals.take(i as int), 4, k as u64);
            steps = steps.push(emu.maps.regions@);
        }
        i = i + 1;
    }
    assert(vals.take(to_write as int) =~= vals);
    assert(write_chain(steps, buffer, vals, 4));
    emu.stack_pop32_n(2);
    if to_write < count {
        emu.regs.rax = 0;
    } else {
        emu.regs.rax = to_write;
    }
    assert(old(emu).handle_management.keys_listed(ks, keys@));
}

/// What `kernel32!GetCommandLineA` does: 2048 bytes from the process arena
/// receive the name `test.exe`, NUL-terminated; `rax` is their address.
pub open spec fn get_command_line32_effect(o: Emu, n: Emu, data: Seq<u8>) -> bool {
    let a = arena_alloc_spec(o.heap_arenas@[0], 2048)->0;
    &&& n.cfg == o.cfg
    &&& n.handle_management == o.handle_management
    &&& n.exceptions@ == o.exceptions@
    &&& arena_allocated(o.heap_arenas@, n.heap_arenas@, 0, a, 2048)
    &&& wrote(o.maps.regions@, n.maps.regions@, a, data)
    &&& n.regs == with_rax(o.regs, a)
}

/// `kernel32!GetCommandLineA`: see [`get_command_line32_effect`], the name
/// in UTF-8.
pub fn GetCommandLineA(emu: &mut Emu)
    requires
        old(emu).wf(),
        old(emu).heap_arenas@.len() > 0,
        arena_alloc_spec(old(emu).heap_arenas@[0], 2048) is Some,
    ensures
        machine_kept(*old(emu), *final(emu)),
        final(emu).wf(),
        get_command_line32_effect(*old(emu), *final(emu), encode_utf8("test.exe"@).push(0u8)),
{
    let addr = arena_allocate(emu, 0, 2048).unwrap();
    let _ = emu.maps.write_string(addr, "test.exe");
    emu.regs.rax = addr;
}

/// `kernel32!GetCommandLineW`: see [`get_command_line32_effect`], the name
/// in UTF-16 with a 16-bit NUL.
pub fn GetCommandLineW(emu: &mut Emu)
    requires
        old(emu).wf(),
        old(emu).heap_arenas@.len() > 0,
        arena_alloc_spec(old(emu).heap_arenas@[0], 2048) is Some,
    ensures
        machine_kept(*old(emu), *final(emu)),
        final(emu).wf(),
        get_command_line32_effect(*old(emu), *final(emu), utf16le("test.exe"@) + seq![0u8, 0u8]),
{
    let addr = arena_allocate(emu, 0, 2048).unwrap();
    let _ = emu.maps.write_wide_string(addr, "test.exe");
    emu.regs.rax = addr;
}

/// Route an ntdll heap API by name: true when `api` names one of
/// `RtlGetProcessHeaps`, `RtlFreeHeap`, `RtlAllocateHeap` and
/// `RtlReAllocateHeap`, which then ran; false (nothing done) otherwise.
pub fn dispatch(api: &str, emu: &mut Emu) -> (handled: bool)
    requires
        old(emu).wf(),
        api@ == "RtlGetProcessHeaps"@ ==> args_readable(old(emu).maps.regions@, esp_of(old(emu).regs), 2),
        api@ == "RtlFreeHeap"@ ==> {
            &&& old(emu).has_handle_room()
            &&& dword_readable(old(emu).maps.regions@, esp_of(old(emu).regs))
            &&& dword_readable(old(emu).maps.regions@, (esp_of(old(emu).regs) + 8) as u64)
        },
        api@ == "RtlAllocateHeap"@ ==> {
            &&& old(emu).has_handle_room()
            &&& args_readable(old(emu).maps.regions@, esp_of(old(emu).regs), 3)
        },
        api@ == "RtlReAllocateHeap"@ ==> {
            &&& old(emu).handle_management.has_room(3)
            &&& args_readable(old(emu).maps.regions@, esp_of(old(emu).regs), 4)
        },
    ensures
        machine_kept(*old(emu), *final(emu)),
        final(emu).wf(),
        handled == (api@ == "RtlGetProcessHeaps"@ || api@ == "RtlFreeHeap"@ || api@ == "RtlAllocateHeap"@
            || api@ == "RtlReAllocateHeap"@),
        api@ == "RtlGetProcessHeaps"@ ==> rtl_get_process_heaps32_effect(*old(emu), *final(emu)),
        api@ == "RtlFreeHeap"@ ==> rtl_free_heap32_effect(*old(emu), *final(emu)),
        api@ == "RtlAllocateHeap"@ ==> alloc32_effect(*old(emu), *final(emu), 0),
        api@ == "RtlReAllocateHeap"@ ==> realloc32_effect(*old(emu), *final(emu), 0),
        !handled ==> *final(emu) == *old(emu),
{
    proof {
        reveal_strlit("RtlGetProcessHeaps");
        reveal_strlit("RtlFreeHeap");
        reveal_strlit("RtlAllocateHeap");
        reveal_strlit("RtlReAllocateHeap");
        assert("RtlGetProcessHeaps"@.len() == 18);
        assert("RtlFreeHeap"@.len() == 11);
        assert("RtlAllocateHeap"@.len() == 15);
        assert("RtlReAllocateHeap"@.len() == 17);
    }
    if str_eq(api, "RtlGetProcessHeaps") {
        RtlGetProcessHeaps(emu);
    } else if str_eq(api, "RtlFreeHeap") {
        RtlFreeHeap(emu);
    } else if str_eq(api, "RtlAllocateHeap") {
        RtlAllocateHeap(emu);
    } else if str_eq(api, "RtlReAllocateHeap") {
        RtlReAllocateHeap(emu);
    } else {
        return false;
    }
    true
}

/// A 32-bit `lpProcName` with any of these bits set is an ordinal.
pub const ORDINAL_MASK32: u64 = 0xFFFF_0000;

/// `GetProcAddress` by name (32-bit): in the registered module `hndl`
/// names (see [`by_name_spec`]); for a handle the registry does not know,
/// the 32-bit lookup of `name` in no particular module (see
/// [`in_module_result32`]), giving no module name and `name` itself.
fn resolve_name_via_registry_or_scanner<FM: FnMut(&str, &str) -> u64, FG: FnMut(&str) -> u64>(
    reg: &ExportIndexRegistry,
    hndl: u64,
    name: &str,
    scan_module: &mut FM,
    scan_global: &mut FG,
) -> (r: (u64, String, String))
    requires
        reg.wf(),
        forall|g: FM, a: &str, b: &str| call_requires(g, (a, b)),
        forall|g: FG, a: &str| call_requires(g, (a,)),
    ensures
        match by_name_spec(*reg, hndl, name@) {
            Some(t) => (r.0, r.1@, r.2@) == t,
            None => in_module_result32(*reg, Seq::empty(), name@, *old(scan_module), *old(scan_global), r.0)
                && r.1@ == Seq::<char>::empty() && r.2@ == name@,
        },
{
    match resolve_name_via_registry(reg, hndl, name) {
        Some(found) => found,
        None => {
            proof {
                reveal_strlit("");
            }
            let addr = resolve_api_name_in_module32(reg, "", name, scan_module, scan_global);
            assert(""@ =~= Seq::<char>::empty());
            (addr, String::new(), name.to_owned())
        },
    }
}

/// `kernel32!GetProcAddress(hModule, lpProcName)`: two dwords are popped;
/// an `lpProcName` with a bit of [`ORDINAL_MASK32`] set asks for the
/// ordinal in its low word, otherwise it points to a name, lower-cased,
/// resolved in the registered module `hModule` or, for a handle the
/// registry does not know, by the 32-bit lookup in no particular module
/// (see [`in_module_result32`]). `rax` is the address, 0 when not found.
pub fn GetProcAddress<FM: FnMut(&str, &str) -> u64, FG: FnMut(&str) -> u64>(
    emu: &mut Emu,
    scan_module: &mut FM,
    scan_global: &mut FG,
)
    requires
        old(emu).wf(),
        args_readable(old(emu).maps.regions@, esp_of(old(emu).regs), 2),
        forall|g: FM, a: &str, b: &str| call_requires(g, (a, b)),
        forall|g: FG, a: &str| call_requires(g, (a,)),
    ensures
        final(emu).wf(),
        final(emu).regs == returned32(old(emu).regs, old(emu).maps.regions@, 2, final(emu).regs.rax),
        heap_unchanged(*old(emu), *final(emu)),
        final(emu).cfg == old(emu).cfg,
        final(emu).exceptions@ == old(emu).exceptions@,
        machine_kept(*old(emu), *final(emu)),
        ({
            let rs = old(emu).maps.regions@;
            let hndl = stack_arg32(rs, esp_of(old(emu).regs), 0);
            let p = stack_arg32(rs, esp_of(old(emu).regs), 1);
            let reg = old(emu).export_indexes;
            let name = unicode_lowercase(string_at(rs, p));
            if p & ORDINAL_MASK32 != 0 {
                final(emu).regs.rax == by_ordinal_spec(reg, hndl, (p & 0xFFFF) as u32).0
            } else {
                match by_name_spec(reg, hndl, name) {
                    Some(t) => final(emu).regs.rax == t.0,
                    None => in_module_result32(
                        reg,
                        Seq::empty(),
                        name,
                        *old(scan_module),
                        *old(scan_global),
                        final(emu).regs.rax,
                    ),
                }
            }
        }),
{
    let hndl = arg32(emu, 0);
    let func_ptr = arg32(emu, 1);
    emu.stack_pop32_n(2);
    let is_ordinal = (func_ptr & ORDINAL_MASK32) != 0;
    let resolved = if is_ordinal {
        let ordinal = (func_ptr & 0xFFFF) as u32;
        let (addr, _module, _display) = resolve_ordinal_via_registry_or_scanner(&emu.export_indexes, hndl, ordinal);
        addr
    } else {
        let raw = emu.maps.read_string(func_ptr);
        let func = to_lowercase_string(raw.as_str());
        let (addr, _module, _display) = resolve_name_via_registry_or_scanner(
            &emu.export_indexes,
            hndl,
            func.as_str(),
            scan_module,
            scan_global,
        );
        addr
    };
    emu.regs.rax = resolved;
}

} // verus!
