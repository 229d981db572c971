//! The 64-bit C runtime (`ucrtbase` / `api-ms-win-crt-*`) functions: each
//! reads its arguments from `rcx`, `rdx`, `r8` and returns in `rax`. The
//! CRT allocates from the process arena, or a dedicated map for large
//! requests, and keeps no allocation records.

#![allow(non_snake_case)]

use vstd::prelude::*;
use crate::bytes::le_u64;
use crate::emu::{
    alloc_spec, arena_alloc_spec, block_at, lemma_alloc_fresh, machine_kept, region_based_at,
    region_index, with_rax, zeros, Emu, Mem64, RegionModel,
};
use crate::heap::{
    alloc_prefix, alloc_region_name, arena_allocate, arena_allocated, arena_free, arena_freed,
    heap_unchanged, lemma_granules_cover, same_cpu_and_config, LARGE_ALLOC_THRESHOLD,
};
use crate::memory::{
    bytes_at, le_bytes, lemma_bytes_at_len, lemma_write_chain_push, span, string_at, values_written,
    write_chain, wrote,
};
use vstd::utf8::encode_utf8;
use crate::text::{
    after_last, after_last_chars, chars_of, has_prefix, lower_seq, lower_string, push_hex,
    starts_with_chars, str_eq, string_from_chars,
};
use crate::resolver::{api_label, guess_api_name};

verus! {

/// Where the CRT puts `size` bytes: the process arena below the large
/// threshold, else a fresh map.
pub open spec fn crt_alloc_result(emu: Emu, size: u64) -> Option<u64> {
    if size < LARGE_ALLOC_THRESHOLD {
        arena_alloc_spec(emu.heap_arenas@[0], size as int)
    } else {
        alloc_spec(emu.maps.regions@, size)
    }
}

/// What a CRT allocation of `size` bytes with result `r` does to `o`,
/// giving `n`: nothing on failure; else the arena hands out the block, or
/// a map `alloc_<hex address>` of zero bytes is added. No record is kept.
pub open spec fn crt_alloc_effect(o: Emu, n: Emu, size: u64, r: Option<u64>) -> bool {
    &&& n.handle_management == o.handle_management
    &&& match r {
        None => n.maps.regions@ == o.maps.regions@ && n.heap_arenas@ == o.heap_arenas@,
        Some(a) => if size < LARGE_ALLOC_THRESHOLD {
            &&& n.maps.regions@ == o.maps.regions@
            &&& arena_allocated(o.heap_arenas@, n.heap_arenas@, 0, a, size as usize)
        } else {
            &&& n.maps.view_regions() == o.maps.view_regions().push(
                RegionModel { name: alloc_region_name(a), base: a, size },
            )
            &&& n.maps.regions@.drop_last() == o.maps.regions@
            &&& n.maps.regions@.last().mem@ == zeros(size as nat)
            &&& n.heap_arenas@ == o.heap_arenas@
        },
    }
}

/// A successful CRT allocation lies inside the address space.
proof fn lemma_crt_alloc_fits(emu: Emu, size: u64)
    requires
        emu.wf(),
        emu.heap_arenas@.len() > 0,
        crt_alloc_result(emu, size) is Some,
    ensures
        crt_alloc_result(emu, size)->0 + size <= u64::MAX,
        size <= usize::MAX,
{
    if size < LARGE_ALLOC_THRESHOLD {
        assert(emu.heap_arenas@[0].wf());
        lemma_granules_cover(size as int);
    }
}

/// Allocate `size` bytes (see [`crt_alloc_result`], [`crt_alloc_effect`]).
fn allocate_memory(emu: &mut Emu, size: u64) -> (r: Option<u64>)
    requires
        old(emu).wf(),
        old(emu).heap_arenas@.len() > 0,
    ensures
        final(emu).wf(),
        machine_kept(*old(emu), *final(emu)),
        same_cpu_and_config(*old(emu), *final(emu)),
        final(emu).heap_arenas@.len() == old(emu).heap_arenas@.len(),
        r == crt_alloc_result(*old(emu), size),
        crt_alloc_effect(*old(emu), *final(emu), size, r),
{
    if size < LARGE_ALLOC_THRESHOLD {
        return arena_allocate(emu, 0, size as usize);
    }
    let allocation = match emu.maps.alloc_range(size) {
        Some(a) => a,
        None => {
            return None;
        },
    };
    proof {
        lemma_alloc_fresh(emu.maps.regions@, size);
    }
    let mut name_chars = vec!['a', 'l', 'l', 'o', 'c', '_'];
    push_hex(allocation, &mut name_chars);
    let name = string_from_chars(name_chars.as_slice());
    assert(name@ =~= alloc_region_name(allocation));
    let ok = emu.maps.create_map(name.as_str(), allocation, size);
    if !ok {
        return None;
    }
    Some(allocation)
}

/// What a CRT pointer is.
pub enum AllocKind {
    /// A live block of the process arena.
    Arena { size: usize },
    /// The base of an `alloc_*` map.
    Mapped { base: u64, size: usize },
    Invalid,
}

/// What the pointer `addr` is: a live block of the process arena, the base
/// of an `alloc_*` map, or neither.
pub open spec fn crt_kind(emu: Emu, addr: u64) -> AllocKind {
    let bs = emu.heap_arenas@[0].blocks@;
    if emu.heap_arenas@.len() > 0 && block_at(bs, addr, 0) is Some {
        AllocKind::Arena { size: bs[block_at(bs, addr, 0)->0].size }
    } else {
        let rs = emu.maps.regions@;
        match region_index(rs, addr, 0) {
            Some(i) => if rs[i].base == addr && has_prefix(rs[i].name@, alloc_prefix()) {
                AllocKind::Mapped { base: addr, size: rs[i].size as usize }
            } else {
                AllocKind::Invalid
            },
            None => AllocKind::Invalid,
        }
    }
}

/// Classify `addr` (see [`crt_kind`]).
fn classify(emu: &Emu, addr: u64) -> (r: AllocKind)
    ensures
        r == crt_kind(*emu, addr),
{
    if emu.heap_arenas.len() > 0 {
        if let Some(size) = emu.heap_arenas[0].allocation_size(addr) {
            return AllocKind::Arena { size };
        }
    }
    match emu.maps.get_mem_by_addr(addr) {
        Some(mem) => {
            let name = chars_of(mem.name.as_str());
            let p = vec!['a', 'l', 'l', 'o', 'c', '_'];
            assert(p@ =~= alloc_prefix());
            if mem.base == addr && starts_with_chars(name.as_slice(), p.as_slice()) {
                AllocKind::Mapped { base: addr, size: mem.size as usize }
            } else {
                AllocKind::Invalid
            }
        },
        None => AllocKind::Invalid,
    }
}

/// What releasing `addr` does to `o`, giving `n`: with soft frees nothing;
/// else an arena block is freed, an `alloc_*` map unmapped, anything else
/// left alone.
pub open spec fn crt_release_effect(o: Emu, n: Emu, addr: u64) -> bool {
    &&& n.handle_management == o.handle_management
    &&& if o.cfg.heap_free_soft {
        n.maps.regions@ == o.maps.regions@ && n.heap_arenas@ == o.heap_arenas@
    } else {
        match crt_kind(o, addr) {
            AllocKind::Arena { .. } => n.maps.regions@ == o.maps.regions@ && arena_freed(
                o.heap_arenas@,
                n.heap_arenas@,
                0,
                addr,
            ),
            AllocKind::Mapped { base, .. } => n.heap_arenas@ == o.heap_arenas@ && match region_based_at(
                o.maps.regions@,
                base,
                0,
            ) {
                Some(i) => n.maps.regions@ == o.maps.regions@.remove(i),
                None => n.maps.regions@ == o.maps.regions@,
            },
            AllocKind::Invalid => n.maps.regions@ == o.maps.regions@ && n.heap_arenas@
                == o.heap_arenas@,
        }
    }
}

/// Release `addr` (see [`crt_release_effect`]).
fn release(emu: &mut Emu, addr: u64)
    requires
        old(emu).wf(),
    ensures
        final(emu).wf(),
        machine_kept(*old(emu), *final(emu)),
        same_cpu_and_config(*old(emu), *final(emu)),
        final(emu).heap_arenas@.len() == old(emu).heap_arenas@.len(),
        crt_release_effect(*old(emu), *final(emu), addr),
{
    if emu.cfg.heap_free_soft {
        return;
    }
    match classify(emu, addr) {
        AllocKind::Arena { .. } => {
            arena_free(emu, 0, addr);
        },
        AllocKind::Mapped { base, .. } => {
            emu.maps.dealloc(base);
        },
        AllocKind::Invalid => {},
    }
}

/// Everything but `rax` is as it was, and `rax` is `v`.
pub open spec fn only_rax(o: Emu, n: Emu, v: u64) -> bool {
    &&& n.regs == with_rax(o.regs, v)
    &&& heap_unchanged(o, n)
    &&& n.cfg == o.cfg
    &&& n.exceptions@ == o.exceptions@
    &&& machine_kept(o, n)
}

/// An allocating call of `size` bytes that must succeed: `rax` is the
/// address.
pub open spec fn crt_allocated(o: Emu, n: Emu, size: u64) -> bool {
    &&& crt_alloc_effect(o, n, size, crt_alloc_result(o, size))
    &&& n.regs == with_rax(o.regs, crt_alloc_result(o, size)->0)
    &&& n.cfg == o.cfg
    &&& n.exceptions@ == o.exceptions@
    &&& machine_kept(o, n)
}

/// `malloc(size = rcx)`: 0 for a zero size, else the address of `size`
/// fresh bytes.
pub open spec fn malloc_effect(o: Emu, n: Emu) -> bool {
    if o.regs.rcx == 0 {
        only_rax(o, n, 0)
    } else {
        crt_allocated(o, n, o.regs.rcx)
    }
}

/// `malloc(size = rcx)`: see [`malloc_effect`].
pub fn malloc(emu: &mut Emu)
    requires
        old(emu).wf(),
        old(emu).heap_arenas@.len() > 0,
        old(emu).regs.rcx != 0 ==> crt_alloc_result(*old(emu), old(emu).regs.rcx) is Some,
    ensures
        final(emu).wf(),
        malloc_effect(*old(emu), *final(emu)),
{
    let size = emu.regs().rcx;
    if size == 0 {
        emu.regs.rax = 0;
        return;
    }
    let base = allocate_memory(emu, size).unwrap();
    emu.regs.rax = base;
}

/// `nmemb * size`, saturating at `u64::MAX`.
pub open spec fn saturating_product(a: u64, b: u64) -> u64 {
    if a * b > u64::MAX {
        u64::MAX
    } else {
        (a * b) as u64
    }
}

/// `calloc(nmemb = rcx, size = rdx)`: for a zero total (saturating
/// product) 0; else a fresh block of the total, zeroed byte by byte; `rax`
/// is its address.
pub open spec fn calloc_effect(o: Emu, n: Emu) -> bool {
    let total = saturating_product(o.regs.rcx, o.regs.rdx);
    if total == 0 {
        only_rax(o, n, 0)
    } else {
        let a = crt_alloc_result(o, total)->0;
        &&& exists|m: Emu|
            #[trigger] crt_alloc_effect(o, m, total, Some(a)) && values_written(
                m.maps.regions@,
                n.maps.regions@,
                a,
                Seq::new(total as nat, |_i: int| 0u64),
                1,
            ) && n.heap_arenas@ == m.heap_arenas@ && n.handle_management == m.handle_management
        &&& n.regs == with_rax(o.regs, a)
        &&& n.cfg == o.cfg
        &&& n.exceptions@ == o.exceptions@
        &&& machine_kept(o, n)
    }
}

/// `calloc(nmemb = rcx, size = rdx)`: see [`calloc_effect`].
pub fn calloc(emu: &mut Emu)
    requires
        old(emu).wf(),
        old(emu).heap_arenas@.len() > 0,
        saturating_product(old(emu).regs.rcx, old(emu).regs.rdx) != 0 ==> crt_alloc_result(
            *old(emu),
            saturating_product(old(emu).regs.rcx, old(emu).regs.rdx),
        ) is Some,
    ensures
        final(emu).wf(),
        calloc_effect(*old(emu), *final(emu)),
{
    let nmemb = emu.regs().rcx;
    let size = emu.regs().rdx;
    let total = match nmemb.checked_mul(size) {
        Some(t) => t,
        None => u64::MAX,
    };
    if total == 0 {
        emu.regs.rax = 0;
        return;
    }
    let ghost o = *emu;
    proof {
        lemma_crt_alloc_fits(o, total);
    }
    let base = allocate_memory(emu, total).unwrap();
    let ghost m = *emu;
    let ghost vals = Seq::new(total as nat, |_i: int| 0u64);
    let ghost mut steps: Seq<Seq<Mem64>> = seq![m.maps.regions@];
    let mut i: u64 = 0;
    assert(vals.take(0) =~= Seq::<u64>::empty());
    while i < total
        invariant
            emu.wf(),
            i <= total,
            base + total <= u64::MAX,
            vals == Seq::new(total as nat, |_i: int| 0u64),
            write_chain(steps, base, vals.take(i as int), 1),
            steps[0] == m.maps.regions@,
            steps.last() == emu.maps.regions@,
            emu.cfg == m.cfg,
            emu.regs == m.regs,
            emu.heap_arenas == m.heap_arenas,
            emu.handle_management == m.handle_management,
            emu.exceptions == m.exceptions,
            machine_kept(m, *emu),
        decreases total - i,
    {
        let _ = emu.maps.write_byte(base + i, 0);
        proof {
            assert(le_bytes(0, 1) =~= seq![0u8]) by {
                assert(le_bytes(0, 0) =~= Seq::<u8>::empty());
            }
            assert(vals.take(i as int).push(0u64) =~= vals.take(i + 1));
            lemma_write_chain_push(steps, emu.maps.regions@, base, vals.take(i as int), 1, 0u64);
            steps = steps.push(emu.maps.regions@);
        }
        i = i + 1;
    }
    assert(vals.take(total as int) =~= vals);
    emu.regs.rax = base;
    assert(crt_alloc_effect(o, m, total, Some(base)));
}

/// `free(p = rcx)`: the pointer is released (see [`crt_release_effect`]);
/// `rax` is 0.
pub open spec fn free_effect(o: Emu, n: Emu) -> bool {
    &&& crt_release_effect(o, n, o.regs.rcx)
    &&& n.regs == with_rax(o.regs, 0)
    &&& n.cfg == o.cfg
    &&& n.exceptions@ == o.exceptions@
    &&& machine_kept(o, n)
}

/// `free(p = rcx)`: see [`free_effect`].
pub fn free(emu: &mut Emu)
    requires
        old(emu).wf(),
    ensures
        final(emu).wf(),
        free_effect(*old(emu), *final(emu)),
{
    let p = emu.regs().rcx;
    release(emu, p);
    emu.regs.rax = 0;
}

/// How many bytes a CRT move of a `prev`-byte block to `size` bytes keeps.
pub open spec fn crt_kept(prev: usize, size: u64) -> usize {
    if (prev as int) < size {
        prev
    } else {
        size as usize
    }
}

/// The size of the block a CRT pointer names.
pub open spec fn crt_block_size(k: AllocKind) -> Option<usize> {
    match k {
        AllocKind::Arena { size } => Some(size),
        AllocKind::Mapped { size, .. } => Some(size),
        AllocKind::Invalid => None,
    }
}

/// `realloc(p = rcx, size = rdx)`:
/// - a null pointer: 0 for a zero size, else as `malloc(size)`;
/// - a zero size: the marker 0x1337, nothing else done;
/// - a pointer that is no CRT block: 0;
/// - else a fresh block of `size` bytes gets the kept bytes (copied when
///   both ends can be reached) and the old block is released; `rax` is the
///   fresh block.
pub open spec fn realloc_effect(o: Emu, n: Emu) -> bool {
    let addr = o.regs.rcx;
    let size = o.regs.rdx;
    if addr == 0 {
        if size == 0 {
            only_rax(o, n, 0)
        } else {
            crt_allocated(o, n, size)
        }
    } else if size == 0 {
        only_rax(o, n, 0x1337)
    } else {
        match crt_block_size(crt_kind(o, addr)) {
            None => only_rax(o, n, 0),
            Some(prev) => {
                let a = crt_alloc_result(o, size)->0;
                let copy = crt_kept(prev, size);
                &&& exists|m1: Emu, m2: Emu|
                    {
                        &&& #[trigger] crt_alloc_effect(o, m1, size, Some(a))
                        &&& #[trigger] crt_release_effect(m2, n, addr)
                        &&& m1.cfg == o.cfg
                        &&& m2.cfg == m1.cfg
                        &&& m2.heap_arenas@ == m1.heap_arenas@
                        &&& m2.handle_management == m1.handle_management
                        &&& match bytes_at(m1.maps.regions@, addr, copy as int) {
                            Some(b) => wrote(m1.maps.regions@, m2.maps.regions@, a, b),
                            None => m2.maps.regions@ == m1.maps.regions@,
                        }
                    }
                &&& n.regs == with_rax(o.regs, a)
                &&& n.cfg == o.cfg
                &&& n.exceptions@ == o.exceptions@
                &&& machine_kept(o, n)
            },
        }
    }
}

/// `realloc(p = rcx, size = rdx)`: see [`realloc_effect`].
pub fn realloc(emu: &mut Emu)
    requires
        old(emu).wf(),
        old(emu).heap_arenas@.len() > 0,
        old(emu).regs.rdx != 0 && (old(emu).regs.rcx == 0 || crt_block_size(
            crt_kind(*old(emu), old(emu).regs.rcx),
        ) is Some) ==> crt_alloc_result(*old(emu), old(emu).regs.rdx) is Some,
    ensures
        final(emu).wf(),
        realloc_effect(*old(emu), *final(emu)),
{
    let addr = emu.regs().rcx;
    let size = emu.regs().rdx;
    if addr == 0 {
        if size == 0 {
            emu.regs.rax = 0;
            return;
        } else {
            let base = allocate_memory(emu, size).unwrap();
            emu.regs.rax = base;
            return;
        }
    }
    if size == 0 {
        emu.regs.rax = 0x1337;
        return;
    }
    let prev_size = match classify(emu, addr) {
        AllocKind::Arena { size } => size,
        AllocKind::Mapped { size, .. } => size,
        AllocKind::Invalid => {
            emu.regs.rax = 0;
            return;
        },
    };
    let ghost o = *emu;
    proof {
        lemma_crt_alloc_fits(o, size);
    }
    let new_addr = allocate_memory(emu, size).unwrap();
    let ghost m1 = *emu;
    let copy: usize = if prev_size < size as usize {
        prev_size
    } else {
        size as usize
    };
    proof {
        lemma_bytes_at_len(m1.maps.regions@, addr, copy as int);
    }
    let _ = emu.maps.memcpy(new_addr, addr, copy);
    let ghost m2 = *emu;
    release(emu, addr);
    emu.regs.rax = new_addr;
    assert(crt_alloc_effect(o, m1, size, Some(new_addr)));
    assert(crt_release_effect(m2, *emu, addr));
}

/// The length of the NUL-terminated string at `s`, from byte `n` on: the
/// count stops at a NUL or an unreadable byte, or once it passes 0x100000.
pub open spec fn strlen_from(rs: Seq<Mem64>, s: u64, n: nat) -> nat
    decreases 0x10_0001 - n,
{
    if n > 0x10_0000 {
        n
    } else {
        match bytes_at(rs, (s + n) as u64, 1) {
            Some(b) => if b[0] == 0 {
                n
            } else {
                strlen_from(rs, s, n + 1)
            },
            None => n,
        }
    }
}

/// A readable byte lies below the top of the address space.
proof fn lemma_readable_below_top(rs: Seq<Mem64>, addr: u64)
    requires
        forall|i: int| 0 <= i < rs.len() ==> crate::emu::region_wf(#[trigger] rs[i]),
        bytes_at(rs, addr, 1) is Some,
    ensures
        addr < u64::MAX,
{
    crate::memory::lemma_span(rs, addr, 1);
    let i = span(rs, addr, 1)->0;
    assert(crate::emu::region_wf(rs[i]));
}

/// `strlen(s = rcx)`: `rax` is [`strlen_from`] from 0.
pub fn strlen(emu: &mut Emu)
    requires
        old(emu).wf(),
    ensures
        only_rax(*old(emu), *final(emu), strlen_from(old(emu).maps.regions@, old(emu).regs.rcx, 0) as u64),
{
    let s = emu.regs().rcx;
    let mut n: u64 = 0;
    let ghost rs = emu.maps.regions@;
    loop
        invariant_except_break
            n <= 0x10_0000,
            s + n <= u64::MAX,
            strlen_from(rs, s, n as nat) == strlen_from(rs, s, 0),
        invariant
            emu.maps.wf(),
            rs == emu.maps.regions@,
        ensures
            n as nat == strlen_from(rs, s, 0),
        decreases 0x10_0001 - n,
    {
        proof {
            lemma_bytes_at_len(rs, (s + n) as u64, 1);
        }
        match emu.maps.read_byte(s + n) {
            Some(b) => {
                if b == 0 {
                    break;
                }
                proof {
                    lemma_readable_below_top(rs, (s + n) as u64);
                    assert(strlen_from(rs, s, n as nat) == strlen_from(rs, s, (n + 1) as nat));
                }
                n = n + 1;
            },
            None => {
                break;
            },
        }
        if n > 0x10_0000 {
            assert(strlen_from(rs, s, n as nat) == n);
            break;
        }
    }
    emu.regs.rax = n;
}

/// The byte at `a`, or 0 when it cannot be read (or `a` is past the top of
/// the address space).
pub open spec fn byte_or_zero(rs: Seq<Mem64>, a: int) -> u8 {
    if 0 <= a <= u64::MAX {
        match bytes_at(rs, a as u64, 1) {
            Some(b) => b[0],
            None => 0,
        }
    } else {
        0
    }
}

/// Where `strncmp` stops, from `i` on: at the first index below `n` whose
/// bytes differ or are both NUL, else at `n`.
pub open spec fn diff_stop(rs: Seq<Mem64>, s1: u64, s2: u64, n: u64, i: int) -> int
    decreases n - i,
{
    if i >= n {
        i
    } else {
        let b1 = byte_or_zero(rs, s1 + i);
        let b2 = byte_or_zero(rs, s2 + i);
        if b1 != b2 || b1 == 0 {
            i
        } else {
            diff_stop(rs, s1, s2, n, i + 1)
        }
    }
}

proof fn lemma_diff_stop_bounds(rs: Seq<Mem64>, s1: u64, s2: u64, n: u64, i: int)
    requires
        0 <= i <= n,
    ensures
        i <= diff_stop(rs, s1, s2, n, i) <= n,
    decreases n - i,
{
    if i < n {
        let b1 = byte_or_zero(rs, s1 + i);
        let b2 = byte_or_zero(rs, s2 + i);
        if !(b1 != b2 || b1 == 0) {
            lemma_diff_stop_bounds(rs, s1, s2, n, i + 1);
        }
    }
}

/// What `strncmp` returns: the difference of the bytes where it stopped
/// (0 when it ran to `n`).
pub open spec fn diff_result(rs: Seq<Mem64>, s1: u64, s2: u64, n: u64) -> i64 {
    let k = diff_stop(rs, s1, s2, n, 0);
    if k < n {
        (byte_or_zero(rs, s1 + k) - byte_or_zero(rs, s2 + k)) as i64
    } else {
        0
    }
}

/// The last index `strncmp` reads at: where it stopped, or `n - 1`.
pub open spec fn diff_last(rs: Seq<Mem64>, s1: u64, s2: u64, n: u64) -> int {
    let k = diff_stop(rs, s1, s2, n, 0);
    if k < n {
        k as int
    } else {
        n - 1
    }
}

/// What `rax` holds after comparing: the difference's two's-complement bits.
pub open spec fn diff_rax(rs: Seq<Mem64>, s1: u64, s2: u64, n: u64) -> u64 {
    diff_result(rs, s1, s2, n) as u64
}

/// The difference of two bytes.
fn byte_difference(b1: u8, b2: u8) -> (r: i64)
    ensures
        r == b1 - b2,
{
    (b1 as i64) - (b2 as i64)
}

/// The two's-complement bits of `v`.
fn bits_of(v: i64) -> (r: u64)
    ensures
        r == v as u64,
{
    v as u64
}

/// Whether the last byte a comparison reads lies below the top of the
/// address space for both strings.
pub open spec fn diff_in_range(rs: Seq<Mem64>, s1: u64, s2: u64, n: u64) -> bool {
    n > 0 ==> {
        let last = diff_last(rs, s1, s2, n);
        &&& s1 + last <= u64::MAX
        &&& s2 + last <= u64::MAX
    }
}

/// The byte at `a`, or 0 when it cannot be read.
fn byte_or_zero_at(emu: &Emu, a: u64) -> (r: u8)
    requires
        emu.maps.wf(),
    ensures
        r == byte_or_zero(emu.maps.regions@, a as int),
{
    proof {
        lemma_bytes_at_len(emu.maps.regions@, a, 1);
    }
    match emu.maps.read_byte(a) {
        Some(b) => b,
        None => 0,
    }
}

/// `strncmp(s1 = rcx, s2 = rdx, n = r8)`: compares at most `n` bytes (an
/// unreadable byte counts as 0); `rax` is [`diff_result`] as a `u64`.
pub fn strncmp(emu: &mut Emu)
    requires
        old(emu).wf(),
        diff_in_range(old(emu).maps.regions@, old(emu).regs.rcx, old(emu).regs.rdx, old(emu).regs.r8),
    ensures
        only_rax(
            *old(emu),
            *final(emu),
            diff_rax(old(emu).maps.regions@, old(emu).regs.rcx, old(emu).regs.rdx, old(emu).regs.r8),
        ),
{
    let s1 = emu.regs().rcx;
    let s2 = emu.regs().rdx;
    let n = emu.regs().r8;
    let ghost rs = emu.maps.regions@;
    let ghost k = diff_stop(rs, s1, s2, n, 0);
    proof {
        lemma_diff_stop_bounds(rs, s1, s2, n, 0);
    }
    let mut i: u64 = 0;
    let ghost mut gi: int = 0;
    let mut res: i64 = 0;
    while i < n
        invariant_except_break
            i <= k,
            gi == i,
            diff_stop(rs, s1, s2, n, gi) == k,
            res == 0,
        invariant
            emu.maps.wf(),
            rs == emu.maps.regions@,
            k == diff_stop(rs, s1, s2, n, 0),
            k <= n,
            diff_in_range(rs, s1, s2, n),
        ensures
            res == diff_result(rs, s1, s2, n),
        decreases n - i,
    {
        let b1 = byte_or_zero_at(emu, s1 + i);
        let b2 = byte_or_zero_at(emu, s2 + i);
        if b1 != b2 {
            res = byte_difference(b1, b2);
            break;
        }
        if b1 == 0 {
            break;
        }
        proof {
            assert(diff_stop(rs, s1, s2, n, gi) == diff_stop(rs, s1, s2, n, gi + 1));
            lemma_diff_stop_bounds(rs, s1, s2, n, gi + 1);
        }
        i = i + 1;
        proof {
            gi = gi + 1;
        }
    }
    emu.regs.rax = bits_of(res);
}

/// `memcpy(dst = rcx, src = rdx, n = r8)`: the `n` bytes at `src` (at most
/// `usize::MAX`), when they can be read, are written at `dst` (when they
/// fit); `rax` is `dst`.
pub open spec fn memcpy_effect(o: Emu, n: Emu) -> bool {
    let sz = if o.regs.r8 > usize::MAX {
        usize::MAX as int
    } else {
        o.regs.r8 as int
    };
    &&& match bytes_at(o.maps.regions@, o.regs.rdx, sz) {
        Some(b) => wrote(o.maps.regions@, n.maps.regions@, o.regs.rcx, b),
        None => n.maps.regions@ == o.maps.regions@,
    }
    &&& n.regs == with_rax(o.regs, o.regs.rcx)
    &&& n.heap_arenas@ == o.heap_arenas@
    &&& n.handle_management == o.handle_management
    &&& n.cfg == o.cfg
    &&& n.exceptions@ == o.exceptions@
    &&& machine_kept(o, n)
}

/// `memcpy(dst = rcx, src = rdx, n = r8)`: see [`memcpy_effect`].
pub fn memcpy(emu: &mut Emu)
    requires
        old(emu).wf(),
    ensures
        final(emu).wf(),
        memcpy_effect(*old(emu), *final(emu)),
{
    let dst = emu.regs().rcx;
    let src = emu.regs().rdx;
    let n = emu.regs().r8;
    let sz: usize = if n > usize::MAX as u64 {
        usize::MAX
    } else {
        n as usize
    };
    proof {
        lemma_bytes_at_len(emu.maps.regions@, src, sz as int);
    }
    if let Some(bytes) = emu.maps.read_bytes(src, sz) {
        let _ = emu.maps.write_bytes(dst, bytes.as_slice());
    }
    emu.regs.rax = dst;
}

/// `abort()`: the emulation is stopped; `rax` is 0.
pub fn abort(emu: &mut Emu)
    ensures
        *final(emu) == (Emu { is_running: 0, regs: with_rax(old(emu).regs, 0), ..*old(emu) }),
{
    emu.is_running = 0;
    emu.regs.rax = 0;
}

/// Return 0 and do nothing else.
fn return_zero(emu: &mut Emu)
    ensures
        only_rax(*old(emu), *final(emu), 0),
        final(emu).maps == old(emu).maps,
{
    emu.regs.rax = 0;
}

/// `_set_app_type(type)`: accepted; `rax` is 0.
pub fn _set_app_type(emu: &mut Emu)
    ensures
        only_rax(*old(emu), *final(emu), 0),
{
    return_zero(emu);
}

/// `_initialize_narrow_environment()`: accepted; `rax` is 0.
pub fn _initialize_narrow_environment(emu: &mut Emu)
    ensures
        only_rax(*old(emu), *final(emu), 0),
{
    return_zero(emu);
}

/// `_configure_narrow_argv(mode)`: accepted; `rax` is 0.
pub fn _configure_narrow_argv(emu: &mut Emu)
    ensures
        only_rax(*old(emu), *final(emu), 0),
{
    return_zero(emu);
}

/// `setvbuf(stream, buf, mode, size)`: no buffering is emulated; reports
/// success, `rax` 0.
pub fn setvbuf(emu: &mut Emu)
    ensures
        only_rax(*old(emu), *final(emu), 0),
{
    return_zero(emu);
}

/// `_set_new_mode(newmode)`: no CRT state is kept; the previous mode is
/// reported as 0.
pub fn _set_new_mode(emu: &mut Emu)
    ensures
        only_rax(*old(emu), *final(emu), 0),
{
    return_zero(emu);
}

/// `puts(s)`: the text is only logged; `rax` is 0.
pub fn puts(emu: &mut Emu)
    ensures
        only_rax(*old(emu), *final(emu), 0),
{
    return_zero(emu);
}

/// `signal(sig, handler)`: accepted; `rax` is 0.
pub fn signal(emu: &mut Emu)
    ensures
        only_rax(*old(emu), *final(emu), 0),
{
    return_zero(emu);
}

/// `_initialize_onexit_table(table)`: accepted; `rax` is 0.
pub fn _initialize_onexit_table(emu: &mut Emu)
    ensures
        only_rax(*old(emu), *final(emu), 0),
{
    return_zero(emu);
}

/// `_register_onexit_function(table, callback)`: accepted; `rax` is 0.
pub fn _register_onexit_function(emu: &mut Emu)
    ensures
        only_rax(*old(emu), *final(emu), 0),
{
    return_zero(emu);
}

/// `_get_initial_narrow_environment()`: no environment; `rax` is 0.
pub fn _get_initial_narrow_environment(emu: &mut Emu)
    ensures
        only_rax(*old(emu), *final(emu), 0),
{
    return_zero(emu);
}

/// `__acrt_iob_func(index)`: no stream table; `rax` is 0.
pub fn __acrt_iob_func(emu: &mut Emu)
    ensures
        only_rax(*old(emu), *final(emu), 0),
{
    return_zero(emu);
}

/// `_set_invalid_parameter_handler(handler)`: accepted; the previous
/// handler is reported as 0.
pub fn set_invalid_parameter_handler(emu: &mut Emu)
    ensures
        only_rax(*old(emu), *final(emu), 0),
{
    return_zero(emu);
}

/// `_crt_atexit(function)`: accepted; `rax` is 0.
pub fn _crt_atexit(emu: &mut Emu)
    ensures
        only_rax(*old(emu), *final(emu), 0),
{
    return_zero(emu);
}

/// A CRT cell: `size` fresh bytes (which must be found) receive `data`;
/// `rax` is their address.
pub open spec fn crt_cell_effect(o: Emu, n: Emu, size: u64, data: Seq<u8>) -> bool {
    let a = crt_alloc_result(o, size)->0;
    &&& exists|m: Emu|
        #[trigger] crt_alloc_effect(o, m, size, Some(a)) && wrote(m.maps.regions@, n.maps.regions@, a, data)
            && n.heap_arenas@ == m.heap_arenas@ && n.handle_management == m.handle_management
    &&& n.regs == with_rax(o.regs, a)
    &&& n.cfg == o.cfg
    &&& n.exceptions@ == o.exceptions@
    &&& machine_kept(o, n)
}

/// `__p__commode()`: a fresh dword holding 0; `rax` is its address.
pub fn __p__commode(emu: &mut Emu)
    requires
        old(emu).wf(),
        old(emu).heap_arenas@.len() > 0,
        crt_alloc_result(*old(emu), 4) is Some,
    ensures
        final(emu).wf(),
        crt_cell_effect(*old(emu), *final(emu), 4, le_bytes(0, 4)),
{
    let ghost o = *emu;
    let p = allocate_memory(emu, 4).unwrap();
    let ghost m = *emu;
    let _ = emu.maps.write_dword(p, 0);
    emu.regs.rax = p;
    assert(crt_alloc_effect(o, m, 4, Some(p)));
}

/// `__p__fmode()`: a fresh dword holding 0; `rax` is its address.
pub fn __p__fmode(emu: &mut Emu)
    requires
        old(emu).wf(),
        old(emu).heap_arenas@.len() > 0,
        crt_alloc_result(*old(emu), 4) is Some,
    ensures
        final(emu).wf(),
        crt_cell_effect(*old(emu), *final(emu), 4, le_bytes(0, 4)),
{
    let ghost o = *emu;
    let p = allocate_memory(emu, 4).unwrap();
    let ghost m = *emu;
    let _ = emu.maps.write_dword(p, 0);
    emu.regs.rax = p;
    assert(crt_alloc_effect(o, m, 4, Some(p)));
}

/// `__p__environ()`: an empty environment, a fresh qword holding a null
/// pointer; `rax` is its address.
pub fn __p__environ(emu: &mut Emu)
    requires
        old(emu).wf(),
        old(emu).heap_arenas@.len() > 0,
        crt_alloc_result(*old(emu), 8) is Some,
    ensures
        final(emu).wf(),
        crt_cell_effect(*old(emu), *final(emu), 8, le_bytes(0, 8)),
{
    let ghost o = *emu;
    let envp = allocate_memory(emu, 8).unwrap();
    let ghost m = *emu;
    let _ = emu.maps.write_qword(envp, 0);
    emu.regs.rax = envp;
    assert(crt_alloc_effect(o, m, 8, Some(envp)));
}

/// `__p___argc()`: a fresh dword holding 1; `rax` is its address.
pub fn __p___argc(emu: &mut Emu)
    requires
        old(emu).wf(),
        old(emu).heap_arenas@.len() > 0,
        crt_alloc_result(*old(emu), 4) is Some,
    ensures
        final(emu).wf(),
        crt_cell_effect(*old(emu), *final(emu), 4, le_bytes(1, 4)),
{
    let ghost o = *emu;
    let argc_addr = allocate_memory(emu, 4).unwrap();
    let ghost m = *emu;
    let _ = emu.maps.write_dword(argc_addr, 1);
    emu.regs.rax = argc_addr;
    assert(crt_alloc_effect(o, m, 4, Some(argc_addr)));
}

/// What `__p___argv()` does: from the process arena, which has room for
/// three 16-byte granules, it takes an argv array `a1` (16 bytes), the
/// program name `a2` (12 bytes) and a pointer cell `a3` (8 bytes); writes
/// the name `program.exe`, `argv[0] = a2`, `argv[1] = 0` and `*a3 = a1`;
/// `rax` is `a3`.
pub open spec fn argv_effect(o: Emu, n: Emu) -> bool {
    let a1 = o.heap_arenas@[0].next;
    let a2 = (a1 + 16) as u64;
    let a3 = (a1 + 32) as u64;
    &&& exists|h1: Seq<crate::emu::O1Heap>, h2: Seq<crate::emu::O1Heap>|
        #[trigger] arena_allocated(o.heap_arenas@, h1, 0, a1, 16) && #[trigger] arena_allocated(
            h1,
            h2,
            0,
            a2,
            12,
        ) && arena_allocated(h2, n.heap_arenas@, 0, a3, 8)
    &&& exists|r1: Seq<Mem64>, r2: Seq<Mem64>, r3: Seq<Mem64>|
        #[trigger] wrote(o.maps.regions@, r1, a2, encode_utf8("program.exe\0"@).push(0u8)) && #[trigger] wrote(
            r1,
            r2,
            a1,
            le_bytes(a2 as nat, 8),
        ) && #[trigger] wrote(r2, r3, (a1 + 8) as u64, le_bytes(0, 8)) && wrote(
            r3,
            n.maps.regions@,
            a3,
            le_bytes(a1 as nat, 8),
        )
    &&& n.handle_management == o.handle_management
    &&& n.regs == with_rax(o.regs, a3)
    &&& n.cfg == o.cfg
    &&& n.exceptions@ == o.exceptions@
    &&& machine_kept(o, n)
}

/// The arena has room for `k` more 16-byte granules.
pub open spec fn granule_room(a: crate::emu::O1Heap, k: int) -> bool {
    &&& a.capacity >= 16
    &&& a.next + 16 * k <= a.base + a.capacity
}

/// The process arena has room for `k` more 16-byte granules.
pub open spec fn arena_has_granules(emu: Emu, k: int) -> bool {
    &&& emu.heap_arenas@.len() > 0
    &&& granule_room(emu.heap_arenas@[0], k)
}

/// A request of at most 16 bytes takes one granule at the arena's next
/// free address.
proof fn lemma_one_granule(e: Emu, size: u64, k: int)
    requires
        arena_has_granules(e, k),
        k >= 1,
        0 < size <= 16,
    ensures
        crt_alloc_result(e, size) == Some(e.heap_arenas@[0].next),
        crate::emu::granules(size as usize as int) == 16,
{
    let s = size as int;
    assert((s + 15) / 16 * 16 == 16) by (nonlinear_arith)
        requires
            0 < s <= 16,
    ;
}

/// `__p___argv()`: see [`argv_effect`].
pub fn __p___argv(emu: &mut Emu)
    requires
        old(emu).wf(),
        arena_has_granules(*old(emu), 3),
    ensures
        final(emu).wf(),
        argv_effect(*old(emu), *final(emu)),
{
    let ghost o = *emu;
    proof {
        lemma_one_granule(*emu, 16, 3);
    }
    let argv_array_addr = allocate_memory(emu, 16).unwrap();
    let ghost h1 = emu.heap_arenas@;
    proof {
        lemma_one_granule(*emu, 12, 2);
    }
    let prog_name = "program.exe\0";
    let prog_name_addr = allocate_memory(emu, 12).unwrap();
    let ghost h2 = emu.heap_arenas@;
    let ghost r0 = emu.maps.regions@;
    let _ = emu.maps.write_string(prog_name_addr, prog_name);
    let ghost r1 = emu.maps.regions@;
    let _ = emu.maps.write_qword(argv_array_addr, prog_name_addr);
    let ghost r2 = emu.maps.regions@;
    let _ = emu.maps.write_qword(argv_array_addr + 8, 0);
    let ghost r3 = emu.maps.regions@;
    proof {
        lemma_one_granule(*emu, 8, 1);
    }
    let p_argv_addr = allocate_memory(emu, 8).unwrap();
    let _ = emu.maps.write_qword(p_argv_addr, argv_array_addr);
    emu.regs.rax = p_argv_addr;
    assert(arena_allocated(o.heap_arenas@, h1, 0, argv_array_addr, 16));
    assert(arena_allocated(h1, h2, 0, prog_name_addr, 12));
    assert(wrote(o.maps.regions@, r1, prog_name_addr, encode_utf8("program.exe\0"@).push(0u8)));
    assert(wrote(r1, r2, argv_array_addr, le_bytes(prog_name_addr as nat, 8)));
    assert(wrote(r2, r3, (argv_array_addr + 8) as u64, le_bytes(0, 8)));
    assert(argv_array_addr == o.heap_arenas@[0].next);
    assert(prog_name_addr == (argv_array_addr + 16) as u64);
    assert(p_argv_addr == (argv_array_addr + 32) as u64);
    assert(arena_allocated(h2, emu.heap_arenas@, 0, p_argv_addr, 8));
    assert(wrote(r3, emu.maps.regions@, p_argv_addr, le_bytes(argv_array_addr as nat, 8)));
    assert(emu.handle_management == o.handle_management);
    assert(emu.regs == with_rax(o.regs, p_argv_addr));
    assert(machine_kept(o, *emu));
}

/// The kind of argument a `printf` conversion takes.
#[derive(Clone, Copy, Debug, PartialEq, Eq, Structural)]
pub enum FormatArg {
    /// `%d`, `%i`
    Int,
    /// `%x`, `%X`
    Hex,
    /// `%p`
    Ptr,
    /// `%s`
    Str,
    /// Any other conversion character.
    Unknown,
}

/// The argument kind of the conversion character `c`.
pub open spec fn format_arg_of(c: char) -> FormatArg {
    if c == 'd' || c == 'i' {
        FormatArg::Int
    } else if c == 'x' || c == 'X' {
        FormatArg::Hex
    } else if c == 'p' {
        FormatArg::Ptr
    } else if c == 's' {
        FormatArg::Str
    } else {
        FormatArg::Unknown
    }
}

/// The conversions of a format string, in order: each `%` takes the next
/// character as its conversion, `%%` being a literal percent sign and a
/// trailing `%` nothing.
pub open spec fn format_args(s: Seq<char>) -> Seq<FormatArg>
    decreases s.len(),
{
    if s.len() == 0 {
        Seq::empty()
    } else if s[0] == '%' {
        if s.len() == 1 {
            Seq::empty()
        } else if s[1] == '%' {
            format_args(s.skip(2))
        } else {
            seq![format_arg_of(s[1])] + format_args(s.skip(2))
        }
    } else {
        format_args(s.skip(1))
    }
}

fn format_arg(c: char) -> (r: FormatArg)
    ensures
        r == format_arg_of(c),
{
    if c == 'd' || c == 'i' {
        FormatArg::Int
    } else if c == 'x' || c == 'X' {
        FormatArg::Hex
    } else if c == 'p' {
        FormatArg::Ptr
    } else if c == 's' {
        FormatArg::Str
    } else {
        FormatArg::Unknown
    }
}

/// The conversions of `fmt` (see [`format_args`]).
pub fn parse_format_specifiers(fmt: &str) -> (r: Vec<FormatArg>)
    ensures
        r@ == format_args(fmt@),
{
    let cs = chars_of(fmt);
    let mut out: Vec<FormatArg> = Vec::new();
    let mut i: usize = 0;
    assert(cs@.skip(0) =~= cs@);
    while i < cs.len()
        invariant
            i <= cs@.len(),
            cs@ == fmt@,
            out@ + format_args(cs@.skip(i as int)) == format_args(cs@),
        decreases cs@.len() - i,
    {
        let ghost rest = cs@.skip(i as int);
        if cs[i] == '%' {
            if i + 1 < cs.len() {
                let next = cs[i + 1];
                assert(rest.skip(2) =~= cs@.skip(i + 2));
                if next != '%' {
                    out.push(format_arg(next));
                    assert(out@ + format_args(cs@.skip(i + 2)) =~= format_args(cs@));
                }
                i = i + 2;
            } else {
                assert(cs@.skip(i + 1) =~= Seq::<char>::empty());
                i = i + 1;
            }
        } else {
            assert(rest.skip(1) =~= cs@.skip(i + 1));
            i = i + 1;
        }
    }
    assert(cs@.skip(i as int) =~= Seq::<char>::empty());
    assert(out@ + Seq::<FormatArg>::empty() =~= out@);
    out
}

/// The `va_list` pointer of a `__stdio_common_vfprintf` call: the fifth
/// argument, on the stack at `rsp + 0x20`.
pub open spec fn va_list_of(emu: Emu) -> u64 {
    le_u64(bytes_at(emu.maps.regions@, (emu.regs.rsp + 0x20) as u64, 8)->0, 0)
}

/// A `__stdio_common_vfprintf` call can be made: its `va_list` can be read,
/// every conversion of the format string (at `r8`) is known, and there is a
/// readable qword argument for each.
pub open spec fn vfprintf_ok(emu: Emu) -> bool {
    let rs = emu.maps.regions@;
    let specs = format_args(string_at(rs, emu.regs.r8));
    let va = va_list_of(emu);
    &&& emu.regs.rsp + 0x20 <= u64::MAX
    &&& bytes_at(rs, (emu.regs.rsp + 0x20) as u64, 8) is Some
    &&& va + 8 * specs.len() <= u64::MAX
    &&& forall|i: int|
        0 <= i < specs.len() ==> #[trigger] specs[i] != FormatArg::Unknown && bytes_at(
            rs,
            (va + 8 * i) as u64,
            8,
        ) is Some
}

/// `__stdio_common_vfprintf(options, file, format, locale, va_list)`: the
/// output is only logged; `rax` is 1.
pub fn __stdio_common_vfprintf(emu: &mut Emu)
    requires
        old(emu).wf(),
        vfprintf_ok(*old(emu)),
    ensures
        only_rax(*old(emu), *final(emu), 1),
{
    let ghost rs = emu.maps.regions@;
    let va_list = emu.maps.read_qword(emu.regs().rsp + 0x20).unwrap();
    let fmt_str = emu.maps.read_string(emu.regs().r8);
    let specs = parse_format_specifiers(fmt_str.as_str());
    let mut current_ptr = va_list;
    let mut k: usize = 0;
    while k < specs.len()
        invariant
            emu.maps.wf(),
            rs == emu.maps.regions@,
            k <= specs@.len(),
            specs@ == format_args(string_at(rs, emu.regs.r8)),
            va_list == va_list_of(*emu),
            current_ptr == va_list + 8 * k,
            vfprintf_ok(*emu),
        decreases specs@.len() - k,
    {
        assert(specs@[k as int] != FormatArg::Unknown);
        let _arg = emu.maps.read_qword(current_ptr).unwrap();
        current_ptr = current_ptr + 8;
        k = k + 1;
    }
    emu.regs.rax = 1;
}

/// The CRT functions emulated by name.
#[derive(Clone, Copy, Debug, PartialEq, Eq, Structural)]
pub enum CrtApi {
    InitializeOnexitTable,
    RegisterOnexitFunction,
    GetInitialNarrowEnvironment,
    InitializeNarrowEnvironment,
    ConfigureNarrowArgv,
    SetInvalidParameterHandler,
    SetAppType,
    Malloc,
    Calloc,
    Free,
    Realloc,
    CrtAtexit,
    PArgv,
    PArgc,
    PEnviron,
    AcrtIobFunc,
    PCommode,
    PFmode,
    SetNewMode,
    Setvbuf,
    StdioCommonVfprintf,
    Puts,
    Strlen,
    StrNCompare,
    Memcpy,
    Abort,
    Signal,
}

/// The CRT function named `name`, if it is one of those emulated.
pub open spec fn crt_api(name: Seq<char>) -> Option<CrtApi> {
    if name == "_initialize_onexit_table"@ {
        Some(CrtApi::InitializeOnexitTable)
    } else if name == "_register_onexit_function"@ {
        Some(CrtApi::RegisterOnexitFunction)
    } else if name == "_get_initial_narrow_environment"@ {
        Some(CrtApi::GetInitialNarrowEnvironment)
    } else if name == "_initialize_narrow_environment"@ {
        Some(CrtApi::InitializeNarrowEnvironment)
    } else if name == "_configure_narrow_argv"@ {
        Some(CrtApi::ConfigureNarrowArgv)
    } else if name == "_set_invalid_parameter_handler"@ {
        Some(CrtApi::SetInvalidParameterHandler)
    } else if name == "_set_app_type"@ {
        Some(CrtApi::SetAppType)
    } else if name == "malloc"@ {
        Some(CrtApi::Malloc)
    } else if name == "calloc"@ {
        Some(CrtApi::Calloc)
    } else if name == "free"@ {
        Some(CrtApi::Free)
    } else if name == "realloc"@ {
        Some(CrtApi::Realloc)
    } else if name == "_crt_atexit"@ {
        Some(CrtApi::CrtAtexit)
    } else if name == "__p___argv"@ {
        Some(CrtApi::PArgv)
    } else if name == "__p___argc"@ {
        Some(CrtApi::PArgc)
    } else if name == "__p__environ"@ {
        Some(CrtApi::PEnviron)
    } else if name == "__acrt_iob_func"@ {
        Some(CrtApi::AcrtIobFunc)
    } else if name == "__p__commode"@ {
        Some(CrtApi::PCommode)
    } else if name == "__p__fmode"@ {
        Some(CrtApi::PFmode)
    } else if name == "_set_new_mode"@ {
        Some(CrtApi::SetNewMode)
    } else if name == "setvbuf"@ {
        Some(CrtApi::Setvbuf)
    } else if name == "__stdio_common_vfprintf"@ {
        Some(CrtApi::StdioCommonVfprintf)
    } else if name == "puts"@ {
        Some(CrtApi::Puts)
    } else if name == "strlen"@ {
        Some(CrtApi::Strlen)
    } else if name == "strncmp"@ {
        Some(CrtApi::StrNCompare)
    } else if name == "memcpy"@ {
        Some(CrtApi::Memcpy)
    } else if name == "abort"@ {
        Some(CrtApi::Abort)
    } else if name == "signal"@ {
        Some(CrtApi::Signal)
    } else {
        None
    }
}

/// The CRT function named `name` (see [`crt_api`]).
pub fn crt_api_of(name: &str) -> (r: Option<CrtApi>)
    ensures
        r == crt_api(name@),
{
    if str_eq(name, "_initialize_onexit_table") {
        Some(CrtApi::InitializeOnexitTable)
    } else if str_eq(name, "_register_onexit_function") {
        Some(CrtApi::RegisterOnexitFunction)
    } else if str_eq(name, "_get_initial_narrow_environment") {
        Some(CrtApi::GetInitialNarrowEnvironment)
    } else if str_eq(name, "_initialize_narrow_environment") {
        Some(CrtApi::InitializeNarrowEnvironment)
    } else if str_eq(name, "_configure_narrow_argv") {
        Some(CrtApi::ConfigureNarrowArgv)
    } else if str_eq(name, "_set_invalid_parameter_handler") {
        Some(CrtApi::SetInvalidParameterHandler)
    } else if str_eq(name, "_set_app_type") {
        Some(CrtApi::SetAppType)
    } else if str_eq(name, "malloc") {
        Some(CrtApi::Malloc)
    } else if str_eq(name, "calloc") {
        Some(CrtApi::Calloc)
    } else if str_eq(name, "free") {
        Some(CrtApi::Free)
    } else if str_eq(name, "realloc") {
        Some(CrtApi::Realloc)
    } else if str_eq(name, "_crt_atexit") {
        Some(CrtApi::CrtAtexit)
    } else if str_eq(name, "__p___argv") {
        Some(CrtApi::PArgv)
    } else if str_eq(name, "__p___argc") {
        Some(CrtApi::PArgc)
    } else if str_eq(name, "__p__environ") {
        Some(CrtApi::PEnviron)
    } else if str_eq(name, "__acrt_iob_func") {
        Some(CrtApi::AcrtIobFunc)
    } else if str_eq(name, "__p__commode") {
        Some(CrtApi::PCommode)
    } else if str_eq(name, "__p__fmode") {
        Some(CrtApi::PFmode)
    } else if str_eq(name, "_set_new_mode") {
        Some(CrtApi::SetNewMode)
    } else if str_eq(name, "setvbuf") {
        Some(CrtApi::Setvbuf)
    } else if str_eq(name, "__stdio_common_vfprintf") {
        Some(CrtApi::StdioCommonVfprintf)
    } else if str_eq(name, "puts") {
        Some(CrtApi::Puts)
    } else if str_eq(name, "strlen") {
        Some(CrtApi::Strlen)
    } else if str_eq(name, "strncmp") {
        Some(CrtApi::StrNCompare)
    } else if str_eq(name, "memcpy") {
        Some(CrtApi::Memcpy)
    } else if str_eq(name, "abort") {
        Some(CrtApi::Abort)
    } else if str_eq(name, "signal") {
        Some(CrtApi::Signal)
    } else {
        None
    }
}

/// What calling the CRT function `api` needs of the state.
pub open spec fn crt_call_ok(api: CrtApi, emu: Emu) -> bool {
    &&& emu.wf()
    &&& match api {
        CrtApi::Malloc => emu.heap_arenas@.len() > 0 && (emu.regs.rcx != 0 ==> crt_alloc_result(
            emu,
            emu.regs.rcx,
        ) is Some),
        CrtApi::Calloc => emu.heap_arenas@.len() > 0 && (saturating_product(emu.regs.rcx, emu.regs.rdx)
            != 0 ==> crt_alloc_result(emu, saturating_product(emu.regs.rcx, emu.regs.rdx)) is Some),
        CrtApi::Realloc => emu.heap_arenas@.len() > 0 && (emu.regs.rdx != 0 && (emu.regs.rcx == 0
            || crt_block_size(crt_kind(emu, emu.regs.rcx)) is Some) ==> crt_alloc_result(
            emu,
            emu.regs.rdx,
        ) is Some),
        CrtApi::PArgv => arena_has_granules(emu, 3),
        CrtApi::PArgc | CrtApi::PCommode | CrtApi::PFmode => emu.heap_arenas@.len() > 0
            && crt_alloc_result(emu, 4) is Some,
        CrtApi::PEnviron => emu.heap_arenas@.len() > 0 && crt_alloc_result(emu, 8) is Some,
        CrtApi::StdioCommonVfprintf => vfprintf_ok(emu),
        CrtApi::StrNCompare => diff_in_range(emu.maps.regions@, emu.regs.rcx, emu.regs.rdx, emu.regs.r8),
        _ => true,
    }
}

/// What calling the CRT function `api` does to `o`, giving `n`.
pub open spec fn crt_effect(api: CrtApi, o: Emu, n: Emu) -> bool {
    match api {
        CrtApi::Malloc => malloc_effect(o, n),
        CrtApi::Calloc => calloc_effect(o, n),
        CrtApi::Free => free_effect(o, n),
        CrtApi::Realloc => realloc_effect(o, n),
        CrtApi::PArgv => argv_effect(o, n),
        CrtApi::PArgc => crt_cell_effect(o, n, 4, le_bytes(1, 4)),
        CrtApi::PCommode | CrtApi::PFmode => crt_cell_effect(o, n, 4, le_bytes(0, 4)),
        CrtApi::PEnviron => crt_cell_effect(o, n, 8, le_bytes(0, 8)),
        CrtApi::StdioCommonVfprintf => only_rax(o, n, 1),
        CrtApi::Strlen => only_rax(o, n, strlen_from(o.maps.regions@, o.regs.rcx, 0) as u64),
        CrtApi::StrNCompare => only_rax(o, n, diff_rax(o.maps.regions@, o.regs.rcx, o.regs.rdx, o.regs.r8)),
        CrtApi::Memcpy => memcpy_effect(o, n),
        CrtApi::Abort => n == (Emu { is_running: 0, regs: with_rax(o.regs, 0), ..o }),
        _ => only_rax(o, n, 0),
    }
}

/// The CRT function named `api` can run on `emu`: a known one's
/// conditions hold ([`crt_call_ok`]), or unknown names are to be skipped.
pub open spec fn dispatch_ok(api: Seq<char>, emu: Emu) -> bool {
    match crt_api(api) {
        Some(f) => crt_call_ok(f, emu),
        None => emu.cfg.skip_unimplemented,
    }
}

/// What running the CRT function named `api` on `o` leaves, `n`, and
/// yields, `r`: a known one has its effect and yields an empty string; an
/// unknown one changes nothing and yields the name in ASCII lower case.
pub open spec fn dispatched(api: Seq<char>, o: Emu, n: Emu, r: String) -> bool {
    match crt_api(api) {
        Some(f) => r@ == Seq::<char>::empty() && crt_effect(f, o, n) && n.wf(),
        None => r@ == lower_seq(api) && n == o,
    }
}

/// Run the CRT function named `api`. A known name runs it and yields an
/// empty string; an unknown one (allowed only when
/// `cfg.skip_unimplemented` is set) changes nothing and yields the name in
/// ASCII lower case.
pub fn gateway_by_name(api: &str, emu: &mut Emu) -> (r: String)
    requires
        dispatch_ok(api@, *old(emu)),
    ensures
        dispatched(api@, *old(emu), *final(emu), r),
{
    match crt_api_of(api) {
        Some(f) => {
            match f {
                CrtApi::InitializeOnexitTable => _initialize_onexit_table(emu),
                CrtApi::RegisterOnexitFunction => _register_onexit_function(emu),
                CrtApi::GetInitialNarrowEnvironment => _get_initial_narrow_environment(emu),
                CrtApi::InitializeNarrowEnvironment => _initialize_narrow_environment(emu),
                CrtApi::ConfigureNarrowArgv => _configure_narrow_argv(emu),
                CrtApi::SetInvalidParameterHandler => set_invalid_parameter_handler(emu),
                CrtApi::SetAppType => _set_app_type(emu),
                CrtApi::Malloc => malloc(emu),
                CrtApi::Calloc => calloc(emu),
                CrtApi::Free => free(emu),
                CrtApi::Realloc => realloc(emu),
                CrtApi::CrtAtexit => _crt_atexit(emu),
                CrtApi::PArgv => __p___argv(emu),
                CrtApi::PArgc => __p___argc(emu),
                CrtApi::PEnviron => __p__environ(emu),
                CrtApi::AcrtIobFunc => __acrt_iob_func(emu),
                CrtApi::PCommode => __p__commode(emu),
                CrtApi::PFmode => __p__fmode(emu),
                CrtApi::SetNewMode => _set_new_mode(emu),
                CrtApi::Setvbuf => setvbuf(emu),
                CrtApi::StdioCommonVfprintf => __stdio_common_vfprintf(emu),
                CrtApi::Puts => puts(emu),
                CrtApi::Strlen => strlen(emu),
                CrtApi::StrNCompare => strncmp(emu),
                CrtApi::Memcpy => memcpy(emu),
                CrtApi::Abort => abort(emu),
                CrtApi::Signal => signal(emu),
            }
            String::new()
        },
        None => lower_string(api),
    }
}

/// Run the CRT function at `addr`: the one named by the part after the
/// last `!` of the name the resolver gives `addr` (see
/// [`guess_api_name`]; `scan` names the addresses no registered module
/// exports). The name must be one that can run (see [`dispatch_ok`]).
pub fn gateway<F: FnMut(u64) -> String>(addr: u64, emu: &mut Emu, scan: &mut F) -> (r: String)
    requires
        old(emu).wf(),
        forall|g: F, a: u64| call_requires(g, (a,)),
        match old(emu).export_indexes.address_owner_named(addr, 0) {
            Some((m, n)) => dispatch_ok(after_last(api_label(m, n), '!'), *old(emu)),
            None => forall|s: String|
                #[trigger] call_ensures(*old(scan), (addr,), s) ==> dispatch_ok(after_last(s@, '!'), *old(emu)),
        },
    ensures
        match old(emu).export_indexes.address_owner_named(addr, 0) {
            Some((m, n)) => dispatched(after_last(api_label(m, n), '!'), *old(emu), *final(emu), r),
            None => exists|s: String|
                #[trigger] call_ensures(*old(scan), (addr,), s) && dispatched(
                    after_last(s@, '!'),
                    *old(emu),
                    *final(emu),
                    r,
                ),
        },
{
    let api = guess_api_name(&emu.export_indexes, addr, scan);
    let cs = chars_of(api.as_str());
    let tail = after_last_chars(cs.as_slice(), '!');
    let name = string_from_chars(tail.as_slice());
    gateway_by_name(name.as_str(), emu)
}


/// The byte `t` past `base` (see [`byte_or_zero`]).
pub open spec fn byte_at(rs: Seq<Mem64>, base: u64, t: int) -> u8 {
    byte_or_zero(rs, base + t)
}

proof fn lemma_diff_stop_at(rs: Seq<Mem64>, s1: u64, s2: u64, n: u64, k: int, i: int)
    requires
        0 <= i <= k < n,
        forall|t: int| 0 <= t < k ==> #[trigger] byte_at(rs, s1, t) == byte_at(rs, s2, t) && byte_at(rs, s1, t) != 0,
        byte_at(rs, s1, k) != byte_at(rs, s2, k) || byte_at(rs, s1, k) == 0,
    ensures
        diff_stop(rs, s1, s2, n, i) == k,
    decreases k - i,
{
    if i < k {
        assert(byte_at(rs, s1, i) == byte_at(rs, s2, i) && byte_at(rs, s1, i) != 0);
        lemma_diff_stop_at(rs, s1, s2, n, k, i + 1);
    } else {
        assert(byte_at(rs, s1, k) == byte_or_zero(rs, s1 + k));
    }
}

/// Where the strings agree on `[i, m)`, with `m <= n` and, short of `n`,
/// a NUL at `m - 1`, the comparison from `i` stops on equal bytes or at `n`.
proof fn lemma_diff_stop_agreeing(rs: Seq<Mem64>, s1: u64, s2: u64, n: u64, m: int, i: int)
    requires
        0 <= i <= m <= n,
        forall|t: int| i <= t < m ==> #[trigger] byte_at(rs, s1, t) == byte_at(rs, s2, t),
        m < n ==> m > i && byte_at(rs, s1, m - 1) == 0,
    ensures
        ({
            let d = diff_stop(rs, s1, s2, n, i);
            d == n || (i <= d < m && byte_at(rs, s1, d) == byte_at(rs, s2, d))
        }),
        diff_rax(rs, s1, s2, n) == 0 <== i == 0,
    decreases n - i,
{
    if i < n {
        let b1 = byte_at(rs, s1, i);
        let b2 = byte_at(rs, s2, i);
        if i < m {
            if b1 != 0 {
                if i + 1 < n && m < n {
                    assert(m > i + 1) by {
                        if m == i + 1 {
                            assert(byte_at(rs, s1, m - 1) == b1);
                        }
                    }
                }
                lemma_diff_stop_agreeing(rs, s1, s2, n, m, i + 1);
            }
        }
    }
    if i == 0 {
        let d = diff_stop(rs, s1, s2, n, 0);
        if d < n {
            assert(diff_result(rs, s1, s2, n) == 0);
        }
    }
}

/// `strncmp` compares no further than a NUL both strings share: when the
/// strings agree on every byte up to and including a NUL at index
/// `k < n`, the result is 0, whatever follows.
pub proof fn law_bounded_compare_stops_at_common_nul(rs: Seq<Mem64>, s1: u64, s2: u64, n: u64, k: int)
    requires
        0 <= k < n,
        forall|t: int| 0 <= t <= k ==> #[trigger] byte_at(rs, s1, t) == byte_at(rs, s2, t),
        byte_at(rs, s1, k) == 0,
    ensures
        diff_rax(rs, s1, s2, n) == 0,
{
    lemma_diff_stop_agreeing(rs, s1, s2, n, k + 1, 0);
}

/// `strncmp` gives the difference of the first differing bytes when they
/// come before `n` and before any NUL: the strings agree, without a NUL,
/// on the first `k` bytes, and byte `k` differs.
pub proof fn law_bounded_compare_first_difference(rs: Seq<Mem64>, s1: u64, s2: u64, n: u64, k: int)
    requires
        0 <= k < n,
        forall|t: int| 0 <= t < k ==> #[trigger] byte_at(rs, s1, t) == byte_at(rs, s2, t) && byte_at(rs, s1, t) != 0,
        byte_at(rs, s1, k) != byte_at(rs, s2, k),
    ensures
        diff_result(rs, s1, s2, n) == byte_at(rs, s1, k) - byte_at(rs, s2, k),
{
    lemma_diff_stop_at(rs, s1, s2, n, k, 0);
}

/// Equal strings compare equal: when the two agree on their first `n`
/// bytes, `strncmp` gives 0.
pub proof fn law_bounded_compare_equal_prefix(rs: Seq<Mem64>, s1: u64, s2: u64, n: u64)
    requires
        forall|t: int| 0 <= t < n ==> #[trigger] byte_at(rs, s1, t) == byte_at(rs, s2, t),
    ensures
        diff_rax(rs, s1, s2, n) == 0,
{
    lemma_diff_stop_agreeing(rs, s1, s2, n, n as int, 0);
}

} // verus!
