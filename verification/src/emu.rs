//! The emulator state that the Windows heap APIs work on: the x86-64
//! register file of the running thread, the configuration they read, the
//! map of the guest address space, the heap arenas, the handle table and
//! the exceptions raised into the guest.

use vstd::prelude::*;
use crate::handles::HandleManagement;
use crate::export_registry::ExportIndexRegistry;
use crate::text::{string_from_chars};
use crate::bytes::le_u32;
use crate::memory::{bytes_at, le_bytes, span, wrote};
use crate::resolver::ResolveCache;
use std::collections::HashMap;

verus! {

/// The x86-64 general-purpose registers and instruction pointer.
#[derive(Clone, Copy, Debug)]
pub struct Regs64 {
    pub rax: u64,
    pub rbx: u64,
    pub rcx: u64,
    pub rdx: u64,
    pub rsi: u64,
    pub rdi: u64,
    pub rbp: u64,
    pub rsp: u64,
    pub rip: u64,
    pub r8: u64,
    pub r9: u64,
    pub r10: u64,
    pub r11: u64,
    pub r12: u64,
    pub r13: u64,
    pub r14: u64,
    pub r15: u64,
}

impl Regs64 {
    /// All registers zero.
    pub fn new() -> (r: Regs64)
        ensures
            r.rax == 0 && r.rbx == 0 && r.rcx == 0 && r.rdx == 0 && r.rsi == 0 && r.rdi == 0,
            r.rbp == 0 && r.rsp == 0 && r.rip == 0 && r.r8 == 0 && r.r9 == 0 && r.r10 == 0,
            r.r11 == 0 && r.r12 == 0 && r.r13 == 0 && r.r14 == 0 && r.r15 == 0,
    {
        Regs64 {
            rax: 0,
            rbx: 0,
            rcx: 0,
            rdx: 0,
            rsi: 0,
            rdi: 0,
            rbp: 0,
            rsp: 0,
            rip: 0,
            r8: 0,
            r9: 0,
            r10: 0,
            r11: 0,
            r12: 0,
            r13: 0,
            r14: 0,
            r15: 0,
        }
    }
}

/// The low 32 bits of `rsp`: the 32-bit stack pointer.
pub open spec fn esp_of(r: Regs64) -> u64 {
    (r.rsp % 0x1_0000_0000) as u64
}

/// `r` with the low 32 bits of `rsp` set to those of `v`.
pub open spec fn with_esp(r: Regs64, v: u64) -> Regs64 {
    Regs64 { rsp: (r.rsp - r.rsp % 0x1_0000_0000 + v % 0x1_0000_0000) as u64, ..r }
}

impl Regs64 {
    /// The 32-bit stack pointer.
    pub fn get_esp(&self) -> (r: u64)
        ensures
            r == esp_of(*self),
    {
        self.rsp % 0x1_0000_0000
    }

    /// Set the 32-bit stack pointer to the low 32 bits of `v`.
    pub fn set_esp(&mut self, v: u64)
        ensures
            *final(self) == with_esp(*old(self), v),
    {
        self.rsp = self.rsp - self.rsp % 0x1_0000_0000 + v % 0x1_0000_0000;
    }
}

/// `r` with `rax` set to `v`.
pub open spec fn with_rax(r: Regs64, v: u64) -> Regs64 {
    Regs64 { rax: v, ..r }
}

/// The guest's instruction set.
#[derive(Clone, Copy, Debug, PartialEq, Eq, Structural)]
pub enum Arch {
    X86,
    X86_64,
    Aarch64,
}

impl Arch {
    /// True for x86-64.
    pub fn is_x64(&self) -> (r: bool)
        ensures
            r == (*self == Arch::X86_64),
    {
        match self {
            Arch::X86_64 => true,
            _ => false,
        }
    }
}

/// The AArch64 register file: `x0`..`x30`, the stack pointer and the
/// program counter.
#[derive(Clone, Copy, Debug)]
pub struct RegsAarch64 {
    pub x: [u64; 31],
    pub sp: u64,
    pub pc: u64,
}

impl RegsAarch64 {
    /// All registers zero.
    pub fn new() -> (r: RegsAarch64)
        ensures
            forall|i: int| 0 <= i < 31 ==> r.x@[i] == 0,
            r.sp == 0,
            r.pc == 0,
    {
        RegsAarch64 { x: [0u64; 31], sp: 0, pc: 0 }
    }
}

/// The settings the emulated APIs read.
pub struct Config {
    /// `HeapAlloc` pads smaller requests to this size.
    pub heap_alloc_min_size: u64,
    /// Frees only drop the allocation record; memory is never released.
    pub heap_free_soft: bool,
    pub exe_name: String,
    pub verbose: u32,
    pub arch: Arch,
    /// An unknown CRT function is skipped rather than treated as fatal.
    pub skip_unimplemented: bool,
}

/// Exceptions the heap APIs raise into the guest.
#[derive(Clone, Copy, Debug, PartialEq, Eq, Structural)]
pub enum ExceptionType {
    /// `STATUS_NO_MEMORY`, raised by a failed allocation on a heap created
    /// with `HEAP_GENERATE_EXCEPTIONS`.
    HeapNoMemory,
}

/// One mapped region of the guest address space and its bytes.
pub struct Mem64 {
    pub name: String,
    pub base: u64,
    pub size: u64,
    /// `size` bytes; `mem[k]` is the byte at `base + k`.
    pub mem: Vec<u8>,
}

/// The guest address-space map: named, non-overlapping regions.
pub struct Maps {
    pub regions: Vec<Mem64>,
}

/// Lowest address handed out for new regions.
pub const MAPS_ALLOC_FLOOR: u64 = 0x1000_0000;

/// New regions start on this boundary.
pub const PAGE_SIZE: u64 = 0x1000;

/// Size of the address range reserved for each heap arena.
pub const HEAP_ARENA_SIZE: u64 = 0x10_0000;

/// Heap arena allocations are rounded up to this granule.
pub const HEAP_GRANULE: u64 = 16;

pub open spec fn region_holds(r: Mem64, addr: u64) -> bool {
    r.base <= addr && addr < r.base + r.size
}

/// Index of the first region, from `start` on, that holds `addr`.
pub open spec fn region_index(rs: Seq<Mem64>, addr: u64, start: int) -> Option<int>
    decreases rs.len() - start,
{
    if start < 0 || start >= rs.len() {
        None
    } else if region_holds(rs[start], addr) {
        Some(start)
    } else {
        region_index(rs, addr, start + 1)
    }
}

/// Index of the first region, from `start` on, based at `addr`.
pub open spec fn region_based_at(rs: Seq<Mem64>, addr: u64, start: int) -> Option<int>
    decreases rs.len() - start,
{
    if start < 0 || start >= rs.len() {
        None
    } else if rs[start].base == addr {
        Some(start)
    } else {
        region_based_at(rs, addr, start + 1)
    }
}

/// The highest end of any region (0 for none).
pub open spec fn max_end(rs: Seq<Mem64>) -> int
    decreases rs.len(),
{
    if rs.len() == 0 {
        0
    } else {
        let m = max_end(rs.drop_last());
        let e = rs.last().base + rs.last().size;
        if e > m {
            e
        } else {
            m
        }
    }
}

/// Where `Maps::alloc_range` places `size` bytes: the first page boundary at or
/// above both the allocation floor and the end of every region; `None`
/// for an empty request, one too large to hold in memory, or when it would
/// run past the address space.
pub open spec fn alloc_spec(rs: Seq<Mem64>, size: u64) -> Option<u64> {
    let lo = if max_end(rs) > MAPS_ALLOC_FLOOR {
        max_end(rs)
    } else {
        MAPS_ALLOC_FLOOR as int
    };
    if lo + (PAGE_SIZE - 1) > u64::MAX {
        None
    } else {
        let b = (lo + (PAGE_SIZE - 1)) / (PAGE_SIZE as int) * (PAGE_SIZE as int);
        if size == 0 || size > usize::MAX || b + size > u64::MAX {
            None
        } else {
            Some(b as u64)
        }
    }
}

/// A region `[base, base + size)` can be added: not empty, inside the
/// address space (and small enough to be held in memory), overlapping no
/// region.
pub open spec fn can_map(rs: Seq<Mem64>, base: u64, size: u64) -> bool {
    &&& size > 0
    &&& size <= usize::MAX
    &&& base + size <= u64::MAX
    &&& forall|i: int|
        0 <= i < rs.len() ==> (#[trigger] rs[i]).base + rs[i].size <= base || base + size
            <= rs[i].base
}

/// A region as plain values.
pub ghost struct RegionModel {
    pub name: Seq<char>,
    pub base: u64,
    pub size: u64,
}

/// A region is not empty, lies inside the address space and holds its bytes.
pub open spec fn region_wf(r: Mem64) -> bool {
    &&& r.base + r.size <= u64::MAX
    &&& r.size > 0
    &&& r.mem@.len() == r.size
}

/// `n` zero bytes.
pub open spec fn zeros(n: nat) -> Seq<u8> {
    Seq::new(n, |_k: int| 0u8)
}

pub open spec fn region_model(r: Mem64) -> RegionModel {
    RegionModel { name: r.name@, base: r.base, size: r.size }
}

impl Maps {
    pub open spec fn view_regions(&self) -> Seq<RegionModel> {
        self.regions@.map_values(|r: Mem64| region_model(r))
    }

    /// Every region lies inside the address space and holds `size` bytes.
    pub open spec fn wf(&self) -> bool {
        forall|i: int| 0 <= i < self.regions@.len() ==> region_wf(#[trigger] self.regions@[i])
    }

    pub fn new() -> (m: Maps)
        ensures
            m.wf(),
            m.regions@.len() == 0,
    {
        Maps { regions: Vec::new() }
    }

    /// The region that holds `addr` (the first one, should several).
    pub fn get_mem_by_addr(&self, addr: u64) -> (r: Option<&Mem64>)
        ensures
            match region_index(self.regions@, addr, 0) {
                Some(i) => r == Some(&self.regions@[i]),
                None => r is None,
            },
    {
        let mut i: usize = 0;
        while i < self.regions.len()
            invariant
                i <= self.regions@.len(),
                region_index(self.regions@, addr, 0) == region_index(self.regions@, addr, i as int),
            decreases self.regions@.len() - i,
        {
            let r = &self.regions[i];
            if r.base <= addr && addr - r.base < r.size {
                return Some(r);
            }
            i = i + 1;
        }
        None
    }

    /// Find room for `size` bytes (see [`alloc_spec`]); nothing is mapped.
    pub fn alloc_range(&self, size: u64) -> (r: Option<u64>)
        requires
            self.wf(),
        ensures
            r == alloc_spec(self.regions@, size),
    {
        let mut hi: u64 = 0;
        let mut i: usize = 0;
        assert(self.regions@.take(0) =~= Seq::<Mem64>::empty());
        while i < self.regions.len()
            invariant
                self.wf(),
                i <= self.regions@.len(),
                hi == max_end(self.regions@.take(i as int)),
            decreases self.regions@.len() - i,
        {
            assert(self.regions@.take(i + 1).drop_last() =~= self.regions@.take(i as int));
            let e = self.regions[i].base + self.regions[i].size;
            if e > hi {
                hi = e;
            }
            i = i + 1;
        }
        assert(self.regions@.take(i as int) =~= self.regions@);
        let lo = if hi > MAPS_ALLOC_FLOOR {
            hi
        } else {
            MAPS_ALLOC_FLOOR
        };
        if lo > u64::MAX - (PAGE_SIZE - 1) {
            return None;
        }
        let up = lo + (PAGE_SIZE - 1);
        assert(up / PAGE_SIZE * PAGE_SIZE <= up) by (nonlinear_arith);
        let b = up / PAGE_SIZE * PAGE_SIZE;
        if size == 0 || size > usize::MAX as u64 || b > u64::MAX - size {
            return None;
        }
        Some(b)
    }

    /// Map `[base, base + size)` as region `name`; false (nothing mapped)
    /// when it is empty, leaves the address space or overlaps a region.
    pub fn create_map(&mut self, name: &str, base: u64, size: u64) -> (ok: bool)
        requires
            old(self).wf(),
        ensures
            final(self).wf(),
            ok == can_map(old(self).regions@, base, size),
            ok ==> final(self).view_regions() == old(self).view_regions().push(
                RegionModel { name: name@, base, size },
            ),
            ok ==> final(self).regions@.drop_last() == old(self).regions@,
            ok ==> final(self).regions@.last().mem@ == zeros(size as nat),
            !ok ==> final(self).view_regions() == old(self).view_regions(),
            !ok ==> final(self).regions@ == old(self).regions@,
    {
        if size == 0 || size > usize::MAX as u64 || base > u64::MAX - size {
            return false;
        }
        let mut i: usize = 0;
        while i < self.regions.len()
            invariant
                self.wf(),
                i <= self.regions@.len(),
                size > 0,
                size <= usize::MAX,
                base + size <= u64::MAX,
                forall|j: int|
                    0 <= j < i ==> (#[trigger] self.regions@[j]).base + self.regions@[j].size
                        <= base || base + size <= self.regions@[j].base,
            decreases self.regions@.len() - i,
        {
            let r = &self.regions[i];
            if !(r.base + r.size <= base || base + size <= r.base) {
                return false;
            }
            i = i + 1;
        }
        let mem: Vec<u8> = vec![0u8; size as usize];
        assert(mem@ =~= zeros(size as nat));
        let m = Mem64 { name: name.to_owned(), base, size, mem };
        let ghost before = self.view_regions();
        let ghost old_regions = self.regions@;
        self.regions.push(m);
        assert(self.view_regions() =~= before.push(RegionModel { name: name@, base, size }));
        assert(self.regions@.drop_last() =~= old_regions);
        true
    }

    /// Unmap the first region based at `addr`, if any.
    pub fn dealloc(&mut self, addr: u64)
        requires
            old(self).wf(),
        ensures
            final(self).wf(),
            match region_based_at(old(self).regions@, addr, 0) {
                Some(i) => final(self).regions@ == old(self).regions@.remove(i),
                None => final(self).regions@ == old(self).regions@,
            },
    {
        let mut i: usize = 0;
        while i < self.regions.len()
            invariant
                old(self).wf(),
                self.regions@ == old(self).regions@,
                i <= self.regions@.len(),
                region_based_at(self.regions@, addr, 0) == region_based_at(self.regions@, addr, i as int),
            decreases self.regions@.len() - i,
        {
            if self.regions[i].base == addr {
                let ghost before = self.regions@;
                let _ = self.regions.remove(i);
                assert forall|j: int| 0 <= j < self.regions@.len() implies region_wf(#[trigger] self.regions@[j]) by {
                    if j < i {
                        assert(self.regions@[j] == before[j]);
                    } else {
                        assert(self.regions@[j] == before[j + 1]);
                    }
                }
                return;
            }
            i = i + 1;
        }
    }
}

/// One allocation in an arena.
#[derive(Clone, Copy, Debug)]
pub struct HeapBlock {
    pub addr: u64,
    pub size: usize,
}

/// A heap arena: a reserved address range handed out upwards in
/// 16-byte granules; `blocks` are the live allocations.
pub struct O1Heap {
    pub base: u64,
    pub capacity: u64,
    pub next: u64,
    pub blocks: Vec<HeapBlock>,
}

/// `size` rounded up to whole granules, at least one.
pub open spec fn granules(size: int) -> int {
    let s = if size < 1 {
        1
    } else {
        size
    };
    (s + (HEAP_GRANULE - 1)) / (HEAP_GRANULE as int) * (HEAP_GRANULE as int)
}

/// Where the arena places `size` bytes: at its next free address, when the
/// rounded size still fits.
pub open spec fn arena_alloc_spec(a: O1Heap, size: int) -> Option<u64> {
    if size > a.capacity || a.next + granules(size) > a.base + a.capacity {
        None
    } else {
        Some(a.next)
    }
}

/// Index of the first block, from `start` on, at `addr`.
pub open spec fn block_at(bs: Seq<HeapBlock>, addr: u64, start: int) -> Option<int>
    decreases bs.len() - start,
{
    if start < 0 || start >= bs.len() {
        None
    } else if bs[start].addr == addr {
        Some(start)
    } else {
        block_at(bs, addr, start + 1)
    }
}

impl O1Heap {
    /// The arena's range lies inside the address space and its next free
    /// address inside that range.
    pub open spec fn wf(&self) -> bool {
        &&& self.base <= self.next
        &&& self.next <= self.base + self.capacity
        &&& self.base + self.capacity <= u64::MAX
        &&& forall|i: int| 0 <= i < self.blocks@.len() ==> (#[trigger] self.blocks@[i]).addr < self.next
    }

    /// An empty arena over `[base, base + capacity)`.
    pub fn new(base: u64, capacity: u64) -> (h: O1Heap)
        requires
            base + capacity <= u64::MAX,
        ensures
            h.wf(),
            h.base == base && h.capacity == capacity && h.next == base,
            h.blocks@.len() == 0,
    {
        O1Heap { base, capacity, next: base, blocks: Vec::new() }
    }

    /// Allocate `size` bytes (see [`arena_alloc_spec`]).
    pub fn allocate(&mut self, size: usize) -> (r: Option<u64>)
        requires
            old(self).wf(),
        ensures
            final(self).wf(),
            final(self).base == old(self).base,
            final(self).capacity == old(self).capacity,
            r == arena_alloc_spec(*old(self), size as int),
            match r {
                Some(a) => final(self).blocks@ == old(self).blocks@.push(
                    HeapBlock { addr: a, size },
                ) && final(self).next == old(self).next + granules(size as int),
                None => *final(self) == *old(self),
            },
    {
        let s = size as u64;
        if s > self.capacity {
            return None;
        }
        let s1: u64 = if s < 1 {
            1
        } else {
            s
        };
        if s1 > u64::MAX - (HEAP_GRANULE - 1) {
            assert(granules(size as int) >= s1) by (nonlinear_arith)
                requires
                    granules(size as int) == (s1 + 15) / 16 * 16,
            ;
            return None;
        }
        let up = s1 + (HEAP_GRANULE - 1);
        assert(up / HEAP_GRANULE * HEAP_GRANULE <= up) by (nonlinear_arith);
        let rounded = up / HEAP_GRANULE * HEAP_GRANULE;
        if rounded > self.base + self.capacity - self.next {
            return None;
        }
        assert(rounded >= HEAP_GRANULE) by (nonlinear_arith)
            requires
                rounded == up / HEAP_GRANULE * HEAP_GRANULE,
                up == s1 + (HEAP_GRANULE - 1),
                s1 >= 1,
        ;
        let addr = self.next;
        self.next = self.next + rounded;
        self.blocks.push(HeapBlock { addr, size });
        Some(addr)
    }

    /// True when a live allocation starts at `addr`.
    pub fn check_fragment_exists(&self, addr: u64) -> (r: bool)
        ensures
            r == (block_at(self.blocks@, addr, 0) is Some),
    {
        self.find_block(addr).is_some()
    }

    /// The requested size of the live allocation at `addr`.
    pub fn allocation_size(&self, addr: u64) -> (r: Option<usize>)
        ensures
            match block_at(self.blocks@, addr, 0) {
                Some(i) => r == Some(self.blocks@[i].size),
                None => r is None,
            },
    {
        match self.find_block(addr) {
            Some(i) => {
                Some(self.blocks[i].size)
            },
            None => None,
        }
    }

    /// Release the allocation at `addr` (its range is not reused).
    pub fn free(&mut self, addr: u64)
        requires
            old(self).wf(),
        ensures
            final(self).wf(),
            final(self).base == old(self).base,
            final(self).capacity == old(self).capacity,
            final(self).next == old(self).next,
            match block_at(old(self).blocks@, addr, 0) {
                Some(i) => final(self).blocks@ == old(self).blocks@.remove(i),
                None => final(self).blocks@ == old(self).blocks@,
            },
    {
        match self.find_block(addr) {
            Some(i) => {
                let ghost before = self.blocks@;
                let _ = self.blocks.remove(i);
                assert forall|j: int| 0 <= j < self.blocks@.len() implies (#[trigger] self.blocks@[j]).addr
                    < self.next by {
                    if j < i {
                        assert(self.blocks@[j] == before[j]);
                    } else {
                        assert(self.blocks@[j] == before[j + 1]);
                    }
                }
            },
            None => {},
        }
    }

    fn find_block(&self, addr: u64) -> (r: Option<usize>)
        ensures
            match block_at(self.blocks@, addr, 0) {
                Some(i) => r is Some && r->0 as int == i && 0 <= i < self.blocks@.len(),
                None => r is None,
            },
    {
        let mut i: usize = 0;
        while i < self.blocks.len()
            invariant
                i <= self.blocks@.len(),
                block_at(self.blocks@, addr, 0) == block_at(self.blocks@, addr, i as int),
            decreases self.blocks@.len() - i,
        {
            if self.blocks[i].addr == addr {
                return Some(i);
            }
            i = i + 1;
        }
        None
    }
}

/// The PE `Machine` value of x86 (PE32) images.
pub const IMAGE_FILE_MACHINE_I386: u16 = 0x14c;

/// The message for a PE32/x86 input run as x86-64.
pub open spec fn pe32_x64_message() -> Seq<char> {
    "input binary is PE32/x86, but -6 requests x86_64 emulation"@
}

/// The emulator state the heap APIs read and change.
pub struct Emu {
    pub cfg: Config,
    /// Registers of the running thread.
    pub regs: Regs64,
    pub maps: Maps,
    /// Index 0 is the process heap's arena.
    pub heap_arenas: Vec<O1Heap>,
    pub handle_management: HandleManagement,
    /// Exceptions raised into the guest, oldest first.
    pub exceptions: Vec<ExceptionType>,
    /// Registers of the running thread on AArch64.
    pub regs_aarch64: RegsAarch64,
    /// Nonzero while the emulation loop should go on.
    pub is_running: u32,
    /// Set once the guest process has been stopped.
    pub process_terminated: bool,
    /// The export indexes of the mapped modules.
    pub export_indexes: ExportIndexRegistry,
    /// Address -> export name, for the addresses the resolver has named.
    pub api_addr_name_cache: HashMap<u64, String>,
    /// Lookups by module and name that found an address.
    pub api_resolve_cache: ResolveCache,
}

/// One resolved call seen while call tracing is on.
#[derive(Debug, Clone)]
pub struct ApiCallLogEntry {
    /// Instruction position counter at the call.
    pub pos: u64,
    /// Address of the call instruction.
    pub from: u64,
    /// Resolved call target.
    pub to: u64,
    pub name: String,
}

/// The AArch64 registers, the run flags, the export indexes and the
/// resolver's memos are as they were.
pub open spec fn machine_kept(o: Emu, n: Emu) -> bool {
    &&& n.regs_aarch64 == o.regs_aarch64
    &&& n.is_running == o.is_running
    &&& n.process_terminated == o.process_terminated
    &&& n.export_indexes == o.export_indexes
    &&& n.api_addr_name_cache == o.api_addr_name_cache
    &&& n.api_resolve_cache == o.api_resolve_cache
}

/// The name of the region reserved for the arena with index `idx`.
pub open spec fn arena_map_name() -> Seq<char> {
    seq!['h', 'e', 'a', 'p', '_', 'a', 'r', 'e', 'n', 'a']
}

/// The arena that [`Emu::create_heap_arena`] adds: over a fresh range of
/// the address space when one is found, else an empty arena.
pub open spec fn new_arena_base(rs: Seq<Mem64>) -> Option<u64> {
    alloc_spec(rs, HEAP_ARENA_SIZE)
}

impl Emu {
    /// The state's parts are well formed and the handle table has room.
    pub open spec fn wf(&self) -> bool {
        &&& self.maps.wf()
        &&& forall|i: int| 0 <= i < self.heap_arenas@.len() ==> (#[trigger] self.heap_arenas@[i]).wf()
        &&& self.handle_management.wf()
        &&& self.export_indexes.wf()
    }

    /// The handle table can take two more handles.
    pub open spec fn has_handle_room(&self) -> bool {
        self.handle_management.has_room(2)
    }

    /// A fresh emulator: zero registers, empty address space, the process
    /// arena (index 0), an empty handle table, no exceptions.
    pub fn new(cfg: Config) -> (e: Emu)
        ensures
            e.wf(),
            e.heap_arenas@.len() == 1,
            e.handle_management.process_key() is None,
            e.handle_management.entries() == crate::handles::no_heaps(),
            e.exceptions@.len() == 0,
            e.cfg == cfg,
    {
        let mut e = Emu {
            cfg,
            regs: Regs64::new(),
            maps: Maps::new(),
            heap_arenas: Vec::new(),
            handle_management: HandleManagement::new(),
            exceptions: Vec::new(),
            regs_aarch64: RegsAarch64::new(),
            is_running: 1,
            process_terminated: false,
            export_indexes: ExportIndexRegistry::new(),
            api_addr_name_cache: HashMap::new(),
            api_resolve_cache: ResolveCache::new(),
        };
        assert(e.handle_management.entries().len() == 0);
        let _ = e.create_heap_arena();
        e
    }

    /// The running thread's registers.
    pub fn regs(&self) -> (r: &Regs64)
        ensures
            *r == self.regs,
    {
        &self.regs
    }

    /// The command line's check of the requested architecture against the
    /// input's PE machine type (`None` when the input is no PE): a message
    /// when x86-64 is requested for a PE32/x86 image, `None` otherwise.
    pub fn pe32_x64_mismatch_error(machine: Option<u16>, x64_requested: bool) -> (r: Option<&'static str>)
        ensures
            r is Some <==> x64_requested && machine == Some(IMAGE_FILE_MACHINE_I386),
            r matches Some(m) ==> m@ == pe32_x64_message(),
    {
        match machine {
            Some(m) => {
                if x64_requested && m == IMAGE_FILE_MACHINE_I386 {
                    Some("input binary is PE32/x86, but -6 requests x86_64 emulation")
                } else {
                    None
                }
            },
            None => None,
        }
    }

    /// The running thread's registers, to change in place.
    pub fn regs_mut(&mut self) -> (r: &mut Regs64)
        ensures
            *r == old(self).regs,
            *final(self) == (Emu { regs: *final(r), ..*old(self) }),
    {
        &mut self.regs
    }

    /// The running thread's AArch64 registers.
    pub fn regs_aarch64(&self) -> (r: &RegsAarch64)
        ensures
            *r == self.regs_aarch64,
    {
        &self.regs_aarch64
    }

    /// The running thread's AArch64 registers, to change in place.
    pub fn regs_aarch64_mut(&mut self) -> (r: &mut RegsAarch64)
        ensures
            *r == old(self).regs_aarch64,
            *final(self) == (Emu { regs_aarch64: *final(r), ..*old(self) }),
    {
        &mut self.regs_aarch64
    }

    /// The program counter: `pc` on AArch64, `rip` otherwise.
    pub fn pc(&self) -> (r: u64)
        ensures
            r == (if self.cfg.arch is Aarch64 {
                self.regs_aarch64.pc
            } else {
                self.regs.rip
            }),
    {
        match self.cfg.arch {
            Arch::Aarch64 => self.regs_aarch64.pc,
            _ => self.regs.rip,
        }
    }

    /// Set the program counter (see [`Emu::pc`]); nothing else changes.
    pub fn set_pc(&mut self, addr: u64)
        ensures
            *final(self) == (if old(self).cfg.arch is Aarch64 {
                Emu { regs_aarch64: RegsAarch64 { pc: addr, ..old(self).regs_aarch64 }, ..*old(self) }
            } else {
                Emu { regs: Regs64 { rip: addr, ..old(self).regs }, ..*old(self) }
            }),
    {
        match self.cfg.arch {
            Arch::Aarch64 => self.regs_aarch64.pc = addr,
            _ => self.regs.rip = addr,
        }
    }

    /// The stack pointer: `sp` on AArch64, `rsp` otherwise.
    pub fn sp(&self) -> (r: u64)
        ensures
            r == (if self.cfg.arch is Aarch64 {
                self.regs_aarch64.sp
            } else {
                self.regs.rsp
            }),
    {
        match self.cfg.arch {
            Arch::Aarch64 => self.regs_aarch64.sp,
            _ => self.regs.rsp,
        }
    }

    /// Set the stack pointer (see [`Emu::sp`]); nothing else changes.
    pub fn set_sp(&mut self, addr: u64)
        ensures
            *final(self) == (if old(self).cfg.arch is Aarch64 {
                Emu { regs_aarch64: RegsAarch64 { sp: addr, ..old(self).regs_aarch64 }, ..*old(self) }
            } else {
                Emu { regs: Regs64 { rsp: addr, ..old(self).regs }, ..*old(self) }
            }),
    {
        match self.cfg.arch {
            Arch::Aarch64 => self.regs_aarch64.sp = addr,
            _ => self.regs.rsp = addr,
        }
    }

    /// Set `rip` as it is, with none of the checks a jump makes.
    pub fn set_rip_without_check(&mut self, addr: u64)
        ensures
            *final(self) == (Emu { regs: Regs64 { rip: addr, ..old(self).regs }, ..*old(self) }),
    {
        self.regs.rip = addr;
    }

    /// Stop the emulation: the process is marked terminated and the run
    /// flag cleared; nothing else changes.
    pub fn stop(&mut self)
        ensures
            *final(self) == (Emu { process_terminated: true, is_running: 0, ..*old(self) }),
    {
        self.process_terminated = true;
        self.is_running = 0;
    }

    /// Add a heap arena over a fresh range of the address space (mapped as
    /// region `heap_arena`), or an empty arena when none is left; returns
    /// its index.
    pub fn create_heap_arena(&mut self) -> (idx: usize)
        requires
            old(self).wf(),
        ensures
        machine_kept(*old(self), *final(self)),
            final(self).wf(),
            idx == old(self).heap_arenas@.len(),
            final(self).heap_arenas@.len() == old(self).heap_arenas@.len() + 1,
            forall|i: int|
                0 <= i < old(self).heap_arenas@.len() ==> #[trigger] final(self).heap_arenas@[i]
                    == old(self).heap_arenas@[i],
            final(self).heap_arenas@[idx as int].blocks@.len() == 0,
            match new_arena_base(old(self).maps.regions@) {
                Some(b) => final(self).heap_arenas@[idx as int].base == b
                    && final(self).heap_arenas@[idx as int].capacity == HEAP_ARENA_SIZE
                    && final(self).heap_arenas@[idx as int].next == b
                    && final(self).maps.view_regions() == old(self).maps.view_regions().push(
                    RegionModel { name: arena_map_name(), base: b, size: HEAP_ARENA_SIZE },
                ),
                None => final(self).heap_arenas@[idx as int].capacity == 0
                    && final(self).maps.regions@ == old(self).maps.regions@,
            },
            final(self).cfg == old(self).cfg,
            final(self).regs == old(self).regs,
            final(self).handle_management == old(self).handle_management,
            final(self).exceptions@ == old(self).exceptions@,
    {
        let idx = self.heap_arenas.len();
        let arena = match self.maps.alloc_range(HEAP_ARENA_SIZE) {
            Some(b) => {
                proof {
                    lemma_alloc_fresh(self.maps.regions@, HEAP_ARENA_SIZE);
                }
                let name_chars = vec!['h', 'e', 'a', 'p', '_', 'a', 'r', 'e', 'n', 'a'];
                let name = string_from_chars(name_chars.as_slice());
                assert(name@ =~= arena_map_name());
                let ok = self.maps.create_map(name.as_str(), b, HEAP_ARENA_SIZE);
                assert(ok);
                O1Heap::new(b, HEAP_ARENA_SIZE)
            },
            None => O1Heap::new(0, 0),
        };
        self.heap_arenas.push(arena);
        idx
    }

    /// Raise `t` into the guest.
    pub fn exception(&mut self, t: ExceptionType)
        ensures
        machine_kept(*old(self), *final(self)),
            final(self).exceptions@ == old(self).exceptions@.push(t),
            final(self).cfg == old(self).cfg,
            final(self).regs == old(self).regs,
            final(self).maps == old(self).maps,
            final(self).heap_arenas == old(self).heap_arenas,
            final(self).handle_management == old(self).handle_management,
    {
        self.exceptions.push(t);
    }
}

/// The registers after popping a dword off the 32-bit stack in memory
/// `rs`: `esp` moves up by four when the dword can be read.
pub open spec fn pop32_regs(r: Regs64, rs: Seq<Mem64>) -> Regs64 {
    if bytes_at(rs, esp_of(r), 4) is Some {
        with_esp(r, (esp_of(r) + 4) as u64)
    } else {
        r
    }
}

/// The registers after `k` pops in memory `rs`.
pub open spec fn pops32_regs(r: Regs64, rs: Seq<Mem64>, k: nat) -> Regs64
    decreases k,
{
    if k == 0 {
        r
    } else {
        pop32_regs(pops32_regs(r, rs, (k - 1) as nat), rs)
    }
}

impl Emu {
    /// Pop a dword off the 32-bit stack: the dword at `esp`, `esp` then
    /// moving up by four; `None`, changing nothing, when it cannot be read.
    pub fn stack_pop32(&mut self) -> (r: Option<u32>)
        requires
            old(self).maps.wf(),
        ensures
        machine_kept(*old(self), *final(self)),
            match bytes_at(old(self).maps.regions@, esp_of(old(self).regs), 4) {
                Some(b) => r == Some(le_u32(b, 0)),
                None => r is None,
            },
            final(self).regs == pop32_regs(old(self).regs, old(self).maps.regions@),
            final(self).cfg == old(self).cfg,
            final(self).maps == old(self).maps,
            final(self).heap_arenas == old(self).heap_arenas,
            final(self).handle_management == old(self).handle_management,
            final(self).exceptions == old(self).exceptions,
    {
        let esp = self.regs.get_esp();
        match self.maps.read_dword(esp) {
            Some(v) => {
                self.regs.set_esp(esp + 4);
                Some(v)
            },
            None => None,
        }
    }

    /// Push a dword onto the 32-bit stack: `esp` moves down by four and `v`
    /// is written there; false when it could not be written.
    pub fn stack_push32(&mut self, v: u32) -> (ok: bool)
        requires
            old(self).maps.wf(),
            esp_of(old(self).regs) >= 4,
        ensures
        machine_kept(*old(self), *final(self)),
            final(self).maps.wf(),
            final(self).regs == with_esp(old(self).regs, (esp_of(old(self).regs) - 4) as u64),
            ok == (span(old(self).maps.regions@, (esp_of(old(self).regs) - 4) as u64, 4) is Some),
            wrote(
                old(self).maps.regions@,
                final(self).maps.regions@,
                (esp_of(old(self).regs) - 4) as u64,
                le_bytes(v as nat, 4),
            ),
            final(self).cfg == old(self).cfg,
            final(self).heap_arenas == old(self).heap_arenas,
            final(self).handle_management == old(self).handle_management,
            final(self).exceptions == old(self).exceptions,
    {
        let esp = self.regs.get_esp() - 4;
        self.regs.set_esp(esp);
        self.maps.write_dword(esp, v)
    }

    /// Pop `k` dwords off the 32-bit stack.
    pub fn stack_pop32_n(&mut self, k: usize)
        requires
            old(self).maps.wf(),
        ensures
        machine_kept(*old(self), *final(self)),
            final(self).regs == pops32_regs(old(self).regs, old(self).maps.regions@, k as nat),
            final(self).cfg == old(self).cfg,
            final(self).maps == old(self).maps,
            final(self).heap_arenas == old(self).heap_arenas,
            final(self).handle_management == old(self).handle_management,
            final(self).exceptions == old(self).exceptions,
    {
        let mut i: usize = 0;
        while i < k
            invariant
                i <= k,
                self.maps.wf(),
                self.regs == pops32_regs(old(self).regs, old(self).maps.regions@, i as nat),
                self.cfg == old(self).cfg,
                self.maps == old(self).maps,
                self.heap_arenas == old(self).heap_arenas,
                self.handle_management == old(self).handle_management,
                self.exceptions == old(self).exceptions,
                machine_kept(*old(self), *self),
            decreases k - i,
        {
            let _ = self.stack_pop32();
            i = i + 1;
        }
    }
}

/// A dword written as bytes reads back as the same value.
pub proof fn law_dword_bytes_roundtrip(v: u32)
    ensures
        le_u32(le_bytes(v as nat, 4), 0) == v,
{
    let b = le_bytes(v as nat, 4);
    reveal_with_fuel(le_bytes, 5);
    let v0 = v as nat;
    assert(b[0] == (v0 % 256) as u8);
    assert(b[1] == ((v0 / 256) % 256) as u8);
    assert(b[2] == ((v0 / 256 / 256) % 256) as u8);
    assert(b[3] == ((v0 / 256 / 256 / 256) % 256) as u8);
    assert(v0 == (v0 % 256) + 256 * ((v0 / 256) % 256) + 0x1_0000 * ((v0 / 256 / 256) % 256)
        + 0x100_0000 * ((v0 / 256 / 256 / 256) % 256)) by (nonlinear_arith)
        requires
            v0 < 0x1_0000_0000,
    {
    }
}

/// Setting the 32-bit stack pointer reads back, and setting it back to
/// what it was restores the registers.
pub proof fn lemma_with_esp_back(r: Regs64, v: u64)
    requires
        v < 0x1_0000_0000,
    ensures
        esp_of(with_esp(r, v)) == v,
        with_esp(with_esp(r, v), esp_of(r)) == r,
{
    let x = r.rsp as int;
    let m = 0x1_0000_0000int;
    let hi = x - x % m;
    assert(hi % m == 0 && hi >= 0) by {
        vstd::arithmetic::div_mod::lemma_fundamental_div_mod(x, m);
        vstd::arithmetic::div_mod::lemma_mod_multiples_basic(x / m, m);
        assert(hi == (x / m) * m) by (nonlinear_arith)
            requires
                x == m * (x / m) + x % m,
                hi == x - x % m,
        ;
        assert(x / m >= 0) by (nonlinear_arith)
            requires
                x >= 0,
                m > 0,
        ;
        assert((x / m) * m >= 0) by (nonlinear_arith)
            requires
                x / m >= 0,
                m > 0,
        ;
    }
    vstd::arithmetic::div_mod::lemma_mod_adds(hi, v as int, m);
    vstd::arithmetic::div_mod::lemma_small_mod(v as nat, m as nat);
    let y = hi + v;
    assert(y % m == v);
    assert(y - y % m == hi);
    vstd::arithmetic::div_mod::lemma_small_mod((x % m) as nat, m as nat);
    assert(hi + (x % m) % m == x);
}

/// Popping what was just pushed gives the pushed dword back and restores
/// the registers: after `stack_push32(v)` succeeded on registers `r`,
/// the dword at the new stack pointer is `v`, and the pop's registers are
/// `r` again.
pub proof fn law_pop_undoes_push(r: Regs64, rs: Seq<Mem64>, rs2: Seq<Mem64>, v: u32)
    requires
        forall|i: int| 0 <= i < rs.len() ==> region_wf(#[trigger] rs[i]),
        esp_of(r) >= 4,
        span(rs, (esp_of(r) - 4) as u64, 4) is Some,
        wrote(rs, rs2, (esp_of(r) - 4) as u64, le_bytes(v as nat, 4)),
    ensures
        bytes_at(rs2, esp_of(with_esp(r, (esp_of(r) - 4) as u64)), 4) matches Some(b) && le_u32(b, 0) == v,
        pop32_regs(with_esp(r, (esp_of(r) - 4) as u64), rs2) == r,
{
    let esp = esp_of(r);
    let low = (esp - 4) as u64;
    crate::memory::lemma_le_bytes_len(v as nat, 4);
    crate::memory::law_read_after_write(rs, rs2, low, le_bytes(v as nat, 4));
    law_dword_bytes_roundtrip(v);
    lemma_with_esp_back(r, low);
    assert(esp_of(with_esp(r, low)) == low);
    assert((esp_of(with_esp(r, low)) + 4) as u64 == esp);
}

proof fn lemma_max_end(rs: Seq<Mem64>, i: int)
    requires
        0 <= i < rs.len(),
    ensures
        rs[i].base + rs[i].size <= max_end(rs),
    decreases rs.len(),
{
    if i < rs.len() - 1 {
        lemma_max_end(rs.drop_last(), i);
    }
}

/// What `alloc_range` hands out overlaps no region.
pub proof fn lemma_alloc_fresh(rs: Seq<Mem64>, size: u64)
    ensures
        alloc_spec(rs, size) matches Some(b) ==> can_map(rs, b, size),
{
    if let Some(b) = alloc_spec(rs, size) {
        let lo = if max_end(rs) > MAPS_ALLOC_FLOOR {
            max_end(rs)
        } else {
            MAPS_ALLOC_FLOOR as int
        };
        let up = lo + (PAGE_SIZE - 1);
        assert(up / (PAGE_SIZE as int) * (PAGE_SIZE as int) >= lo) by (nonlinear_arith)
            requires
                up == lo + 4095,
                lo >= 0,
        ;
        assert forall|i: int| 0 <= i < rs.len() implies (#[trigger] rs[i]).base + rs[i].size <= b
            || b + size <= rs[i].base by {
            lemma_max_end(rs, i);
        }
    }
}

/// Freeing an arena allocation right after making it gives the arena
/// back its allocations as they were: the new block is the only one at its
/// address, since every earlier block lies below the arena's next address.
pub proof fn law_arena_free_undoes_allocate(a: O1Heap, size: usize)
    requires
        a.wf(),
        arena_alloc_spec(a, size as int) is Some,
    ensures
        ({
            let bs = a.blocks@.push(HeapBlock { addr: a.next, size });
            &&& block_at(bs, a.next, 0) == Some(a.blocks@.len() as int)
            &&& bs.remove(a.blocks@.len() as int) == a.blocks@
        }),
{
    let bs = a.blocks@.push(HeapBlock { addr: a.next, size });
    lemma_block_at_last(bs, a.next, 0);
    assert(bs.remove(a.blocks@.len() as int) =~= a.blocks@);
}

proof fn lemma_block_at_last(bs: Seq<HeapBlock>, addr: u64, start: int)
    requires
        0 <= start < bs.len(),
        bs.last().addr == addr,
        forall|j: int| 0 <= j < bs.len() - 1 ==> (#[trigger] bs[j]).addr != addr,
    ensures
        block_at(bs, addr, start) == Some(bs.len() - 1),
    decreases bs.len() - start,
{
    if start < bs.len() - 1 {
        lemma_block_at_last(bs, addr, start + 1);
    }
}

/// Unmapping a dedicated allocation right after mapping it gives the
/// address space back as it was: the new region is the only one based at
/// its address, which lies above every earlier region.
pub proof fn law_unmap_undoes_map(rs: Seq<Mem64>, size: u64, region: Mem64)
    requires
        forall|i: int| 0 <= i < rs.len() ==> (#[trigger] rs[i]).size > 0,
        alloc_spec(rs, size) == Some(region.base),
        region.size == size,
    ensures
        region_based_at(rs.push(region), region.base, 0) == Some(rs.len() as int),
        rs.push(region).remove(rs.len() as int) == rs,
{
    let b = region.base;
    let lo = if max_end(rs) > MAPS_ALLOC_FLOOR {
        max_end(rs)
    } else {
        MAPS_ALLOC_FLOOR as int
    };
    let up = lo + (PAGE_SIZE - 1);
    assert(up / (PAGE_SIZE as int) * (PAGE_SIZE as int) >= lo) by (nonlinear_arith)
        requires
            up == lo + 4095,
            lo >= 0,
    ;
    let ns = rs.push(region);
    assert forall|j: int| 0 <= j < ns.len() - 1 implies (#[trigger] ns[j]).base != b by {
        lemma_max_end(rs, j);
        assert(ns[j] == rs[j]);
    }
    lemma_region_based_at_last(ns, b, 0);
    assert(ns.remove(rs.len() as int) =~= rs);
}

proof fn lemma_region_based_at_last(rs: Seq<Mem64>, addr: u64, start: int)
    requires
        0 <= start < rs.len(),
        rs.last().base == addr,
        forall|j: int| 0 <= j < rs.len() - 1 ==> (#[trigger] rs[j]).base != addr,
    ensures
        region_based_at(rs, addr, start) == Some(rs.len() - 1),
    decreases rs.len() - start,
{
    if start < rs.len() - 1 {
        lemma_region_based_at_last(rs, addr, start + 1);
    }
}

} // verus!
