use mwemu_core::emu::{Arch, Config, Emu, ExceptionType, O1Heap};
use mwemu_core::heap::{
    classify, heap_allocate, heap_allocation_size, heap_free, HeapPtrKind,
    HEAP_GENERATE_EXCEPTIONS, HEAP_REALLOC_IN_PLACE_ONLY, HEAP_ZERO_MEMORY,
};
use mwemu_core::heap_handle::HeapHandle;
use mwemu_core::winapi64::{
    dispatch as ntdll_heap_dispatch, GetCommandLineA, GetCommandLineW, GetProcessHeap, HeapAlloc, HeapCreate, HeapDestroy,
    HeapFree, HeapSetInformation, LocalAlloc, RtlAllocateHeap, RtlFreeHeap, RtlGetProcessHeaps,
    RtlReAllocateHeap,
};

fn emu() -> Emu {
    Emu::new(Config {
        heap_alloc_min_size: 0x10,
        heap_free_soft: false,
        exe_name: "test.exe".to_string(),
        verbose: 0,
        arch: Arch::X86_64,
        skip_unimplemented: false,
    })
}

const ARENA0: u64 = 0x1000_0000;

#[test]
fn new_emulator_has_the_process_arena() {
    let e = emu();
    assert_eq!(e.heap_arenas.len(), 1);
    assert_eq!(e.heap_arenas[0].base, ARENA0);
    assert_eq!(e.heap_arenas[0].capacity, 0x10_0000);
    assert_eq!(e.maps.regions.len(), 1);
    assert_eq!(e.maps.regions[0].name, "heap_arena");
}

#[test]
fn get_process_heap_is_stable() {
    let mut e = emu();
    GetProcessHeap(&mut e);
    let first = e.regs.rax;
    GetProcessHeap(&mut e);
    assert_eq!(e.regs.rax, first);
    assert!(e.handle_management.is_process_heap(first as u32));
}

#[test]
fn heap_alloc_pads_and_hands_out_granules() {
    let mut e = emu();
    e.regs.rcx = 0;
    e.regs.r8 = 4;
    HeapAlloc(&mut e);
    assert_eq!(e.regs.rax, ARENA0);
    // 4 bytes are padded to 0x10: one granule.
    assert_eq!(heap_allocation_size(&e, ARENA0), Some(0x10));
    e.regs.r8 = 0x21;
    HeapAlloc(&mut e);
    assert_eq!(e.regs.rax, ARENA0 + 0x10);
    e.regs.r8 = 1;
    HeapAlloc(&mut e);
    assert_eq!(e.regs.rax, ARENA0 + 0x40);
    assert_eq!(classify(&e, ARENA0 + 0x10), HeapPtrKind::Arena);
    assert_eq!(classify(&e, ARENA0 + 0x18), HeapPtrKind::Invalid);
}

#[test]
fn large_allocation_gets_its_own_map() {
    let mut e = emu();
    e.regs.rcx = 0;
    e.regs.r8 = 0x8000;
    HeapAlloc(&mut e);
    let a = e.regs.rax;
    assert_eq!(a, 0x1010_0000);
    assert_eq!(e.maps.regions[1].name, "alloc_10100000");
    assert_eq!(classify(&e, a), HeapPtrKind::Mapped);
    assert_eq!(heap_allocation_size(&e, a), Some(0x8000));
    e.regs.rcx = 0;
    e.regs.r8 = a;
    HeapFree(&mut e);
    assert_eq!(e.regs.rax, 1);
    assert_eq!(e.maps.regions.len(), 1);
    assert_eq!(classify(&e, a), HeapPtrKind::Invalid);
}

#[test]
fn free_then_alloc_does_not_reuse_arena_space() {
    let mut e = emu();
    let a = heap_allocate(&mut e, 0, 0x20).unwrap();
    assert!(heap_free(&mut e, 0, a));
    assert_eq!(heap_allocation_size(&e, a), None);
    let b = heap_allocate(&mut e, 0, 0x20).unwrap();
    assert_eq!(b, a + 0x20);
    // Freeing an unknown pointer releases nothing.
    assert!(!heap_free(&mut e, 0, 0x1234));
}

#[test]
fn soft_free_only_drops_the_record() {
    let mut e = emu();
    e.cfg.heap_free_soft = true;
    let a = heap_allocate(&mut e, 0, 0x20).unwrap();
    assert!(heap_free(&mut e, 0, a));
    assert_eq!(heap_allocation_size(&e, a), Some(0x20));
}

#[test]
fn rtl_allocate_heap_bumps_small_requests() {
    let mut e = emu();
    e.regs.rcx = 0;
    e.regs.r8 = 8;
    RtlAllocateHeap(&mut e);
    let a = e.regs.rax;
    assert_eq!(a, ARENA0);
    assert_eq!(heap_allocation_size(&e, a), Some(1024));
    e.regs.r8 = a;
    RtlFreeHeap(&mut e);
    assert_eq!(e.regs.rax, 1);
    e.regs.r8 = a;
    RtlFreeHeap(&mut e);
    assert_eq!(e.regs.rax, 0);
}

#[test]
fn heap_create_and_destroy() {
    let mut e = emu();
    GetProcessHeap(&mut e);
    let process = e.regs.rax;
    e.regs.rcx = 0;
    e.regs.rdx = 0x1000;
    e.regs.r8 = 0x40;
    HeapCreate(&mut e);
    let h = e.regs.rax;
    assert_ne!(h, process);
    assert_eq!(e.heap_arenas.len(), 2);
    // Allocations from the new heap come from its own arena.
    e.regs.rcx = h;
    e.regs.rdx = 0;
    e.regs.r8 = 0x20;
    HeapAlloc(&mut e);
    assert_eq!(e.regs.rax, e.heap_arenas[1].base);
    // Over the heap's maximum: fails, and raises when asked to.
    e.regs.rcx = h;
    e.regs.rdx = HEAP_GENERATE_EXCEPTIONS;
    e.regs.r8 = 0x41;
    HeapAlloc(&mut e);
    assert_eq!(e.regs.rax, 0);
    assert_eq!(e.exceptions, vec![ExceptionType::HeapNoMemory]);
    // The process heap cannot be destroyed; the new one can, once.
    e.regs.rcx = process;
    HeapDestroy(&mut e);
    assert_eq!(e.regs.rax, 0);
    e.regs.rcx = h;
    HeapDestroy(&mut e);
    assert_eq!(e.regs.rax, 1);
    e.regs.rcx = h;
    HeapDestroy(&mut e);
    assert_eq!(e.regs.rax, 0);
    e.regs.rcx = 0x1_0000_0000;
    HeapDestroy(&mut e);
    assert_eq!(e.regs.rax, 0);
}

#[test]
fn failed_allocation_without_flag_raises_nothing() {
    let mut e = emu();
    e.regs.rcx = 0;
    e.regs.rdx = 0;
    // Requests just under the large threshold exhaust the process arena
    // after 32 granule-rounded blocks.
    e.regs.r8 = 0x7fff;
    for _ in 0..0x21 {
        HeapAlloc(&mut e);
    }
    assert_eq!(e.regs.rax, 0);
    assert!(e.exceptions.is_empty());
}

#[test]
fn local_alloc_moves_arguments() {
    let mut e = emu();
    e.regs.rcx = 0x40; // flags
    e.regs.rdx = 0x30; // size
    LocalAlloc(&mut e);
    assert_eq!(e.regs.rcx, 0);
    assert_eq!(e.regs.rdx, 0x40);
    assert_eq!(e.regs.r8, 0x30);
    assert_eq!(e.regs.rax, ARENA0);
}

#[test]
fn heap_set_information_succeeds() {
    let mut e = emu();
    e.regs.rcx = 7;
    HeapSetInformation(&mut e);
    assert_eq!(e.regs.rax, 1);
    assert_eq!(e.regs.rcx, 7);
}

#[test]
fn arena_free_undoes_allocate() {
    let mut a = O1Heap::new(0x1000, 0x100);
    let before = a.blocks.clone();
    let p = a.allocate(0x10).unwrap();
    a.free(p);
    assert_eq!(a.blocks.len(), before.len());
    assert!(!a.check_fragment_exists(p));
    // Exhaustion.
    assert_eq!(a.allocate(0x100), None);
}

#[test]
fn heap_handle_records_and_forgets() {
    let mut h = HeapHandle::new(0, 0, 0, 0);
    h.record_allocation(0x10, 4);
    h.record_allocation(0x20, 8);
    assert!(h.forget_allocation(0x10));
    assert_eq!(h.allocations.len(), 1);
    assert_eq!(h.allocations[0].addr, 0x20);
    assert!(!h.forget_allocation(0x10));
}

fn write_block(e: &mut Emu, addr: u64, data: &[u8]) {
    assert!(e.maps.write_bytes(addr, data));
}

#[test]
fn rtl_realloc_moves_and_keeps_the_bytes() {
    let mut e = emu();
    let a = heap_allocate(&mut e, 0, 0x10).unwrap();
    write_block(&mut e, a, b"0123456789abcdef");
    e.regs.rcx = 0;
    e.regs.rdx = HEAP_ZERO_MEMORY;
    e.regs.r8 = a;
    e.regs.r9 = 0x20;
    e.maps.write_bytes(a + 0x10, &[0xee; 0x20]);
    RtlReAllocateHeap(&mut e);
    let b = e.regs.rax;
    assert_eq!(b, a + 0x10);
    assert_eq!(e.maps.read_bytes(b, 0x10).unwrap(), b"0123456789abcdef".to_vec());
    // The grown tail is zeroed.
    assert_eq!(e.maps.read_bytes(b + 0x10, 0x10).unwrap(), vec![0u8; 0x10]);
    // The old block is gone, the new one is known.
    assert_eq!(heap_allocation_size(&e, a), None);
    assert_eq!(heap_allocation_size(&e, b), Some(0x20));
}

#[test]
fn rtl_realloc_shrinks_and_fails_as_asked() {
    let mut e = emu();
    let a = heap_allocate(&mut e, 0, 0x20).unwrap();
    write_block(&mut e, a, b"abcdefgh");
    // In place only: a smaller size keeps the block.
    e.regs.rcx = 0;
    e.regs.rdx = HEAP_REALLOC_IN_PLACE_ONLY;
    e.regs.r8 = a;
    e.regs.r9 = 0x10;
    RtlReAllocateHeap(&mut e);
    assert_eq!(e.regs.rax, a);
    // In place only and bigger: fails, raising when asked to.
    e.regs.rdx = HEAP_REALLOC_IN_PLACE_ONLY | HEAP_GENERATE_EXCEPTIONS;
    e.regs.r8 = a;
    e.regs.r9 = 0x40;
    RtlReAllocateHeap(&mut e);
    assert_eq!(e.regs.rax, 0);
    assert_eq!(e.exceptions, vec![ExceptionType::HeapNoMemory]);
    // A moved shrink keeps only the first bytes.
    e.regs.rdx = 0;
    e.regs.r8 = a;
    e.regs.r9 = 4;
    RtlReAllocateHeap(&mut e);
    let b = e.regs.rax;
    assert_ne!(b, 0);
    assert_eq!(e.maps.read_bytes(b, 4).unwrap(), b"abcd".to_vec());
    // Unknown block, null block, zero size.
    e.regs.r8 = 0x1234;
    e.regs.r9 = 4;
    RtlReAllocateHeap(&mut e);
    assert_eq!(e.regs.rax, 0);
    e.regs.rdx = HEAP_GENERATE_EXCEPTIONS;
    e.regs.r8 = 0;
    RtlReAllocateHeap(&mut e);
    assert_eq!(e.regs.rax, 0);
    assert_eq!(e.exceptions.len(), 2);
    e.regs.r8 = b;
    e.regs.r9 = 0;
    RtlReAllocateHeap(&mut e);
    assert_eq!(e.regs.rax, 0);
    assert_eq!(e.exceptions.len(), 3);
}

#[test]
fn rtl_realloc_to_a_large_map_copies_into_it() {
    let mut e = emu();
    let a = heap_allocate(&mut e, 0, 0x10).unwrap();
    write_block(&mut e, a, b"large!");
    e.regs.rcx = 0;
    e.regs.rdx = 0;
    e.regs.r8 = a;
    e.regs.r9 = 0x9000;
    RtlReAllocateHeap(&mut e);
    let b = e.regs.rax;
    assert_eq!(classify(&e, b), HeapPtrKind::Mapped);
    assert_eq!(e.maps.read_bytes(b, 6).unwrap(), b"large!".to_vec());
    assert_eq!(classify(&e, a), HeapPtrKind::Invalid);
}

#[test]
fn rtl_get_process_heaps_lists_and_counts() {
    let mut e = emu();
    GetProcessHeap(&mut e);
    let process = e.regs.rax;
    e.regs.rcx = 0;
    e.regs.rdx = 0;
    e.regs.r8 = 0;
    HeapCreate(&mut e);
    let h = e.regs.rax;
    // No buffer: the count.
    e.regs.rcx = 0;
    e.regs.rdx = 0;
    RtlGetProcessHeaps(&mut e);
    assert_eq!(e.regs.rax, 2);
    let buf = heap_allocate(&mut e, 0, 0x40).unwrap();
    // Room for exactly both.
    e.regs.rcx = 2;
    e.regs.rdx = buf;
    RtlGetProcessHeaps(&mut e);
    assert_eq!(e.regs.rax, 2);
    assert_eq!(e.maps.read_qword(buf), Some(process));
    assert_eq!(e.maps.read_qword(buf + 8), Some(h));
    // Room for one: it alone is written.
    e.maps.write_qword(buf, 0);
    e.maps.write_qword(buf + 8, 0);
    e.regs.rcx = 1;
    e.regs.rdx = buf;
    RtlGetProcessHeaps(&mut e);
    assert_eq!(e.regs.rax, 1);
    assert_eq!(e.maps.read_qword(buf), Some(process));
    assert_eq!(e.maps.read_qword(buf + 8), Some(0));
    // Room for more than there are: both are written, and 0 is returned.
    e.regs.rcx = 4;
    e.regs.rdx = buf;
    RtlGetProcessHeaps(&mut e);
    assert_eq!(e.regs.rax, 0);
    assert_eq!(e.maps.read_qword(buf + 8), Some(h));
}

#[test]
fn get_command_line_writes_the_executable_name() {
    let mut e = emu();
    GetCommandLineA(&mut e);
    let a = e.regs.rax;
    assert_eq!(a, ARENA0);
    assert_eq!(e.maps.read_bytes(a, 9).unwrap(), b"test.exe\0".to_vec());
    GetCommandLineW(&mut e);
    let w = e.regs.rax;
    assert_eq!(w, ARENA0 + 2048);
    let expect: Vec<u8> = "test.exe\0".encode_utf16().flat_map(|u| u.to_le_bytes()).collect();
    assert_eq!(e.maps.read_bytes(w, 18).unwrap(), expect);
}

#[test]
fn ntdll_heap_routing_runs_the_rtl_workers() {
    let mut e = emu();
    e.regs.rcx = 0;
    e.regs.r8 = 8;
    // kernel32!HeapAlloc landing in ntdll runs the Rtl worker: 1024 bytes.
    assert!(ntdll_heap_dispatch("HeapAlloc", &mut e));
    let a = e.regs.rax;
    assert_eq!(a, ARENA0);
    assert_eq!(heap_allocation_size(&e, a), Some(1024));
    e.regs.r8 = a;
    assert!(ntdll_heap_dispatch("HeapFree", &mut e));
    assert_eq!(e.regs.rax, 1);
    e.regs.rax = 0x55;
    assert!(ntdll_heap_dispatch("RtlFreeAnsiString", &mut e));
    assert_eq!(e.regs.rax, 0x55);
    assert!(!ntdll_heap_dispatch("RtlCreateHeap", &mut e));
    assert_eq!(e.regs.rax, 0x55);
    e.regs.rcx = 0;
    e.regs.rdx = 0;
    assert!(ntdll_heap_dispatch("RtlGetProcessHeaps", &mut e));
    assert_eq!(e.regs.rax, 1);
}
