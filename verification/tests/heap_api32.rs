use mwemu_core::emu::{Arch, Config, Emu, ExceptionType};
use mwemu_core::heap::{
    heap_allocate, heap_allocation_size, HEAP_GENERATE_EXCEPTIONS, HEAP_ZERO_MEMORY,
};
use mwemu_core::winapi32::{
    dispatch, GetCommandLineA, GetCommandLineW, HeapAlloc, HeapCreate, HeapReAlloc, LocalAlloc,
    RtlAllocateHeap, RtlFreeHeap, RtlGetProcessHeaps, RtlReAllocateHeap,
};

const ARENA0: u64 = 0x1000_0000;
const STACK: u64 = 0x2000;
const ESP: u64 = 0x2800;

/// An emulator with a 32-bit stack at `ESP` holding `args`.
fn emu32(args: &[u32]) -> Emu {
    let mut e = Emu::new(Config {
        heap_alloc_min_size: 0x10,
        heap_free_soft: false,
        exe_name: "prog.exe".to_string(),
        verbose: 0,
        arch: Arch::X86_64,
        skip_unimplemented: false,
    });
    assert!(e.maps.create_map("stack", STACK, 0x1000));
    e.regs.rsp = 0xffff_0000_0000_0000 | ESP;
    set_args(&mut e, args);
    e
}

fn set_args(e: &mut Emu, args: &[u32]) {
    let esp = e.regs.get_esp();
    for (i, a) in args.iter().enumerate() {
        assert!(e.maps.write_dword(esp + 4 * i as u64, *a));
    }
}

#[test]
fn heap_alloc32_reads_the_stack_and_pops_three() {
    let mut e = emu32(&[0, 0, 4]);
    HeapAlloc(&mut e);
    assert_eq!(e.regs.rax, ARENA0);
    assert_eq!(heap_allocation_size(&e, ARENA0), Some(0x10));
    assert_eq!(e.regs.get_esp(), ESP + 12);
    // The upper half of rsp is kept.
    assert_eq!(e.regs.rsp >> 32, 0xffff_0000);
}

#[test]
fn heap_alloc32_failure_raises_when_asked() {
    let mut e = emu32(&[0, 0, 0]);
    HeapCreate(&mut e);
    let h = e.regs.rax as u32;
    // A heap with maximum 0x20: a 0x40 request fails.
    set_args(&mut e, &[0, 0, 0x20]);
    HeapCreate(&mut e);
    let small = e.regs.rax as u32;
    assert_ne!(h, small);
    set_args(&mut e, &[small, HEAP_GENERATE_EXCEPTIONS as u32, 0x40]);
    HeapAlloc(&mut e);
    assert_eq!(e.regs.rax, 0);
    assert_eq!(e.exceptions, vec![ExceptionType::HeapNoMemory]);
}

#[test]
fn local_alloc32_pushes_a_zero_handle() {
    let mut e = emu32(&[0x40, 0x30]);
    LocalAlloc(&mut e);
    assert_eq!(e.regs.rax, ARENA0);
    assert_eq!(heap_allocation_size(&e, ARENA0), Some(0x30));
    // Pushed one dword, HeapAlloc popped three: two arguments gone.
    assert_eq!(e.regs.get_esp(), ESP + 8);
    assert_eq!(e.maps.read_dword(ESP - 4), Some(0));
}

#[test]
fn rtl_allocate_and_free32() {
    let mut e = emu32(&[0, 0, 8]);
    RtlAllocateHeap(&mut e);
    let a = e.regs.rax;
    // No padding on this path.
    assert_eq!(heap_allocation_size(&e, a), Some(8));
    assert_eq!(e.regs.get_esp(), ESP + 12);
    e.regs.set_esp(ESP);
    set_args(&mut e, &[0, 0, a as u32]);
    RtlFreeHeap(&mut e);
    assert_eq!(e.regs.rax, 1);
    assert_eq!(heap_allocation_size(&e, a), None);
    assert_eq!(e.regs.get_esp(), ESP + 12);
}

#[test]
fn heap_realloc32_pads_copies_and_zeroes() {
    let mut e = emu32(&[]);
    let a = heap_allocate(&mut e, 0, 0x10).unwrap();
    assert!(e.maps.write_bytes(a, b"0123456789"));
    set_args(&mut e, &[0, HEAP_ZERO_MEMORY as u32, a as u32, 0x18]);
    HeapReAlloc(&mut e);
    let b = e.regs.rax;
    assert_eq!(e.regs.get_esp(), ESP + 16);
    assert_eq!(heap_allocation_size(&e, b), Some(0x18));
    assert_eq!(e.maps.read_bytes(b, 10).unwrap(), b"0123456789".to_vec());
    assert_eq!(e.maps.read_bytes(b + 0x10, 8).unwrap(), vec![0u8; 8]);
    // A tiny size is padded to the minimum.
    e.regs.set_esp(ESP);
    set_args(&mut e, &[0, 0, b as u32, 1]);
    HeapReAlloc(&mut e);
    assert_eq!(heap_allocation_size(&e, e.regs.rax), Some(0x10));
    // A zero size fails at once, raising when asked.
    e.regs.set_esp(ESP);
    set_args(&mut e, &[0, HEAP_GENERATE_EXCEPTIONS as u32, a as u32, 0]);
    HeapReAlloc(&mut e);
    assert_eq!(e.regs.rax, 0);
    assert_eq!(e.exceptions, vec![ExceptionType::HeapNoMemory]);
    assert_eq!(e.regs.get_esp(), ESP + 16);
}

#[test]
fn rtl_realloc32_does_not_pad() {
    let mut e = emu32(&[]);
    let a = heap_allocate(&mut e, 0, 0x10).unwrap();
    set_args(&mut e, &[0, 0, a as u32, 1]);
    RtlReAllocateHeap(&mut e);
    assert_eq!(heap_allocation_size(&e, e.regs.rax), Some(1));
}

#[test]
fn heap_create32_binds_a_new_arena() {
    let mut e = emu32(&[5, 0x1000, 0x40]);
    HeapCreate(&mut e);
    let h = e.regs.rax;
    assert_eq!(e.heap_arenas.len(), 2);
    assert_eq!(e.regs.get_esp(), ESP + 12);
    e.regs.set_esp(ESP);
    set_args(&mut e, &[h as u32, 0, 0x20]);
    HeapAlloc(&mut e);
    assert_eq!(e.regs.rax, e.heap_arenas[1].base);
}

#[test]
fn rtl_get_process_heaps32_writes_dwords() {
    let mut e = emu32(&[]);
    let buf = STACK + 0x100;
    set_args(&mut e, &[0, 0, 0]);
    HeapCreate(&mut e);
    let h = e.regs.rax as u32;
    e.regs.set_esp(ESP);
    set_args(&mut e, &[8, buf as u32]);
    RtlGetProcessHeaps(&mut e);
    // More room than heaps: the one heap is written and 0 returned.
    assert_eq!(e.regs.rax, 0);
    assert_eq!(e.maps.read_dword(buf), Some(h));
    e.regs.set_esp(ESP);
    set_args(&mut e, &[1, buf as u32]);
    RtlGetProcessHeaps(&mut e);
    assert_eq!(e.regs.rax, 1);
    assert_eq!(e.regs.get_esp(), ESP + 8);
    e.regs.set_esp(ESP);
    set_args(&mut e, &[0, 0]);
    RtlGetProcessHeaps(&mut e);
    assert_eq!(e.regs.rax, 1);
    e.regs.set_esp(ESP);
    set_args(&mut e, &[0, buf as u32]);
    RtlGetProcessHeaps(&mut e);
    assert_eq!(e.regs.rax, 0);
}

#[test]
fn get_command_line32_is_the_fixed_name() {
    let mut e = emu32(&[]);
    GetCommandLineA(&mut e);
    assert_eq!(e.maps.read_bytes(e.regs.rax, 9).unwrap(), b"test.exe\0".to_vec());
    GetCommandLineW(&mut e);
    assert_eq!(e.maps.read_bytes(e.regs.rax, 4).unwrap(), vec![b't', 0, b'e', 0]);
}

#[test]
fn ntdll_dispatch_routes_by_name() {
    let mut e = emu32(&[0, 0, 0x20]);
    assert!(dispatch("RtlAllocateHeap", &mut e));
    assert_eq!(e.regs.rax, ARENA0);
    let before = e.regs.rsp;
    assert!(!dispatch("RtlSizeHeap", &mut e));
    assert_eq!(e.regs.rsp, before);
}

#[test]
fn pop_undoes_push() {
    let mut e = emu32(&[]);
    let before = e.regs;
    assert!(e.stack_push32(0x1234_5678));
    assert_eq!(e.regs.get_esp(), ESP - 4);
    assert_eq!(e.stack_pop32(), Some(0x1234_5678));
    assert_eq!(e.regs.rsp, before.rsp);
    // Nothing to pop below the stack region.
    e.regs.set_esp(0x100);
    assert_eq!(e.stack_pop32(), None);
    assert_eq!(e.regs.get_esp(), 0x100);
}
