use mwemu_core::abi::ApiAbi;
use mwemu_core::emu::{Arch, Config, Emu};
use mwemu_core::wincrt::{
    abort, calloc, crt_api_of, free, gateway_by_name, malloc, memcpy, parse_format_specifiers,
    realloc, strlen, strncmp, CrtApi, FormatArg, __p___argc, __p___argv, __p__environ,
    __stdio_common_vfprintf,
};

const ARENA0: u64 = 0x1000_0000;

fn emu() -> Emu {
    Emu::new(Config {
        heap_alloc_min_size: 0x10,
        heap_free_soft: false,
        exe_name: "prog.exe".to_string(),
        verbose: 0,
        arch: Arch::X86_64,
        skip_unimplemented: true,
    })
}

fn put(e: &mut Emu, addr: u64, data: &[u8]) {
    assert!(e.maps.write_bytes(addr, data));
}

#[test]
fn malloc_uses_the_arena_then_maps() {
    let mut e = emu();
    e.regs.rcx = 0;
    malloc(&mut e);
    assert_eq!(e.regs.rax, 0);
    e.regs.rcx = 0x20;
    malloc(&mut e);
    assert_eq!(e.regs.rax, ARENA0);
    // No allocation record is kept by the CRT.
    assert_eq!(e.handle_management.heap_handle_keys(), Vec::<u32>::new());
    e.regs.rcx = 0x8000;
    malloc(&mut e);
    let big = e.regs.rax;
    assert_eq!(e.maps.regions.last().unwrap().name, format!("alloc_{:x}", big));
}

#[test]
fn calloc_zeroes_and_saturates() {
    let mut e = emu();
    put(&mut e, ARENA0, &[0xff; 0x30]);
    e.regs.rcx = 3;
    e.regs.rdx = 0x10;
    calloc(&mut e);
    assert_eq!(e.regs.rax, ARENA0);
    assert_eq!(e.maps.read_bytes(ARENA0, 0x30).unwrap(), vec![0u8; 0x30]);
    e.regs.rcx = 0;
    e.regs.rdx = 7;
    calloc(&mut e);
    assert_eq!(e.regs.rax, 0);
}

#[test]
fn free_releases_arena_blocks_and_maps() {
    let mut e = emu();
    e.regs.rcx = 0x10;
    malloc(&mut e);
    let a = e.regs.rax;
    e.regs.rcx = a;
    free(&mut e);
    assert_eq!(e.regs.rax, 0);
    assert!(!e.heap_arenas[0].check_fragment_exists(a));
    e.regs.rcx = 0x9000;
    malloc(&mut e);
    let m = e.regs.rax;
    let n = e.maps.regions.len();
    e.regs.rcx = m;
    free(&mut e);
    assert_eq!(e.maps.regions.len(), n - 1);
}

#[test]
fn realloc_moves_and_marks() {
    let mut e = emu();
    // A null pointer allocates.
    e.regs.rcx = 0;
    e.regs.rdx = 0x10;
    realloc(&mut e);
    let a = e.regs.rax;
    assert_eq!(a, ARENA0);
    put(&mut e, a, b"abcdefghij");
    // A zero size answers the marker.
    e.regs.rcx = a;
    e.regs.rdx = 0;
    realloc(&mut e);
    assert_eq!(e.regs.rax, 0x1337);
    // A move keeps the bytes and releases the old block.
    e.regs.rcx = a;
    e.regs.rdx = 0x40;
    realloc(&mut e);
    let b = e.regs.rax;
    assert_eq!(b, ARENA0 + 0x10);
    assert_eq!(e.maps.read_bytes(b, 10).unwrap(), b"abcdefghij".to_vec());
    assert!(!e.heap_arenas[0].check_fragment_exists(a));
    // Not a CRT block.
    e.regs.rcx = 0x1234;
    e.regs.rdx = 8;
    realloc(&mut e);
    assert_eq!(e.regs.rax, 0);
    // Null pointer and zero size.
    e.regs.rcx = 0;
    e.regs.rdx = 0;
    realloc(&mut e);
    assert_eq!(e.regs.rax, 0);
}

#[test]
fn strlen_and_strncmp() {
    let mut e = emu();
    put(&mut e, ARENA0, b"hello\0help\0");
    e.regs.rcx = ARENA0;
    strlen(&mut e);
    assert_eq!(e.regs.rax, 5);
    // Unmapped: no bytes.
    e.regs.rcx = 0x50;
    strlen(&mut e);
    assert_eq!(e.regs.rax, 0);
    e.regs.rcx = ARENA0;
    e.regs.rdx = ARENA0 + 6;
    e.regs.r8 = 3;
    strncmp(&mut e);
    assert_eq!(e.regs.rax, 0);
    e.regs.r8 = 4;
    strncmp(&mut e);
    assert_eq!(e.regs.rax as i64, (b'l' as i64) - (b'p' as i64));
    e.regs.rcx = ARENA0 + 6;
    e.regs.rdx = ARENA0;
    strncmp(&mut e);
    assert_eq!(e.regs.rax as i64, 4);
}

#[test]
fn strlen_stops_past_the_limit() {
    let mut e = emu();
    // The arena region is 1 MiB of nonzero bytes after this fill.
    let fill = vec![b'a'; 0x10_0000];
    put(&mut e, ARENA0, &fill);
    e.regs.rcx = ARENA0;
    strlen(&mut e);
    // The whole region is read; the next byte is unmapped.
    assert_eq!(e.regs.rax, 0x10_0000);
}

#[test]
fn memcpy_copies_and_returns_dst() {
    let mut e = emu();
    put(&mut e, ARENA0, b"source");
    e.regs.rcx = ARENA0 + 0x100;
    e.regs.rdx = ARENA0;
    e.regs.r8 = 6;
    memcpy(&mut e);
    assert_eq!(e.regs.rax, ARENA0 + 0x100);
    assert_eq!(e.maps.read_bytes(ARENA0 + 0x100, 6).unwrap(), b"source".to_vec());
}

#[test]
fn abort_stops_the_emulation() {
    let mut e = emu();
    assert_eq!(e.is_running, 1);
    abort(&mut e);
    assert_eq!(e.is_running, 0);
}

#[test]
fn argv_argc_environ_cells() {
    let mut e = emu();
    __p___argv(&mut e);
    let p = e.regs.rax;
    assert_eq!(p, ARENA0 + 32);
    let argv = e.maps.read_qword(p).unwrap();
    assert_eq!(argv, ARENA0);
    let name = e.maps.read_qword(argv).unwrap();
    assert_eq!(name, ARENA0 + 16);
    assert_eq!(e.maps.read_qword(argv + 8), Some(0));
    assert_eq!(e.maps.read_bytes(name, 12).unwrap(), b"program.exe\0".to_vec());
    __p___argc(&mut e);
    assert_eq!(e.maps.read_dword(e.regs.rax), Some(1));
    __p__environ(&mut e);
    assert_eq!(e.maps.read_qword(e.regs.rax), Some(0));
}

#[test]
fn format_specifiers_are_classified() {
    assert_eq!(
        parse_format_specifiers("%d %x%% %s %p %q%"),
        vec![FormatArg::Int, FormatArg::Hex, FormatArg::Str, FormatArg::Ptr, FormatArg::Unknown]
    );
    assert_eq!(parse_format_specifiers("plain"), vec![]);
}

#[test]
fn vfprintf_walks_its_arguments() {
    let mut e = emu();
    put(&mut e, ARENA0, b"%d and %s\0");
    let va = ARENA0 + 0x40;
    put(&mut e, va, &7u64.to_le_bytes());
    put(&mut e, va + 8, &ARENA0.to_le_bytes());
    e.regs.rsp = ARENA0 + 0x80;
    put(&mut e, ARENA0 + 0xa0, &va.to_le_bytes());
    e.regs.r8 = ARENA0;
    __stdio_common_vfprintf(&mut e);
    assert_eq!(e.regs.rax, 1);
}

#[test]
fn gateway_routes_and_reports_unknown_names() {
    let mut e = emu();
    assert_eq!(crt_api_of("malloc"), Some(CrtApi::Malloc));
    assert_eq!(crt_api_of("Malloc"), None);
    e.regs.rcx = 0x10;
    assert_eq!(gateway_by_name("malloc", &mut e), "");
    assert_eq!(e.regs.rax, ARENA0);
    e.regs.rax = 5;
    assert_eq!(gateway_by_name("_set_app_type", &mut e), "");
    assert_eq!(e.regs.rax, 0);
    e.regs.rax = 5;
    assert_eq!(gateway_by_name("WeirdApi", &mut e), "weirdapi");
    assert_eq!(e.regs.rax, 5);
}

#[test]
fn api_abi_arguments_and_results() {
    let mut e = emu();
    assert_eq!(ApiAbi::from_emu(&e), ApiAbi::X86_64);
    e.regs.rdi = 1;
    e.regs.r9 = 6;
    e.regs.rsp = ARENA0;
    put(&mut e, ARENA0 + 8, &0x77u64.to_le_bytes());
    assert_eq!(ApiAbi::X86_64.arg(&e, 0), 1);
    assert_eq!(ApiAbi::X86_64.arg(&e, 5), 6);
    assert_eq!(ApiAbi::X86_64.arg(&e, 7), 0x77);
    e.regs.rsp = 0x10;
    assert_eq!(ApiAbi::X86_64.arg(&e, 6), 0);
    ApiAbi::X86_64.set_ret(&mut e, 9);
    assert_eq!(e.regs.rax, 9);
    e.cfg.arch = Arch::Aarch64;
    assert_eq!(ApiAbi::from_emu(&e), ApiAbi::Aarch64);
    e.regs_aarch64.x[3] = 33;
    assert_eq!(ApiAbi::Aarch64.arg(&e, 3), 33);
    ApiAbi::Aarch64.set_ret(&mut e, 44);
    assert_eq!(e.regs_aarch64.x[0], 44);
    e.cfg.arch = Arch::X86;
    assert_eq!(ApiAbi::from_emu(&e), ApiAbi::Aarch64);
}
