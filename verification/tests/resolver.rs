use std::cell::RefCell;

use mwemu_core::emu::{Arch, Config, Emu};
use mwemu_core::export_index::build_export_index;
use mwemu_core::export_registry::{ExportIndexRegistry, ModuleExportIndex};
use mwemu_core::pe_section::ImageSectionHeader;
use mwemu_core::resolver::{
    dump_module_iat, resolve_api_addr_to_name, resolve_api_name, resolve_api_name_in_module,
    search_api_name,
};
use mwemu_core::resolver32;
use mwemu_core::text::normalize_module_name;
use mwemu_core::wincrt::gateway;

fn section(raw_size: u32) -> ImageSectionHeader {
    ImageSectionHeader {
        name: *b".text\0\0\0",
        virtual_size: raw_size,
        virtual_address: 0x1000,
        size_of_raw_data: raw_size,
        pointer_to_raw_data: 0,
        pointer_to_relocations: 0,
        pointer_to_linenumbers: 0,
        number_of_relocations: 0,
        number_of_linenumbers: 0,
        characteristics: 0,
    }
}

/// An export table whose function `i` is named `names[i]` and lives at
/// RVA `0x1500 + 0x10 * i`.
fn index_of(base: u64, module: &str, names: &[&str]) -> ModuleExportIndex {
    let n = names.len();
    let mut raw = vec![0u8; 0x400];
    let export_off = 0x40usize;
    let func_off = 0x80usize;
    let name_tbl_off = func_off + 4 * n;
    let ord_off = name_tbl_off + 4 * n;
    let mut str_off = ord_off + 2 * n + 0x10;
    let va = |off: usize| 0x1000u32 + off as u32;
    raw[export_off + 16..export_off + 20].copy_from_slice(&1u32.to_le_bytes());
    raw[export_off + 20..export_off + 24].copy_from_slice(&(n as u32).to_le_bytes());
    raw[export_off + 24..export_off + 28].copy_from_slice(&(n as u32).to_le_bytes());
    raw[export_off + 28..export_off + 32].copy_from_slice(&va(func_off).to_le_bytes());
    raw[export_off + 32..export_off + 36].copy_from_slice(&va(name_tbl_off).to_le_bytes());
    raw[export_off + 36..export_off + 40].copy_from_slice(&va(ord_off).to_le_bytes());
    for (i, name) in names.iter().enumerate() {
        let rva = 0x1500u32 + 0x10 * i as u32;
        raw[func_off + 4 * i..func_off + 4 * i + 4].copy_from_slice(&rva.to_le_bytes());
        raw[name_tbl_off + 4 * i..name_tbl_off + 4 * i + 4].copy_from_slice(&va(str_off).to_le_bytes());
        raw[ord_off + 2 * i..ord_off + 2 * i + 2].copy_from_slice(&(i as u16).to_le_bytes());
        raw[str_off..str_off + name.len()].copy_from_slice(name.as_bytes());
        str_off += name.len() + 1;
    }
    let parsed = build_export_index(&raw, &[section(0x400)], va(export_off), 0x30).expect("parse");
    ModuleExportIndex::from_parsed(module.to_string(), normalize_module_name(module), base, &parsed)
}

fn emu_with(reg: ExportIndexRegistry, skip_unimplemented: bool) -> Emu {
    let mut e = Emu::new(Config {
        heap_alloc_min_size: 0x10,
        heap_free_soft: false,
        exe_name: "x.exe".to_string(),
        verbose: 0,
        arch: Arch::X86_64,
        skip_unimplemented,
    });
    e.export_indexes = reg;
    e
}

fn kernel32_and_ucrt() -> ExportIndexRegistry {
    let mut reg = ExportIndexRegistry::new();
    reg.register(index_of(0x10000, "KERNEL32.dll", &["HeapAlloc", "HeapFree"]));
    reg.register(index_of(0x20000, "ucrtbase.dll", &["strlen", "malloc"]));
    reg
}

#[test]
fn address_names_are_memoised() {
    let mut e = emu_with(kernel32_and_ucrt(), false);
    let asked = RefCell::new(Vec::<u64>::new());
    let mut scan = |a: u64| {
        asked.borrow_mut().push(a);
        if a == 0x5 { "Found".to_string() } else { String::new() }
    };
    assert_eq!(resolve_api_addr_to_name(&mut e, 0x11510, &mut scan), "HeapFree");
    assert_eq!(e.api_addr_name_cache.get(&0x11510), Some(&"HeapFree".to_string()));
    assert_eq!(resolve_api_addr_to_name(&mut e, 0x5, &mut scan), "Found");
    assert_eq!(resolve_api_addr_to_name(&mut e, 0x6, &mut scan), "");
    assert!(!e.api_addr_name_cache.contains_key(&0x6));
    assert_eq!(*asked.borrow(), vec![0x5, 0x6]);
    // A second call answers from the memo, asking nothing.
    let mut refuse = |_: u64| -> String { panic!("no search expected") };
    assert_eq!(resolve_api_addr_to_name(&mut e, 0x5, &mut refuse), "Found");
    assert_eq!(resolve_api_addr_to_name(&mut e, 0x11510, &mut refuse), "HeapFree");
    assert_eq!(e.api_addr_name_cache.len(), 2);
}

#[test]
fn names_resolve_globally_before_the_search() {
    let reg = kernel32_and_ucrt();
    let mut scan = |n: &str| if n == "Other" { 0x77 } else { 0 };
    assert_eq!(resolve_api_name(&reg, "STRLEN", &mut scan), 0x21500);
    assert_eq!(resolve_api_name(&reg, "Other", &mut scan), 0x77);
    assert_eq!(resolve_api_name(&reg, "missing", &mut scan), 0);
    assert_eq!(resolver32::resolve_api_name(&reg, "heapfree", &mut scan), 0x11510);
}

#[test]
fn search_finds_the_first_name_containing_the_text() {
    let reg = kernel32_and_ucrt();
    let mut scan = |n: &str| (1u64, "scan".to_string(), n.to_string());
    assert_eq!(
        search_api_name(&reg, "Free", &mut scan),
        (0x11510, "KERNEL32.dll".to_string(), "HeapFree".to_string())
    );
    assert_eq!(
        search_api_name(&reg, "Heap", &mut scan),
        (0x11500, "KERNEL32.dll".to_string(), "HeapAlloc".to_string())
    );
    assert_eq!(search_api_name(&reg, "heap", &mut scan), (1, "scan".to_string(), "heap".to_string()));
    // The 32-bit resolver does not search the guest while modules are registered.
    assert_eq!(resolver32::search_api_name(&reg, "heap", &mut scan), (0, String::new(), String::new()));
    let empty = ExportIndexRegistry::new();
    assert_eq!(
        resolver32::search_api_name(&empty, "heap", &mut scan),
        (1, "scan".to_string(), "heap".to_string())
    );
}

#[test]
fn dump_lists_the_exports_of_matching_modules() {
    let reg = kernel32_and_ucrt();
    let mut scan = |n: &str| vec![(n.to_string(), Vec::new())];
    let listing = dump_module_iat(&reg, "KERNEL", &mut scan);
    assert_eq!(
        listing,
        vec![(
            "KERNEL32.dll".to_string(),
            vec![("HeapAlloc".to_string(), 0x11500), ("HeapFree".to_string(), 0x11510)]
        )]
    );
    assert_eq!(dump_module_iat(&reg, "e", &mut scan).len(), 2);
    assert!(dump_module_iat(&reg, "ntdll", &mut scan).is_empty());
    let empty = ExportIndexRegistry::new();
    assert_eq!(dump_module_iat(&empty, "NTDLL", &mut scan), vec![("ntdll".to_string(), Vec::new())]);
    assert_eq!(
        resolver32::dump_module_iat(&empty, "NTDLL", &mut scan),
        vec![("NTDLL".to_string(), Vec::new())]
    );
    assert_eq!(resolver32::dump_module_iat(&reg, "ucrt", &mut scan).len(), 1);
}

#[test]
fn api_set_imports_fall_back_to_backing_modules() {
    let mut e = emu_with(kernel32_and_ucrt(), false);
    let modules = RefCell::new(Vec::<String>::new());
    let mut scan_module = |m: &str, _: &str| {
        modules.borrow_mut().push(m.to_string());
        0
    };
    let mut scan_global = |_: &str| -> u64 { panic!("an API-set lookup never searches globally") };
    let m = "api-ms-win-crt-string-l1-1-0.dll";
    assert_eq!(resolve_api_name_in_module(&mut e, m, "strlen", &mut scan_module, &mut scan_global), 0x21500);
    assert_eq!(*modules.borrow(), vec![m.to_string()]);
    // The same pair in another spelling hits the memo.
    let mut refuse_module = |_: &str, _: &str| -> u64 { panic!("no search expected") };
    assert_eq!(
        resolve_api_name_in_module(
            &mut e,
            "  API-MS-WIN-CRT-STRING-L1-1-0.DLL ",
            "strlen",
            &mut refuse_module,
            &mut scan_global
        ),
        0x21500
    );
    // Nothing anywhere: 0, each module searched in order, nothing memoised.
    modules.borrow_mut().clear();
    assert_eq!(
        resolve_api_name_in_module(&mut e, "api-ms-win-core-synch-l1-2-0", "Sleep", &mut scan_module, &mut scan_global),
        0
    );
    assert_eq!(
        *modules.borrow(),
        vec![
            "api-ms-win-core-synch-l1-2-0".to_string(),
            "kernelbase.dll".to_string(),
            "kernel32.dll".to_string()
        ]
    );
}

#[test]
fn plain_imports_fall_back_to_a_global_lookup() {
    let mut e = emu_with(kernel32_and_ucrt(), false);
    let mut scan_module = |_: &str, _: &str| 0u64;
    let mut scan_global = |n: &str| if n == "MessageBoxA" { 0x55 } else { 0 };
    assert_eq!(
        resolve_api_name_in_module(&mut e, "kernel32.dll", "HeapFree", &mut scan_module, &mut scan_global),
        0x11510
    );
    // Found in another registered module through the global lookup.
    assert_eq!(
        resolve_api_name_in_module(&mut e, "msvcrt.dll", "malloc", &mut scan_module, &mut scan_global),
        0x21510
    );
    assert_eq!(
        resolve_api_name_in_module(&mut e, "user32.dll", "MessageBoxA", &mut scan_module, &mut scan_global),
        0x55
    );
    assert_eq!(
        resolve_api_name_in_module(&mut e, "user32.dll", "Nothing", &mut scan_module, &mut scan_global),
        0
    );
}

#[test]
fn resolver32_module_lookups() {
    let reg = kernel32_and_ucrt();
    let mut scan_module = |m: &str, n: &str| if m == "user32.dll" && n == "MessageBoxA" { 0x66 } else { 0 };
    let mut scan_global = |_: &str| 0x99u64;
    assert_eq!(
        resolver32::resolve_api_name_in_module(&reg, "Api-MS-Win-Crt-Heap-L1-1-0.dll", "malloc", &mut scan_module, &mut scan_global),
        0x21510
    );
    assert_eq!(
        resolver32::resolve_api_name_in_module(&reg, "api-ms-win-x", "nothing", &mut scan_module, &mut scan_global),
        0x99
    );
    assert_eq!(
        resolver32::resolve_api_name_in_module(&reg, "USER32.dll", "MessageBoxA", &mut scan_module, &mut scan_global),
        0x66
    );
    assert_eq!(
        resolver32::resolve_api_name_in_module(&reg, "KERNEL32.DLL", "heapalloc", &mut scan_module, &mut scan_global),
        0x11500
    );
}

#[test]
fn resolver32_address_names() {
    let reg = kernel32_and_ucrt();
    let mut scan = |a: u64| format!("s{:x}", a);
    assert_eq!(resolver32::resolve_api_addr_to_name(&reg, 0x21500, &mut scan), "strlen");
    assert_eq!(resolver32::resolve_api_addr_to_name(&reg, 0x7, &mut scan), "");
    assert_eq!(resolver32::guess_api_name(&reg, 0x21510, &mut scan), "ucrtbase!malloc");
    assert_eq!(resolver32::guess_api_name(&reg, 0x7, &mut scan), "");
    let empty = ExportIndexRegistry::new();
    assert_eq!(resolver32::resolve_api_addr_to_name(&empty, 0x7, &mut scan), "s7");
    assert_eq!(resolver32::guess_api_name(&empty, 0x7, &mut scan), "s7");
}

#[test]
fn crt_gateway_runs_the_function_named_at_the_address() {
    let mut e = emu_with(kernel32_and_ucrt(), false);
    assert!(e.maps.create_map("data", 0x5000, 0x1000));
    assert!(e.maps.write_string(0x5000, "hello"));
    e.regs.rcx = 0x5000;
    let mut scan = |_: u64| -> String { panic!("the address is registered") };
    assert_eq!(gateway(0x21500, &mut e, &mut scan), "");
    assert_eq!(e.regs.rax, 5);
    // A name from the search; unknown ones are skipped and handed back.
    let mut e = emu_with(ExportIndexRegistry::new(), true);
    e.regs.rax = 0x1234;
    let mut scan = |_: u64| "api-ms-win-crt-misc!Frobnicate".to_string();
    assert_eq!(gateway(0x40, &mut e, &mut scan), "frobnicate");
    assert_eq!(e.regs.rax, 0x1234);
}
