use mwemu_core::export_index::{build_export_index, ExportIndexData};
use mwemu_core::emu::{Arch, Config, Emu};
use mwemu_core::export_registry::{
    module_display_name_for, module_display_name_for_ordinal, ExportIndexRegistry, ModuleExportIndex,
};
use mwemu_core::get_proc_address::{resolve_ordinal_via_registry_or_scanner, GetProcAddress, ORDINAL_MASK};
use mwemu_core::resolver::guess_api_name;
use mwemu_core::winapi32::GetProcAddress as GetProcAddress32;
use mwemu_core::pe_section::ImageSectionHeader;
use mwemu_core::text::{normalize_export_name, normalize_module_name};

fn section(va: u32, raw_ptr: u32, raw_size: u32) -> ImageSectionHeader {
    let mut s = ImageSectionHeader {
        name: [0; 8],
        virtual_size: raw_size,
        virtual_address: va,
        size_of_raw_data: raw_size,
        pointer_to_raw_data: raw_ptr,
        pointer_to_relocations: 0,
        pointer_to_linenumbers: 0,
        number_of_relocations: 0,
        number_of_linenumbers: 0,
        characteristics: 0,
    };
    let n = b".text\0\0\0";
    s.name[..n.len()].copy_from_slice(n);
    s
}

/// Two-function export table; function 0 = direct, function 1 =
/// forwarder to `KERNELBASE.HeapAlloc`.
fn build_raw() -> (Vec<u8>, Vec<ImageSectionHeader>, u32, u32) {
    let mut raw = vec![0u8; 0x200];
    let export_off = 0x040;
    let func_off = 0x080;
    let name_off_table = 0x090;
    let ord_off = 0x0a8;
    let fwd_str_off = 0x0c0;
    let name_a_off = 0x0d0;
    let name_b_off = 0x0e0;

    let export_va: u32 = 0x1040;
    let func_va: u32 = 0x1080;
    let name_table_va: u32 = 0x1090;
    let ord_table_va: u32 = 0x10a8;
    let name_a_va: u32 = 0x10d0;
    let name_b_va: u32 = 0x10e0;

    raw[export_off + 16..export_off + 20].copy_from_slice(&1u32.to_le_bytes());
    raw[export_off + 20..export_off + 24].copy_from_slice(&2u32.to_le_bytes());
    raw[export_off + 24..export_off + 28].copy_from_slice(&2u32.to_le_bytes());
    raw[export_off + 28..export_off + 32].copy_from_slice(&func_va.to_le_bytes());
    raw[export_off + 32..export_off + 36].copy_from_slice(&name_table_va.to_le_bytes());
    raw[export_off + 36..export_off + 40].copy_from_slice(&ord_table_va.to_le_bytes());

    let func0_rva: u32 = 0x1500;
    let func1_rva: u32 = 0x10c0;
    raw[func_off..func_off + 4].copy_from_slice(&func0_rva.to_le_bytes());
    raw[func_off + 4..func_off + 8].copy_from_slice(&func1_rva.to_le_bytes());

    raw[name_off_table..name_off_table + 4].copy_from_slice(&name_a_va.to_le_bytes());
    raw[name_off_table + 4..name_off_table + 8].copy_from_slice(&name_b_va.to_le_bytes());

    raw[ord_off..ord_off + 2].copy_from_slice(&0u16.to_le_bytes());
    raw[ord_off + 2..ord_off + 4].copy_from_slice(&1u16.to_le_bytes());

    let s = b"KERNELBASE.HeapAlloc\0";
    raw[fwd_str_off..fwd_str_off + s.len()].copy_from_slice(s);

    let s = b"A\0";
    raw[name_a_off..name_a_off + s.len()].copy_from_slice(s);
    let s = b"B\0";
    raw[name_b_off..name_b_off + s.len()].copy_from_slice(s);

    let sections = vec![section(0x1000, 0, raw.len() as u32)];
    (raw, sections, export_va, 0x100)
}

fn parsed() -> ExportIndexData {
    let (raw, sections, va, size) = build_raw();
    build_export_index(&raw, &sections, va, size).expect("parse")
}

fn make_index(base: u64, module: &str) -> ModuleExportIndex {
    let normalized = normalize_module_name(module);
    ModuleExportIndex::from_parsed(module.to_string(), normalized, base, &parsed())
}

#[test]
fn register_and_get_by_name() {
    let mut reg = ExportIndexRegistry::new();
    reg.register(make_index(0x10000, "kernel32.dll"));
    assert!(reg.get_by_name("kernel32").is_some());
    assert!(reg.get_by_name("KERNEL32.DLL").is_some());
    assert!(reg.get_by_name("kernelbase").is_none());
}

#[test]
fn get_by_base_returns_correct_module() {
    let mut reg = ExportIndexRegistry::new();
    reg.register(make_index(0x10000, "kernel32.dll"));
    assert!(reg.get_by_base(0x10000).is_some());
    assert!(reg.get_by_base(0x20000).is_none());
}

#[test]
fn replacement_removes_old_base() {
    let mut reg = ExportIndexRegistry::new();
    reg.register(make_index(0x10000, "kernel32.dll"));
    reg.register(make_index(0x20000, "kernel32.dll"));
    assert!(reg.get_by_base(0x10000).is_none(), "old base must be gone");
    assert!(reg.get_by_base(0x20000).is_some());
    assert_eq!(reg.len(), 1, "still one entry");
}

#[test]
fn removal_drops_both_maps_and_order() {
    let mut reg = ExportIndexRegistry::new();
    reg.register(make_index(0x10000, "kernel32.dll"));
    reg.register(make_index(0x20000, "ntdll.dll"));
    assert!(reg.remove("kernel32"));
    assert!(reg.get_by_name("kernel32").is_none());
    assert!(reg.get_by_base(0x10000).is_none());
    assert_eq!(reg.len(), 1);
    let names: Vec<&str> = reg
        .iter_ordered()
        .iter()
        .map(|m| m.normalized_name.as_str())
        .collect();
    assert_eq!(names, vec!["ntdll"]);
}

#[test]
fn named_resolution_is_case_insensitive() {
    let mut reg = ExportIndexRegistry::new();
    reg.register(make_index(0x10000, "kernel32.dll"));
    assert_eq!(reg.resolve_name_in_module("kernel32", "A"), 0x11500);
    assert_eq!(reg.resolve_name_in_module("kernel32", "a"), 0x11500);
}

#[test]
fn global_search_returns_first_match() {
    let mut reg = ExportIndexRegistry::new();
    reg.register(make_index(0x10000, "kernel32.dll"));
    reg.register(make_index(0x30000, "ntdll.dll"));
    assert_eq!(reg.resolve_name_global("A"), 0x11500);
}

#[test]
fn base_lookup_honors_handle() {
    let mut reg = ExportIndexRegistry::new();
    reg.register(make_index(0x10000, "kernel32.dll"));
    assert_eq!(reg.resolve_name_by_base(0x10000, "A"), 0x11500);
    assert_eq!(reg.resolve_name_by_base(0x99999, "A"), 0);
}

#[test]
fn ordinal_resolution_uses_export_base() {
    let mut reg = ExportIndexRegistry::new();
    reg.register(make_index(0x10000, "kernel32.dll"));
    assert_eq!(reg.resolve_ordinal_by_base(0x10000, 1), 0x11500);
    assert_eq!(reg.resolve_ordinal_by_base(0x10000, 0), 0);
}

#[test]
fn address_to_name_reverse_lookup() {
    let mut reg = ExportIndexRegistry::new();
    reg.register(make_index(0x10000, "kernel32.dll"));
    assert_eq!(
        reg.resolve_address(0x11500),
        Some(("kernel32".to_string(), "A".to_string()))
    );
    assert_eq!(reg.resolve_address(0x99999), None);
}

#[test]
fn forwarder_string_preserved_when_target_missing() {
    let mut reg = ExportIndexRegistry::new();
    reg.register(make_index(0x10000, "kernel32.dll"));
    assert_eq!(reg.resolve_name_in_module("kernel32", "B"), 0);
}

#[test]
fn forwarder_resolves_to_registered_target() {
    let mut reg = ExportIndexRegistry::new();
    reg.register(make_index(0x10000, "kernel32.dll"));
    reg.register(make_index(0x50000, "kernelbase.dll"));
    assert_eq!(reg.resolve_name_in_module("kernel32", "B"), 0);
}

#[test]
fn ordering_preserved_across_replace() {
    let mut reg = ExportIndexRegistry::new();
    reg.register(make_index(0x10000, "kernel32.dll"));
    reg.register(make_index(0x20000, "ntdll.dll"));
    reg.register(make_index(0x30000, "kernel32.dll"));
    let names: Vec<&str> = reg
        .iter_ordered()
        .iter()
        .map(|m| m.normalized_name.as_str())
        .collect();
    assert_eq!(names, vec!["kernel32", "ntdll"]);
}

#[test]
fn module_name_normalization_handles_paths_and_case() {
    assert_eq!(normalize_module_name("KERNEL32.DLL"), "kernel32");
    assert_eq!(
        normalize_module_name("C:\\Windows\\kernel32.dll"),
        "kernel32"
    );
    assert_eq!(normalize_module_name("/usr/lib/kernel32.dll"), "kernel32");
    assert_eq!(normalize_module_name("kernel32"), "kernel32");
    assert_eq!(normalize_module_name("  kernelbase.DLL  "), "kernelbase");
}

#[test]
fn parsed_rebase_updates_addresses() {
    let mut idx = make_index(0x10000, "kernel32.dll");
    assert_eq!(
        idx.resolve_name("a").unwrap().direct_address(),
        Some(0x11500)
    );
    idx.rebase(0x40000);
    assert_eq!(
        idx.resolve_name("a").unwrap().direct_address(),
        Some(0x41500)
    );
    assert_eq!(idx.base, 0x40000);
    assert_eq!(idx.resolve_address(0x41500), Some("A"));
}

#[test]
fn unindexed_module_resolves_to_zero() {
    let reg = ExportIndexRegistry::new();
    assert_eq!(reg.resolve_name_in_module("nope", "A"), 0);
    assert_eq!(reg.resolve_name_global("A"), 0);
}

#[test]
fn parsed_named_exports_preserve_case_in_address_map() {
    let idx = make_index(0x10000, "kernel32.dll");
    assert_eq!(idx.resolve_address(0x11500), Some("A"));
}

// ---------------------------------------------------------------------

#[test]
fn rebase_matches_fresh_placement() {
    // Placing at 0x10000 then rebasing to 0x70000 gives the slots of a
    // placement at 0x70000 directly; the forwarder is untouched.
    let mut moved = make_index(0x10000, "kernel32.dll");
    moved.rebase(0x70000);
    let fresh = make_index(0x70000, "kernel32.dll");
    assert_eq!(moved.by_ordinal, fresh.by_ordinal);
    assert_eq!(moved.resolve_address(0x71500), Some("A"));
    assert_eq!(moved.resolve_address(0x11500), None);
}

#[test]
fn rebase_wraps_around_the_address_space() {
    let mut idx = make_index(0x10000, "kernel32.dll");
    idx.rebase(u64::MAX - 0xff);
    // (2^64 - 0x100) + 0x1500 wraps to 0x1400.
    assert_eq!(
        idx.resolve_name("a").unwrap().direct_address(),
        Some(0x1400)
    );
}

#[test]
fn forwarder_slot_is_not_direct() {
    let idx = make_index(0x10000, "kernel32.dll");
    let b = idx.resolve_name("b").unwrap();
    assert!(!b.is_direct());
    assert_eq!(b.direct_address(), None);
    let a = idx.resolve_name("a").unwrap();
    assert!(a.is_direct());
}

#[test]
fn ordinal_beyond_table_resolves_to_zero() {
    let mut reg = ExportIndexRegistry::new();
    reg.register(make_index(0x10000, "kernel32.dll"));
    assert_eq!(reg.resolve_ordinal_by_base(0x10000, 3), 0);
}

#[test]
fn remove_of_unknown_module_changes_nothing() {
    let mut reg = ExportIndexRegistry::new();
    reg.register(make_index(0x10000, "kernel32.dll"));
    assert!(!reg.remove("ntdll"));
    assert_eq!(reg.len(), 1);
    assert!(!reg.is_empty());
    assert!(reg.get_by_base(0x10000).is_some());
}

#[test]
fn export_name_normalization_trims_and_lowercases() {
    assert_eq!(normalize_export_name("  HeapAlloc\t"), "heapalloc");
    assert_eq!(normalize_export_name("A"), "a");
}

#[test]
fn module_name_strips_only_one_dll_suffix() {
    assert_eq!(normalize_module_name("x.dll.dll"), "x.dll");
    assert_eq!(normalize_module_name("dir/"), "");
}

#[test]
fn dump_lists_forwarders_with_zero_address() {
    let idx = make_index(0x10000, "kernel32.dll");
    let dump = idx.iter_for_dump();
    assert_eq!(
        dump,
        vec![("A".to_string(), 0x11500), ("B".to_string(), 0)]
    );
    let names = idx.display_names_for_iter();
    assert_eq!(names, vec![("A".to_string(), 0), ("B".to_string(), 1)]);
}

fn emu_with(reg: ExportIndexRegistry) -> Emu {
    let mut e = Emu::new(Config {
        heap_alloc_min_size: 0x10,
        heap_free_soft: false,
        exe_name: "x.exe".to_string(),
        verbose: 0,
        arch: Arch::X86_64,
        skip_unimplemented: false,
    });
    e.export_indexes = reg;
    e
}

#[test]
fn display_names_follow_name_and_ordinal() {
    let m = make_index(0x10000, "kernel32.dll");
    assert_eq!(module_display_name_for(&m, "a"), Some("A".to_string()));
    assert_eq!(module_display_name_for(&m, "zz"), None);
    assert_eq!(module_display_name_for_ordinal(&m, 2), Some("B".to_string()));
    assert_eq!(module_display_name_for_ordinal(&m, 0), None);
    let mut reg = ExportIndexRegistry::new();
    reg.register(m);
    assert_eq!(
        resolve_ordinal_via_registry_or_scanner(&reg, 0x10000, 1),
        (0x11500, "kernel32.dll".to_string(), "A".to_string())
    );
    assert_eq!(
        resolve_ordinal_via_registry_or_scanner(&reg, 0x40000, 17),
        (0, String::new(), "#17".to_string())
    );
}

#[test]
fn get_proc_address_by_ordinal_and_name() {
    let mut reg = ExportIndexRegistry::new();
    reg.register(make_index(0x10000, "kernel32.dll"));
    let mut e = emu_with(reg);
    let asked = std::cell::RefCell::new(Vec::<String>::new());
    let mut scan_module = |m: &str, n: &str| {
        asked.borrow_mut().push(format!("{}|{}", m, n));
        0
    };
    let mut scan_global = |n: &str| {
        asked.borrow_mut().push(n.to_string());
        0x999
    };
    // By ordinal.
    e.regs.rcx = 0x10000;
    e.regs.rdx = ORDINAL_MASK | 1;
    GetProcAddress(&mut e, &mut scan_module, &mut scan_global);
    assert_eq!(e.regs.rax, 0x11500);
    e.regs.rcx = 0x50000;
    GetProcAddress(&mut e, &mut scan_module, &mut scan_global);
    assert_eq!(e.regs.rax, 0);
    // By name, in the module the handle names: any case.
    let name_at = 0x1000_0000;
    assert!(e.maps.write_string(name_at, "A"));
    e.regs.rcx = 0x10000;
    e.regs.rdx = name_at;
    GetProcAddress(&mut e, &mut scan_module, &mut scan_global);
    assert_eq!(e.regs.rax, 0x11500);
    // A name the module does not export: 0, no search elsewhere.
    assert!(e.maps.write_string(name_at, "Missing"));
    GetProcAddress(&mut e, &mut scan_module, &mut scan_global);
    assert_eq!(e.regs.rax, 0);
    assert!(asked.borrow().is_empty());
    // An unknown handle: the name, lower-cased, is looked up in no
    // particular module, then everywhere; the answer is memoised.
    e.regs.rcx = 0x50000;
    GetProcAddress(&mut e, &mut scan_module, &mut scan_global);
    assert_eq!(e.regs.rax, 0x999);
    assert_eq!(*asked.borrow(), vec!["|missing".to_string(), "missing".to_string()]);
    e.regs.rax = 0;
    GetProcAddress(&mut e, &mut scan_module, &mut scan_global);
    assert_eq!(e.regs.rax, 0x999);
    assert_eq!(asked.borrow().len(), 2);
    // An unknown handle, a name some registered module exports.
    assert!(e.maps.write_string(name_at, "a"));
    GetProcAddress(&mut e, &mut scan_module, &mut scan_global);
    assert_eq!(e.regs.rax, 0x11500);
}

#[test]
fn get_proc_address32_reads_the_stack() {
    let mut reg = ExportIndexRegistry::new();
    reg.register(make_index(0x10000, "kernel32.dll"));
    let mut e = emu_with(reg);
    assert!(e.maps.create_map("stack", 0x2000, 0x1000));
    e.regs.rsp = 0x2800;
    assert!(e.maps.write_dword(0x2800, 0x10000));
    assert!(e.maps.write_dword(0x2804, 0xffff_0002));
    let mut scan_module = |_: &str, _: &str| 0x777;
    let mut scan_global = |_: &str| 0x888;
    GetProcAddress32(&mut e, &mut scan_module, &mut scan_global);
    assert_eq!(e.regs.get_esp(), 0x2808);
    // Ordinal 2 is the forwarder to a module that is not registered.
    assert_eq!(e.regs.rax, 0);
    assert!(e.maps.write_string(0x2900, "b"));
    e.regs.rsp = 0x2800;
    assert!(e.maps.write_dword(0x2800, 0x60000));
    assert!(e.maps.write_dword(0x2804, 0x2900));
    GetProcAddress32(&mut e, &mut scan_module, &mut scan_global);
    assert_eq!(e.regs.rax, 0x777);
}

#[test]
fn guessed_names_drop_the_extension() {
    let mut reg = ExportIndexRegistry::new();
    reg.register(make_index(0x10000, "kernel32.dll"));
    reg.register(make_index(0x30000, "ntdll"));
    let mut scan = |a: u64| format!("scanned_{:x}", a);
    assert_eq!(guess_api_name(&reg, 0x11500, &mut scan), "kernel32!A");
    assert_eq!(guess_api_name(&reg, 0x31500, &mut scan), "ntdll!A");
    assert_eq!(guess_api_name(&reg, 0x5, &mut scan), "scanned_5");
    assert_eq!(
        reg.resolve_address_named(0x11500),
        Some(("kernel32.dll".to_string(), "A".to_string()))
    );
}

#[test]
fn rebase_there_and_back_restores_the_index() {
    let original = make_index(0x10000, "kernel32.dll");
    let mut idx = make_index(0x10000, "kernel32.dll");
    idx.rebase(u64::MAX - 0xff);
    idx.rebase(0x10000);
    assert_eq!(idx.base, original.base);
    assert_eq!(idx.by_ordinal, original.by_ordinal);
    assert_eq!(idx.resolve_address(0x11500), Some("A"));
    assert_eq!(idx.resolve_name("a").unwrap().direct_address(), Some(0x11500));
}
