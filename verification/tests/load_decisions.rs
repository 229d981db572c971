use mwemu_core::emu::{Arch, IMAGE_FILE_MACHINE_I386};
use mwemu_core::kernel_module::{module_arch, EM_X86_64};
use mwemu_core::load_plan::{
    elf32_entry, plan_load, FormatProbe, LoadFormat, IMAGE_FILE_MACHINE_AMD64, IMAGE_FILE_MACHINE_ARM64,
};
use mwemu_core::resolver::{resolve_forwarded_export_string, resolve_forwarded_export_string_depth, split_forwarder};
use mwemu_core::rip::{rip_action, RipAction, RipContext};
use mwemu_core::text::{normalize_export_name, normalize_module_name};

fn no_probe() -> FormatProbe {
    FormatProbe {
        elf64_aarch64: false,
        macho64_aarch64: false,
        macho64_x64: false,
        elf64_x64: false,
        pe_machine: None,
    }
}

const ELF32_HEAD: [u8; 6] = [0x7f, b'E', b'L', b'F', 1, 1];

#[test]
fn a_kernel_module_must_be_relocatable() {
    match module_arch(2, EM_X86_64) {
        Err(m) => assert_eq!(m, "not a kernel module: ELF type is not ET_REL"),
        Ok(_) => panic!("an executable is no kernel module"),
    }
}

#[test]
fn a_kernel_module_selects_its_architecture() {
    assert!(matches!(module_arch(1, 62), Ok(Arch::X86_64)));
    assert!(matches!(module_arch(1, 183), Ok(Arch::Aarch64)));
    match module_arch(1, 0x28) {
        Err(m) => assert_eq!(m, "unsupported kernel module architecture e_machine=0x28"),
        Ok(_) => panic!("ARM32 modules are not supported"),
    }
    match module_arch(1, 3) {
        Err(m) => assert_eq!(m, "unsupported kernel module architecture e_machine=0x3"),
        Ok(_) => panic!("i386 modules are not supported"),
    }
}

#[test]
fn shellcode_mode_overrides_every_format() {
    let mut p = no_probe();
    p.pe_machine = Some(IMAGE_FILE_MACHINE_AMD64);
    assert_eq!(plan_load(&ELF32_HEAD, true, &p), LoadFormat::Shellcode);
}

#[test]
fn formats_are_detected_in_order() {
    let mut p = no_probe();
    p.elf64_aarch64 = true;
    p.pe_machine = Some(IMAGE_FILE_MACHINE_I386);
    assert_eq!(plan_load(&ELF32_HEAD, false, &p), LoadFormat::Elf32);
    assert_eq!(plan_load(&[0x90, 0x90], false, &p), LoadFormat::Elf64Aarch64);
    p.elf64_aarch64 = false;
    p.macho64_x64 = true;
    assert_eq!(plan_load(&[0x90], false, &p), LoadFormat::Macho64X64);
    p.macho64_x64 = false;
    assert_eq!(plan_load(&[0x90], false, &p), LoadFormat::Pe32);
    p.pe_machine = Some(IMAGE_FILE_MACHINE_ARM64);
    assert_eq!(plan_load(&[0x90], false, &p), LoadFormat::Pe64Arm64);
    p.pe_machine = Some(IMAGE_FILE_MACHINE_AMD64);
    assert_eq!(plan_load(&[0x90], false, &p), LoadFormat::Pe64X64);
    p.pe_machine = Some(0x1c0);
    assert_eq!(plan_load(&[0x90], false, &p), LoadFormat::Shellcode);
    assert_eq!(plan_load(&[], false, &no_probe()), LoadFormat::Shellcode);
}

#[test]
fn elf32_entry_below_the_base_is_moved_by_it() {
    const DEFAULT: u64 = 0x3c0000;
    assert_eq!(elf32_entry(0x1060, 0x5655_5000, DEFAULT, DEFAULT), 0x5655_6060);
    assert_eq!(elf32_entry(0x0804_9000, 0, DEFAULT, DEFAULT), 0x0804_9000);
    assert_eq!(elf32_entry(0, 0x5655_5000, DEFAULT, DEFAULT), 0);
    assert_eq!(elf32_entry(0x6000_0000, 0x5655_5000, DEFAULT, DEFAULT), 0x6000_0000);
    assert_eq!(elf32_entry(0x1060, 0x5655_5000, 0x401000, DEFAULT), 0x401000);
}

fn windows_ctx() -> RipContext {
    RipContext {
        kernel: false,
        linux: false,
        macos: false,
        linux_real_libc: false,
        ld_bootstrap: false,
        emulate_winapi: false,
        skip_apicall: false,
        libs_min: 0x7ff0_0000_0000,
        return_thread: 0x1234_5678,
    }
}

#[test]
fn jumps_in_the_kernel_and_to_the_thread_return() {
    let mut c = windows_ctx();
    assert!(matches!(rip_action(0x1234_5678, &c, true, "", None, ""), RipAction::ThreadReturn));
    c.kernel = true;
    assert!(matches!(rip_action(0x1234_5678, &c, true, "", None, ""), RipAction::KernelPc));
}

#[test]
fn jumps_to_unmapped_addresses() {
    let mut c = windows_ctx();
    assert!(matches!(rip_action(0x10, &c, false, "", None, ""), RipAction::NonMappedFault));
    match rip_action(0x10, &c, false, "kernel32.dll!Sleep", None, "") {
        RipAction::ImportGateway { dll, api } => {
            assert_eq!(dll, "kernel32.dll");
            assert_eq!(api, "Sleep");
        },
        _ => panic!("a bound import goes through the gateway"),
    }
    assert!(matches!(
        rip_action(0x10, &c, false, " MSVCRT.dll !printf", Some(0x7ff0_1000), ""),
        RipAction::MsvcrtNative { target: 0x7ff0_1000 }
    ));
    match rip_action(0x10, &c, false, "msvcrt.dll!printf", None, "") {
        RipAction::UnhandledImport { dll, api } => {
            assert_eq!(dll, "msvcrt.dll");
            assert_eq!(api, "printf");
        },
        _ => panic!("an msvcrt import without native code is skipped"),
    }
    c.linux = true;
    assert!(matches!(rip_action(0x10, &c, false, "x!y", None, ""), RipAction::Unmapped));
}

#[test]
fn jumps_to_mapped_addresses() {
    let mut c = windows_ctx();
    assert!(matches!(rip_action(0x40_1000, &c, true, "", None, ""), RipAction::Jump));
    assert!(matches!(rip_action(0x7ff0_0000_1000, &c, true, "", None, ""), RipAction::Winapi));
    c.skip_apicall = true;
    assert!(matches!(rip_action(0x7ff0_0000_1000, &c, true, "", None, ""), RipAction::SkipApiCall));
    c.emulate_winapi = true;
    assert!(matches!(rip_action(0x7ff0_0000_1000, &c, true, "", None, ""), RipAction::Jump));
    let mut l = windows_ctx();
    l.linux = true;
    assert!(matches!(rip_action(0x7ff0_0000_1000, &l, true, "", None, ""), RipAction::UnixIntercept));
    l.linux_real_libc = true;
    assert!(matches!(rip_action(0x7ff0_0000_1000, &l, true, "", None, "puts"), RipAction::Jump));
    assert!(matches!(
        rip_action(0x7ff0_0000_1000, &l, true, "", None, "__libc_start_main"),
        RipAction::UnixIntercept
    ));
    l.ld_bootstrap = true;
    assert!(matches!(
        rip_action(0x7ff0_0000_1000, &l, true, "", None, "__libc_start_main"),
        RipAction::Jump
    ));
}

#[test]
fn normalising_a_key_again_keeps_it() {
    for n in ["KERNEL32.DLL", "C:\\Windows\\System32\\NTDLL.dll", "/usr/lib/libc.so", "  kernelbase.DLL  "] {
        let k = normalize_module_name(n);
        assert_eq!(normalize_module_name(&k), k);
        assert!(!k.contains('\\') && !k.contains('/'));
        assert!(!k.chars().any(|c| c.is_ascii_uppercase()));
    }
    for n in ["  GetProcAddress ", "LoadLibraryA", "\tExitProcess\n"] {
        let k = normalize_export_name(n);
        assert_eq!(normalize_export_name(&k), k);
    }
}

#[test]
fn normalising_a_key_ending_in_dll_again_changes_it() {
    let k = normalize_module_name("a.dll.dll");
    assert_eq!(k, "a.dll");
    assert_eq!(normalize_module_name(&k), "a");
}

#[test]
fn normalising_ignores_ascii_case() {
    for n in ["Kernel32.Dll", "C:\\Windows\\NtDll.DLL", " msvcrt "] {
        assert_eq!(normalize_module_name(&n.to_ascii_uppercase()), normalize_module_name(n));
    }
}

#[test]
fn forwarders_split_at_the_first_dot() {
    assert_eq!(
        split_forwarder("  KERNELBASE.QueryPerformanceCounter "),
        Some(("KERNELBASE".to_string(), "QueryPerformanceCounter".to_string()))
    );
    assert_eq!(split_forwarder("NTDLL . RtlAllocateHeap"), Some(("NTDLL".to_string(), "RtlAllocateHeap".to_string())));
    assert_eq!(split_forwarder("a.b.c"), Some(("a".to_string(), "b.c".to_string())));
    assert_eq!(split_forwarder("nodot"), None);
    assert_eq!(split_forwarder(".sym"), None);
    assert_eq!(split_forwarder("dll. "), None);
}

#[test]
fn forwarders_resolve_in_loaded_modules() {
    let mut normalize = |d: &str| -> Option<String> { Some(format!("{}.dll", d.to_ascii_lowercase())) };
    let mut loaded = |m: &str| -> bool { m == "kernelbase.dll" };
    let mut asked: Vec<(String, String, u32)> = Vec::new();
    let mut search = |m: &str, s: &str, d: u32| -> u64 {
        asked.push((m.to_string(), s.to_string(), d));
        0x7ff0_1234
    };
    assert_eq!(
        resolve_forwarded_export_string("KERNELBASE.Sleep", &mut normalize, &mut loaded, &mut search),
        0x7ff0_1234
    );
    // An API-set contract resolves in kernelbase.
    assert_eq!(
        resolve_forwarded_export_string_depth("api-ms-win-core-synch-l1-2-0.Sleep", 3, &mut normalize, &mut loaded, &mut search),
        0x7ff0_1234
    );
    // A module that is not loaded, a malformed string, a chain too deep.
    assert_eq!(resolve_forwarded_export_string("NTDLL.Sleep", &mut normalize, &mut loaded, &mut search), 0);
    assert_eq!(resolve_forwarded_export_string("Sleep", &mut normalize, &mut loaded, &mut search), 0);
    assert_eq!(
        resolve_forwarded_export_string_depth("KERNELBASE.Sleep", 9, &mut normalize, &mut loaded, &mut search),
        0
    );
    drop(search);
    assert_eq!(
        asked,
        vec![
            ("kernelbase.dll".to_string(), "Sleep".to_string(), 0),
            ("kernelbase.dll".to_string(), "Sleep".to_string(), 3),
        ]
    );
}
