use mwemu_core::emu::{ApiCallLogEntry, Arch, Config, Emu, IMAGE_FILE_MACHINE_I386};

fn emu(arch: Arch) -> Emu {
    Emu::new(Config {
        heap_alloc_min_size: 0x10,
        heap_free_soft: false,
        exe_name: "test.exe".to_string(),
        verbose: 0,
        arch,
        skip_unimplemented: false,
    })
}

#[test]
fn program_counter_follows_the_architecture() {
    let mut e = emu(Arch::X86_64);
    e.set_pc(0x401000);
    assert_eq!(e.regs.rip, 0x401000);
    assert_eq!(e.pc(), 0x401000);
    assert_eq!(e.regs_aarch64().pc, 0);
    let mut a = emu(Arch::Aarch64);
    a.set_pc(0x8000);
    assert_eq!(a.regs_aarch64.pc, 0x8000);
    assert_eq!(a.regs.rip, 0);
    assert_eq!(a.pc(), 0x8000);
    let mut x = emu(Arch::X86);
    x.set_pc(0x1234);
    assert_eq!(x.regs.rip, 0x1234);
}

#[test]
fn stack_pointer_follows_the_architecture() {
    let mut e = emu(Arch::X86_64);
    e.set_sp(0x7fff_0000);
    assert_eq!(e.regs.rsp, 0x7fff_0000);
    assert_eq!(e.sp(), 0x7fff_0000);
    let mut a = emu(Arch::Aarch64);
    a.set_sp(0x9000);
    assert_eq!(a.regs_aarch64.sp, 0x9000);
    assert_eq!(a.regs.rsp, 0);
    assert_eq!(a.sp(), 0x9000);
}

#[test]
fn register_files_change_in_place() {
    let mut e = emu(Arch::X86_64);
    e.regs_mut().rbx = 7;
    assert_eq!(e.regs().rbx, 7);
    e.regs_aarch64_mut().x[3] = 9;
    assert_eq!(e.regs_aarch64().x[3], 9);
    e.set_rip_without_check(0xdead);
    assert_eq!(e.regs.rip, 0xdead);
    assert_eq!(e.regs.rbx, 7);
}

#[test]
fn stop_clears_the_run_flag() {
    let mut e = emu(Arch::X86_64);
    assert_eq!(e.is_running, 1);
    assert!(!e.process_terminated);
    e.stop();
    assert_eq!(e.is_running, 0);
    assert!(e.process_terminated);
}

#[test]
fn call_log_entries_hold_their_fields() {
    let entry = ApiCallLogEntry { pos: 3, from: 0x401000, to: 0x7ff0_0000, name: "kernel32!Sleep".to_string() };
    let copy = entry.clone();
    assert_eq!(copy.pos, 3);
    assert_eq!(copy.from, 0x401000);
    assert_eq!(copy.to, 0x7ff0_0000);
    assert_eq!(copy.name, "kernel32!Sleep");
}

#[test]
fn pe32_input_with_x64_requested_is_refused() {
    assert_eq!(
        Emu::pe32_x64_mismatch_error(Some(IMAGE_FILE_MACHINE_I386), true),
        Some("input binary is PE32/x86, but -6 requests x86_64 emulation")
    );
    assert_eq!(Emu::pe32_x64_mismatch_error(Some(IMAGE_FILE_MACHINE_I386), false), None);
    assert_eq!(Emu::pe32_x64_mismatch_error(Some(0x8664), true), None);
    assert_eq!(Emu::pe32_x64_mismatch_error(None, true), None);
    assert_eq!(IMAGE_FILE_MACHINE_I386, 0x14c);
}
