//! Which loader a sample goes to, and where an ELF32 image starts: the
//! decisions taken when a file is loaded, apart from reading it.

use vstd::prelude::*;
use crate::elf32::{Elf32, ELFCLASS32, ELFMAG0, ELFMAG1, ELFMAG2, ELFMAG3};
use crate::emu::IMAGE_FILE_MACHINE_I386;

verus! {

/// COFF machine type of an x86-64 PE image.
pub const IMAGE_FILE_MACHINE_AMD64: u16 = 0x8664;

/// COFF machine type of an ARM64 PE image.
pub const IMAGE_FILE_MACHINE_ARM64: u16 = 0xAA64;

/// The loaders a sample can go to.
#[derive(Clone, Copy, Debug, PartialEq, Eq, Structural)]
pub enum LoadFormat {
    Elf32,
    Elf64Aarch64,
    Macho64Aarch64,
    Macho64X64,
    Elf64X64,
    Pe32,
    Pe64Arm64,
    Pe64X64,
    Shellcode,
}

/// What the format detectors that work outside the library said of the
/// sample: the ELF64 and Mach-O machine checks, and the COFF machine type
/// of a PE image (`None` when it is no PE).
#[derive(Clone, Copy, Debug)]
pub struct FormatProbe {
    pub elf64_aarch64: bool,
    pub macho64_aarch64: bool,
    pub macho64_x64: bool,
    pub elf64_x64: bool,
    pub pe_machine: Option<u16>,
}

/// The ELF magic followed by `ELFCLASS32`.
pub open spec fn elf32_magic(raw: Seq<u8>) -> bool {
    raw.len() >= 5 && raw[0] == ELFMAG0 && raw[1] == ELFMAG1 && raw[2] == ELFMAG2 && raw[3] == ELFMAG3
        && raw[4] == ELFCLASS32
}

/// The loader a sample goes to: unless it is forced to be shellcode, the
/// first format that matches in the order ELF32, ELF64 AArch64, Mach-O
/// AArch64, Mach-O x86-64, ELF64 x86-64, PE32 x86, PE64 ARM64, PE64
/// x86-64; shellcode otherwise.
pub open spec fn load_format(raw: Seq<u8>, shellcode: bool, probe: FormatProbe) -> LoadFormat {
    if shellcode {
        LoadFormat::Shellcode
    } else if elf32_magic(raw) {
        LoadFormat::Elf32
    } else if probe.elf64_aarch64 {
        LoadFormat::Elf64Aarch64
    } else if probe.macho64_aarch64 {
        LoadFormat::Macho64Aarch64
    } else if probe.macho64_x64 {
        LoadFormat::Macho64X64
    } else if probe.elf64_x64 {
        LoadFormat::Elf64X64
    } else if probe.pe_machine == Some(IMAGE_FILE_MACHINE_I386) {
        LoadFormat::Pe32
    } else if probe.pe_machine == Some(IMAGE_FILE_MACHINE_ARM64) {
        LoadFormat::Pe64Arm64
    } else if probe.pe_machine == Some(IMAGE_FILE_MACHINE_AMD64) {
        LoadFormat::Pe64X64
    } else {
        LoadFormat::Shellcode
    }
}

/// Choose the loader for a sample (see [`load_format`]).
pub fn plan_load(raw: &[u8], shellcode: bool, probe: &FormatProbe) -> (r: LoadFormat)
    ensures
        r == load_format(raw@, shellcode, *probe),
{
    if shellcode {
        LoadFormat::Shellcode
    } else if Elf32::is_elf32(raw) {
        LoadFormat::Elf32
    } else if probe.elf64_aarch64 {
        LoadFormat::Elf64Aarch64
    } else if probe.macho64_aarch64 {
        LoadFormat::Macho64Aarch64
    } else if probe.macho64_x64 {
        LoadFormat::Macho64X64
    } else if probe.elf64_x64 {
        LoadFormat::Elf64X64
    } else {
        match probe.pe_machine {
            Some(m) => if m == IMAGE_FILE_MACHINE_I386 {
                LoadFormat::Pe32
            } else if m == IMAGE_FILE_MACHINE_ARM64 {
                LoadFormat::Pe64Arm64
            } else if m == IMAGE_FILE_MACHINE_AMD64 {
                LoadFormat::Pe64X64
            } else {
                LoadFormat::Shellcode
            },
            None => LoadFormat::Shellcode,
        }
    }
}

/// Where an ELF32 image loaded at `base` starts: the configured entry
/// point when one was given (it differs from `default_entry`); otherwise
/// `e_entry`, moved by `base` when it lies below it (a position-independent
/// image's entry is relative to where it was loaded).
pub open spec fn elf32_entry_spec(e_entry: u32, base: u64, configured: u64, default_entry: u64) -> u64 {
    if configured != default_entry {
        configured
    } else if e_entry != 0 && e_entry < base {
        (e_entry + base) as u64
    } else {
        e_entry as u64
    }
}

/// The entry point of an ELF32 image loaded at `base` (see
/// [`elf32_entry_spec`]).
pub fn elf32_entry(e_entry: u32, base: u64, configured: u64, default_entry: u64) -> (r: u64)
    requires
        e_entry != 0 && e_entry < base ==> e_entry + base <= u64::MAX,
    ensures
        r == elf32_entry_spec(e_entry, base, configured, default_entry),
{
    if configured != default_entry {
        configured
    } else if e_entry != 0 && (e_entry as u64) < base {
        e_entry as u64 + base
    } else {
        e_entry as u64
    }
}

} // verus!
