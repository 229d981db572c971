use std::collections::HashMap;

use mwemu_core::elf::{ElfLoader, Perm};
use mwemu_core::elf32::{Elf32, Elf32Ehdr, Elf32Phdr, ELF32_DYN_BASE};
use mwemu_core::elf64::{Elf64, Elf64Ehdr, Elf64Shdr};
use mwemu_core::relocatable::{aarch64_patch, x86_64_patch, RelocPatch};

/// Loader that maps where it is asked, and records maps and writes.
struct Mock {
    maps: Vec<(String, u64, u64, u8)>,
    mem: HashMap<u64, u8>,
    refuse: bool,
}

impl Mock {
    fn new() -> Self {
        Mock { maps: Vec::new(), mem: HashMap::new(), refuse: false }
    }
    fn dword(&self, addr: u64) -> u32 {
        let mut b = [0u8; 4];
        for i in 0..4 {
            b[i] = *self.mem.get(&(addr + i as u64)).unwrap_or(&0);
        }
        u32::from_le_bytes(b)
    }
    fn qword(&self, addr: u64) -> u64 {
        self.dword(addr) as u64 | ((self.dword(addr + 4) as u64) << 32)
    }
}

impl ElfLoader for Mock {
    fn map(&mut self, name: &str, addr: u64, size: u64, perm: Perm) -> Option<u64> {
        if self.refuse {
            return None;
        }
        self.maps.push((name.to_string(), addr, size, perm.bits));
        Some(addr)
    }
    fn write_bytes(&mut self, addr: u64, data: &[u8]) -> bool {
        for (i, b) in data.iter().enumerate() {
            self.mem.insert(addr + i as u64, *b);
        }
        true
    }
    fn write_qword(&mut self, addr: u64, val: u64) -> bool {
        self.write_bytes(addr, &val.to_le_bytes())
    }
    fn read_qword(&self, addr: u64) -> Option<u64> {
        Some(self.qword(addr))
    }
}

fn put16(raw: &mut [u8], off: usize, v: u16) {
    raw[off..off + 2].copy_from_slice(&v.to_le_bytes());
}
fn put32(raw: &mut [u8], off: usize, v: u32) {
    raw[off..off + 4].copy_from_slice(&v.to_le_bytes());
}
fn put64(raw: &mut [u8], off: usize, v: u64) {
    raw[off..off + 8].copy_from_slice(&v.to_le_bytes());
}

/// An ELF32 executable with one PT_LOAD segment (and optionally a
/// PT_DYNAMIC one) whose file image is the 16 bytes at 0x100.
fn elf32_image(dynamic: bool) -> Vec<u8> {
    let mut raw = vec![0u8; 0x200];
    raw[0..4].copy_from_slice(&[0x7f, b'E', b'L', b'F']);
    raw[4] = 1;
    raw[5] = 1;
    raw[6] = 1;
    put16(&mut raw, 16, 2);
    put16(&mut raw, 18, 3);
    put32(&mut raw, 24, 0x0804_8000);
    put32(&mut raw, 28, 52);
    put16(&mut raw, 42, 32);
    put16(&mut raw, 44, if dynamic { 2 } else { 1 });
    // PT_LOAD: offset 0x100, vaddr 0x08048000, filesz 0x10, memsz 0x40, R|X.
    let ph = 52;
    put32(&mut raw, ph, 1);
    put32(&mut raw, ph + 4, 0x100);
    put32(&mut raw, ph + 8, 0x0804_8000);
    put32(&mut raw, ph + 16, 0x10);
    put32(&mut raw, ph + 20, 0x40);
    put32(&mut raw, ph + 24, 5);
    if dynamic {
        put32(&mut raw, ph + 32, 2);
    }
    for i in 0..0x10 {
        raw[0x100 + i] = 0xa0 + i as u8;
    }
    raw
}

#[test]
fn elf32_parse_reads_the_header() {
    let raw = elf32_image(false);
    assert!(Elf32::is_elf32(&raw));
    let e = Elf32::parse(&raw).unwrap();
    assert_eq!(e.elf_hdr.e_type, 2);
    assert_eq!(e.elf_hdr.e_machine, 3);
    assert_eq!(e.elf_hdr.e_entry, 0x0804_8000);
    assert_eq!(e.elf_hdr.e_phoff, 52);
    assert_eq!(e.elf_hdr.e_phnum, 1);
    assert_eq!(&e.elf_hdr.e_ident[0..4], &[0x7f, b'E', b'L', b'F']);
    assert!(e.elf_phdr.is_empty());
    assert_eq!(e.base(), 0);
}

#[test]
fn elf32_parse_rejects_bad_identification() {
    let short = vec![0x7fu8, b'E', b'L', b'F', 1];
    assert_eq!(
        Elf32::parse(&short).unwrap_err().message,
        "elf32 image too small for its header (need 52 bytes)"
    );
    let mut raw = elf32_image(false);
    raw[1] = b'X';
    assert_eq!(Elf32::parse(&raw).unwrap_err().message, "e_ident magic mismatch");
    let mut raw = elf32_image(false);
    raw[4] = 2;
    assert_eq!(
        Elf32::parse(&raw).unwrap_err().message,
        "e_ident EI_CLASS is not ELFCLASS32"
    );
    assert!(!Elf32::is_elf32(&raw));
    let mut raw = elf32_image(false);
    raw[5] = 2;
    assert_eq!(
        Elf32::parse(&raw).unwrap_err().to_string(),
        "rs-header only parses ELFDATA2LSB images (e_ident EI_DATA != 1)"
    );
    let mut raw = elf32_image(false);
    raw[6] = 0;
    assert_eq!(
        Elf32::parse(&raw).unwrap_err().message,
        "e_ident EI_VERSION is not EV_CURRENT"
    );
}

#[test]
fn elf32_load_maps_segments() {
    let raw = elf32_image(false);
    let mut e = Elf32::parse(&raw).unwrap();
    let mut loader = Mock::new();
    e.load(&mut loader);
    assert_eq!(e.elf_phdr.len(), 1);
    assert!(!e.is_dynamic());
    assert_eq!(e.base(), 0);
    assert_eq!(loader.maps, vec![("elf32_seg0".to_string(), 0x0804_8000, 0x40, 5)]);
    assert_eq!(loader.dword(0x0804_8000), 0xa3a2a1a0);
    assert!(loader.mem.get(&0x0804_8010).is_none());
}

#[test]
fn elf32_dynamic_image_is_rebased() {
    let raw = elf32_image(true);
    let mut e = Elf32::parse(&raw).unwrap();
    let mut loader = Mock::new();
    e.load(&mut loader);
    assert!(e.is_dynamic());
    assert_eq!(e.base(), ELF32_DYN_BASE);
    assert_eq!(loader.maps[0].1, 0x0804_8000 + ELF32_DYN_BASE);
}

#[test]
fn elf32_table_past_the_image_is_not_walked() {
    let mut raw = elf32_image(false);
    put16(&mut raw, 44, 100);
    let mut e = Elf32::parse(&raw).unwrap();
    let mut loader = Mock::new();
    e.load(&mut loader);
    assert!(e.elf_phdr.is_empty());
    assert!(loader.maps.is_empty());
}

#[test]
fn elf32_header_parsers() {
    let h = Elf32Ehdr::new();
    assert_eq!(h.e_ident, [0u8; 16]);
    assert_eq!(h.e_phnum, 0);
    let raw = elf32_image(false);
    let ph = Elf32Phdr::parse(&raw, 52);
    assert_eq!(ph.p_type, 1);
    assert_eq!(ph.p_offset, 0x100);
    assert_eq!(ph.p_memsz, 0x40);
    assert_eq!(ph.p_flags, 5);
}

#[test]
fn perm_bits_follow_flags() {
    assert_eq!(Perm::from_flags(true, false, true).bits, 5);
    assert_eq!(Perm::from_flags(true, true, false).bits, 3);
    assert_eq!(Perm::from_flags(false, false, false).bits, 0);
}

// ---------------------------------------------------------------------
// Relocatable objects.

fn ehdr64(e_type: u16, machine: u16, shstrndx: u16) -> Elf64Ehdr {
    Elf64Ehdr {
        e_ident: [0x7f, b'E', b'L', b'F', 2, 1, 1, 0, 0, 0, 0, 0, 0, 0, 0, 0],
        e_type,
        e_machine: machine,
        e_version: 1,
        e_entry: 0,
        e_phoff: 0,
        e_shoff: 0,
        e_flags: 0,
        e_ehsize: 64,
        e_phentsize: 0,
        e_phnum: 0,
        e_shentsize: 64,
        e_shnum: 6,
        e_shstrndx: shstrndx,
    }
}

fn shdr(name: u32, sh_type: u32, flags: u64, offset: u64, size: u64, link: u32, info: u32, align: u64, entsize: u64) -> Elf64Shdr {
    Elf64Shdr {
        sh_name: name,
        sh_type,
        sh_flags: flags,
        sh_addr: 0,
        sh_offset: offset,
        sh_size: size,
        sh_link: link,
        sh_info: info,
        sh_addralign: align,
        sh_entsize: entsize,
    }
}

fn sym(raw: &mut [u8], off: usize, name: u32, info: u8, shndx: u16, value: u64, size: u64) {
    put32(raw, off, name);
    raw[off + 4] = info;
    put16(raw, off + 6, shndx);
    put64(raw, off + 8, value);
    put64(raw, off + 16, size);
}

fn rela(raw: &mut [u8], off: usize, offset: u64, symbol: u32, r_type: u32, addend: i64) {
    put64(raw, off, offset);
    put64(raw, off + 8, ((symbol as u64) << 32) | r_type as u64);
    put64(raw, off + 16, addend as u64);
}

/// A module with `.text` (16 bytes), `.bss`, a symbol table (null,
/// global function `init` at .text+4, undefined `printk`, section symbol)
/// and two x86_64 relocations against `.text`: PC32 to `printk - 4` at 0,
/// 64 to `init` at 8.
fn object(machine: u16) -> Elf64 {
    let mut bin = vec![0u8; 0x600];
    for i in 0..16 {
        bin[0x100 + i] = 0x90;
    }
    sym(&mut bin, 0x200, 0, 0, 0, 0, 0);
    sym(&mut bin, 0x218, 1, 0x12, 1, 4, 8);
    sym(&mut bin, 0x230, 6, 0x10, 0, 0, 0);
    sym(&mut bin, 0x248, 0, 0x03, 1, 0, 0);
    bin[0x300..0x300 + 14].copy_from_slice(b"\0init\0printk\0\0");
    rela(&mut bin, 0x400, 0, 2, 2, -4);
    rela(&mut bin, 0x418, 8, 1, 1, 0);
    bin[0x500..0x500 + 35].copy_from_slice(b"\0.text\0.bss\0.symtab\0.strtab\0.rela\0\0");
    let sections = vec![
        shdr(0, 0, 0, 0, 0, 0, 0, 0, 0),
        shdr(1, 1, 0x6, 0x100, 16, 0, 0, 16, 0),
        shdr(7, 8, 0x3, 0, 32, 0, 0, 64, 0),
        shdr(12, 2, 0, 0x200, 24 * 4, 4, 0, 8, 24),
        shdr(20, 3, 0, 0x300, 14, 0, 0, 1, 0),
        shdr(28, 4, 0, 0x400, 24 * 2, 3, 1, 8, 24),
    ];
    let mut all = sections;
    all.push(shdr(0, 3, 0, 0x500, 35, 0, 0, 1, 0));
    Elf64 {
        bin,
        elf_hdr: ehdr64(1, machine, 6),
        elf_shdr: all,
        base: 0,
        sym_to_addr: HashMap::new(),
        addr_to_symbol: HashMap::new(),
    }
}

#[test]
fn relocatable_object_is_placed_resolved_and_relocated() {
    let mut obj = object(62);
    assert!(obj.is_relocatable());
    let mut loader = Mock::new();
    let mut resolver = |name: &str| if name == "printk" { Some(0x9000_0000) } else { None };
    let placed = obj.load_relocatable(&mut loader, "mod", 0x10000, &mut resolver).unwrap();
    assert_eq!(placed.base, 0x10000);
    assert_eq!(placed.sections.len(), 2);
    assert_eq!(placed.sections[0].name, ".text");
    assert_eq!(placed.sections[0].addr, 0x10000);
    assert_eq!(placed.sections[0].perm.bits, 5);
    // .bss is aligned to 64 after .text ends at 0x10010.
    assert_eq!(placed.sections[1].name, ".bss");
    assert_eq!(placed.sections[1].addr, 0x10040);
    assert_eq!(placed.size, 0x60);
    assert_eq!(loader.maps[0].0, "mod.text");
    assert_eq!(placed.section(".bss").unwrap().index, 2);
    assert!(placed.section(".data").is_none());
    assert_eq!(obj.elf_shdr[1].sh_addr, 0x10000);
    assert_eq!(obj.elf_shdr[3].sh_addr, 0);
    // Symbols.
    assert_eq!(placed.symbol("init"), Some(0x10004));
    assert_eq!(placed.symbol("printk"), None);
    assert!(placed.symbols[0].is_func && placed.symbols[0].is_global);
    assert!(placed.unresolved.is_empty());
    assert_eq!(obj.addr_to_symbol.get(&0x9000_0000).map(|s| s.as_str()), Some("printk"));
    // Relocations: PC32 to printk - 4, and the absolute address of init.
    assert_eq!(loader.dword(0x10000), (0x9000_0000u64 - 4 - 0x10000) as u32);
    assert_eq!(loader.qword(0x10008), 0x10004);
    assert_eq!(placed.skipped_relocations, 0);
    assert_eq!(obj.base, 0x10000);
}

#[test]
fn declined_externals_are_reported_once_and_skip_their_relocations() {
    let mut obj = object(62);
    let mut loader = Mock::new();
    let mut asked = 0;
    let mut resolver = |_: &str| {
        asked += 1;
        None
    };
    let placed = obj.load_relocatable(&mut loader, "mod", 0x10000, &mut resolver).unwrap();
    assert_eq!(placed.unresolved, vec!["printk".to_string()]);
    assert_eq!(placed.skipped_relocations, 1);
    assert_eq!(asked, 1);
}

#[test]
fn relocatable_errors() {
    let mut obj = object(62);
    obj.elf_hdr.e_type = 2;
    let mut loader = Mock::new();
    let mut resolver = |_: &str| None;
    let err = obj.load_relocatable(&mut loader, "m", 0x1000, &mut resolver).unwrap_err();
    assert_eq!(err.message, "not an ET_REL object");

    let mut obj = object(62);
    let mut loader = Mock::new();
    loader.refuse = true;
    let err = obj.load_relocatable(&mut loader, "m", 0x1000, &mut resolver).unwrap_err();
    assert_eq!(err.message, "cannot map section .text");

    let mut obj = object(62);
    obj.elf_shdr[1].sh_size = 0x1000;
    let mut loader = Mock::new();
    let err = obj.load_relocatable(&mut loader, "m", 0x1000, &mut resolver).unwrap_err();
    assert_eq!(err.message, "section .text extends past end of object");

    let mut obj = object(62);
    obj.elf_shdr[3].sh_type = 1;
    let mut loader = Mock::new();
    let err = obj.load_relocatable(&mut loader, "m", 0x1000, &mut resolver).unwrap_err();
    assert_eq!(err.message, "object has no .symtab");
}

#[test]
fn symtab_names_and_section_symbols() {
    let obj = object(62);
    let syms = obj.parse_symtab().unwrap();
    assert_eq!(syms.len(), 4);
    assert_eq!(syms[1].st_dynstr_name, "init");
    assert_eq!(syms[2].st_dynstr_name, "printk");
    assert_eq!(syms[3].st_dynstr_name, "");
    assert_eq!(syms[1].get_st_type(), 2);
    assert_eq!(obj.get_section_name(1), ".text");
}

#[test]
fn relocatable_byte_detector() {
    let mut raw = vec![0u8; 64];
    raw[0..5].copy_from_slice(&[0x7f, b'E', b'L', b'F', 2]);
    raw[16] = 1;
    assert!(Elf64::is_elf64_relocatable(&raw));
    raw[16] = 2;
    assert!(!Elf64::is_elf64_relocatable(&raw));
    assert!(!Elf64::is_elf64_relocatable(&raw[0..10]));
}

#[test]
fn relocation_patches() {
    assert_eq!(x86_64_patch(0, 0x1000, 5, 0), RelocPatch::Keep);
    assert_eq!(x86_64_patch(1, 0x1000, 0x2000, -8), RelocPatch::Qword(0x1ff8));
    assert_eq!(x86_64_patch(24, 0x1000, 0x2000, 0), RelocPatch::Qword(0x1000));
    assert_eq!(x86_64_patch(2, 0x3000, 0x2000, 0), RelocPatch::Dword(0xffff_f000));
    assert_eq!(x86_64_patch(10, 0, 0x1_2345_6789, 0), RelocPatch::Dword(0x2345_6789));
    assert_eq!(x86_64_patch(99, 0, 0, 0), RelocPatch::Unsupported);
    // AArch64: a CALL26 four instructions ahead, and a page-relative ADRP.
    assert_eq!(
        aarch64_patch(283, 0x1000, 0x1010, 0),
        RelocPatch::Insn { bits: 4, mask: 0x03ff_ffff }
    );
    assert_eq!(
        aarch64_patch(275, 0x1000, 0x3456, 0),
        RelocPatch::Insn { bits: (2 & 3) << 29, mask: (3 << 29) | (0x7ffff << 5) }
    );
    assert_eq!(
        aarch64_patch(286, 0, 0x1238, 0),
        RelocPatch::Insn { bits: (0x238 >> 3) << 10, mask: 0xfff << 10 }
    );
    assert_eq!(aarch64_patch(1, 0, 0, 0), RelocPatch::Unsupported);
}

#[test]
fn aarch64_call_is_merged_into_the_instruction() {
    let mut obj = object(183);
    // Turn the PC32 relocation into a CALL26 and the 64 into ABS64.
    let mut bin = obj.bin.clone();
    put64(&mut bin, 0x408, (2u64 << 32) | 283);
    put64(&mut bin, 0x410, 0);
    put64(&mut bin, 0x420, (1u64 << 32) | 257);
    for i in 0..4 {
        bin[0x100 + i] = [0x00, 0x00, 0x00, 0x94][i];
    }
    obj.bin = bin;
    let mut loader = Mock::new();
    let mut resolver = |_: &str| Some(0x10000 + 0x40);
    let placed = obj.load_relocatable(&mut loader, "m", 0x10000, &mut resolver).unwrap();
    assert_eq!(placed.skipped_relocations, 0);
    // BL opcode kept; imm26 = 0x40 / 4.
    assert_eq!(loader.dword(0x10000), 0x9400_0010);
    assert_eq!(loader.qword(0x10008), 0x10004);
}
