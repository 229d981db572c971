//! The parts of a 64-bit ELF image that relocatable-object loading reads:
//! the file header, section headers, symbols, `RELA` entries and the
//! section-name string table.

use std::collections::HashMap;
use vstd::prelude::*;
use crate::bytes::{c_string_at, le_u16, le_u32, le_u64, read_c_string, read_u16_le, read_u32_le, read_u64_le};

verus! {

pub const ELFCLASS64: u8 = 2;

/// Bytes of one symbol-table entry.
pub const ELF64_SYM_SIZE: usize = 24;

/// Bytes of one `RELA` entry.
pub const ELF64_RELA_SIZE: usize = 24;

#[derive(Debug)]
pub struct Elf64Ehdr {
    pub e_ident: [u8; 16],
    pub e_type: u16,
    pub e_machine: u16,
    pub e_version: u32,
    pub e_entry: u64,
    pub e_phoff: u64,
    pub e_shoff: u64,
    pub e_flags: u32,
    pub e_ehsize: u16,
    pub e_phentsize: u16,
    pub e_phnum: u16,
    pub e_shentsize: u16,
    pub e_shnum: u16,
    pub e_shstrndx: u16,
}

#[derive(Debug, Clone, Copy)]
pub struct Elf64Shdr {
    pub sh_name: u32,
    pub sh_type: u32,
    pub sh_flags: u64,
    pub sh_addr: u64,
    pub sh_offset: u64,
    pub sh_size: u64,
    pub sh_link: u32,
    pub sh_info: u32,
    pub sh_addralign: u64,
    pub sh_entsize: u64,
}

/// One symbol-table entry, with its name filled in from the string table.
#[derive(Debug, Clone)]
pub struct Elf64Sym {
    pub st_name: u32,
    pub st_info: u8,
    pub st_other: u8,
    pub st_shndx: u16,
    pub st_value: u64,
    pub st_size: u64,
    pub st_dynstr_name: String,
}

/// One relocation entry with an explicit addend.
#[derive(Debug, Clone, Copy)]
pub struct Elf64Rela {
    pub r_offset: u64,
    pub r_info: u64,
    pub r_addend: i64,
}

pub struct Elf64 {
    pub bin: Vec<u8>,
    pub elf_hdr: Elf64Ehdr,
    pub elf_shdr: Vec<Elf64Shdr>,
    pub base: u64,
    pub sym_to_addr: HashMap<String, u64>,
    pub addr_to_symbol: HashMap<u64, String>,
}

/// A symbol as plain values: its fields and its name.
pub ghost struct SymModel {
    pub st_name: u32,
    pub st_info: u8,
    pub st_other: u8,
    pub st_shndx: u16,
    pub st_value: u64,
    pub st_size: u64,
    pub name: Seq<char>,
}

pub open spec fn sym_model(s: Elf64Sym) -> SymModel {
    SymModel {
        st_name: s.st_name,
        st_info: s.st_info,
        st_other: s.st_other,
        st_shndx: s.st_shndx,
        st_value: s.st_value,
        st_size: s.st_size,
        name: s.st_dynstr_name@,
    }
}

/// The symbol entry at `off`, named `name`.
pub open spec fn sym_at(bin: Seq<u8>, off: int, name: Seq<char>) -> SymModel {
    SymModel {
        st_name: le_u32(bin, off),
        st_info: bin[off + 4],
        st_other: bin[off + 5],
        st_shndx: le_u16(bin, off + 6),
        st_value: le_u64(bin, off + 8),
        st_size: le_u64(bin, off + 16),
        name,
    }
}

/// The `RELA` entry at `off`.
pub open spec fn rela_at(bin: Seq<u8>, off: int) -> Elf64Rela {
    Elf64Rela {
        r_offset: le_u64(bin, off),
        r_info: le_u64(bin, off + 8),
        r_addend: le_u64(bin, off + 16) as i64,
    }
}

/// The NUL-terminated name at `off` of a string table; empty past its end.
pub open spec fn strtab_str(blob: Seq<u8>, off: int) -> Seq<char> {
    if off >= blob.len() {
        Seq::empty()
    } else {
        c_string_at(blob, off)
    }
}

/// `min(start + size, len)` with the sum saturating at the address width.
pub open spec fn clamped_end(start: int, size: int, len: int) -> int {
    let e = if start + size > usize::MAX {
        usize::MAX as int
    } else {
        start + size
    };
    if e > len {
        len
    } else {
        e
    }
}

/// The bytes of section `sh` that lie in the image.
pub open spec fn section_bytes(bin: Seq<u8>, sh: Elf64Shdr) -> Seq<u8> {
    let start = sh.sh_offset as usize as int;
    let end = clamped_end(start, sh.sh_size as usize as int, bin.len() as int);
    if end > start {
        bin.subrange(start, end)
    } else {
        Seq::empty()
    }
}

/// The section-name string table (empty when `e_shstrndx` is out of range).
pub open spec fn shstrtab(e: Elf64) -> Seq<u8> {
    if (e.elf_hdr.e_shstrndx as int) < e.elf_shdr@.len() {
        section_bytes(e.bin@, e.elf_shdr@[e.elf_hdr.e_shstrndx as int])
    } else {
        Seq::empty()
    }
}

pub open spec fn section_name(e: Elf64, off: int) -> Seq<char> {
    strtab_str(shstrtab(e), off)
}

/// The name at `off` of the string table `blob` (lossy UTF-8, up to the
/// first NUL or the table's end); empty when `off` is past the end.
pub fn strtab_name(blob: &[u8], off: usize) -> (s: String)
    ensures
        s@ == strtab_str(blob@, off as int),
{
    if off >= blob.len() {
        return String::new();
    }
    read_c_string(blob, off)
}

/// The bytes of section `sh` that lie in `bin`.
pub fn section_slice<'a>(bin: &'a [u8], sh: &Elf64Shdr) -> (r: &'a [u8])
    ensures
        r@ == section_bytes(bin@, *sh),
{
    let start = sh.sh_offset as usize;
    let mut end = start.saturating_add(sh.sh_size as usize);
    if end > bin.len() {
        end = bin.len();
    }
    if end > start {
        vstd::slice::slice_subrange(bin, start, end)
    } else {
        let e: &[u8] = &[];
        assert(e@ =~= Seq::<u8>::empty());
        e
    }
}

impl Elf64 {
    /// True for an ELF64 image: the magic followed by `ELFCLASS64`.
    pub fn is_elf64(raw: &[u8]) -> (r: bool)
        ensures
            r == (raw@.len() >= 5 && raw@[0] == 0x7f && raw@[1] == 0x45 && raw@[2] == 0x4c
                && raw@[3] == 0x46 && raw@[4] == ELFCLASS64),
    {
        raw.len() >= 5 && raw[0] == 0x7f && raw[1] == 0x45 && raw[2] == 0x4c && raw[3] == 0x46
            && raw[4] == ELFCLASS64
    }

    /// The name at `off` of the section-name string table.
    pub fn get_section_name(&self, off: usize) -> (s: String)
        ensures
            s@ == section_name(*self, off as int),
    {
        let idx = self.elf_hdr.e_shstrndx as usize;
        if idx < self.elf_shdr.len() {
            let table = section_slice(self.bin.as_slice(), &self.elf_shdr[idx]);
            strtab_name(table, off)
        } else {
            let e: &[u8] = &[];
            assert(e@ =~= Seq::<u8>::empty());
            strtab_name(e, off)
        }
    }
}

impl Elf64Sym {
    pub fn size() -> (r: usize)
        ensures
            r == ELF64_SYM_SIZE,
    {
        ELF64_SYM_SIZE
    }

    /// Decode the symbol entry at `off`; its name is left empty.
    pub fn parse(bin: &[u8], off: usize) -> (s: Elf64Sym)
        requires
            off + ELF64_SYM_SIZE <= bin@.len(),
        ensures
            sym_model(s) == sym_at(bin@, off as int, Seq::empty()),
    {
        let _len = bin.len();
        let s = Elf64Sym {
            st_name: read_u32_le(bin, off),
            st_info: bin[off + 4],
            st_other: bin[off + 5],
            st_shndx: read_u16_le(bin, off + 6),
            st_value: read_u64_le(bin, off + 8),
            st_size: read_u64_le(bin, off + 16),
            st_dynstr_name: String::new(),
        };
        s
    }

    /// The symbol type (low four bits of `st_info`).
    pub fn get_st_type(&self) -> (t: u8)
        ensures
            t == self.st_info & 0xf,
    {
        self.st_info & 0xf
    }
}

impl Elf64Rela {
    pub fn size() -> (r: usize)
        ensures
            r == ELF64_RELA_SIZE,
    {
        ELF64_RELA_SIZE
    }

    /// Decode the `RELA` entry at `off`.
    pub fn parse(bin: &[u8], off: usize) -> (r: Elf64Rela)
        requires
            off + ELF64_RELA_SIZE <= bin@.len(),
        ensures
            r == rela_at(bin@, off as int),
    {
        let _len = bin.len();
        Elf64Rela {
            r_offset: read_u64_le(bin, off),
            r_info: read_u64_le(bin, off + 8),
            r_addend: read_u64_le(bin, off + 16) as i64,
        }
    }

    /// The symbol index (high 32 bits of `r_info`).
    pub fn r_sym(&self) -> (s: u32)
        ensures
            s == (self.r_info >> 32) as u32,
    {
        (self.r_info >> 32) as u32
    }

    /// The relocation type (low 32 bits of `r_info`).
    pub fn r_type(&self) -> (t: u32)
        ensures
            t == (self.r_info & 0xffff_ffff) as u32,
    {
        (self.r_info & 0xffff_ffff) as u32
    }
}

} // verus!
