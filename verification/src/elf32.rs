//! 32-bit little-endian ELF images: identification, header parsing, the
//! bounded program/section-header walks and segment loading.

use vstd::prelude::*;
use crate::bytes::{le_u16, le_u32, read_u16_le, read_u32_le};
use crate::elf::{perm_bits, ElfCall, ElfError, ElfLoader, Perm, PERM_EXECUTE, PERM_READ, PERM_WRITE};
use crate::text::{decimal, push_decimal, string_from_chars};

verus! {

/// Loadable segment.
pub const PT_LOAD: u32 = 1;

/// Dynamic-linking segment: its presence marks a position-independent image.
pub const PT_DYNAMIC: u32 = 2;

/// Where a dynamic (PIE) ELF32 image is placed, so nothing lands at 0.
pub const ELF32_DYN_BASE: u64 = 0x56555000;

pub const ELFMAG0: u8 = 0x7f;

/// `E`
pub const ELFMAG1: u8 = 0x45;

/// `L`
pub const ELFMAG2: u8 = 0x4c;

/// `F`
pub const ELFMAG3: u8 = 0x46;

pub const EV_CURRENT: u8 = 1;

pub const ELFDATA2LSB: u8 = 1;

pub const EI_NIDENT: usize = 16;

pub const ELFCLASS32: u8 = 0x01;

/// Upper bound on program-header entries that are walked.
pub const MAX_PHDR_ENTRIES: usize = 0x10_000;

/// Upper bound on section-header entries that are walked.
pub const MAX_SHDR_ENTRIES: usize = 0x10_000;

/// Bytes of an ELF32 file header.
pub const ELF32_EHDR_SIZE: usize = 52;

/// Bytes of one ELF32 program header (the size of [`Elf32Phdr`]).
pub const ELF32_PHDR_SIZE: usize = 32;

/// Bytes of one ELF32 section header (the size of [`Elf32Shdr`]).
pub const ELF32_SHDR_SIZE: usize = 40;

#[derive(Debug)]
pub struct Elf32Ehdr {
    pub e_ident: [u8; 16],
    pub e_type: u16,
    pub e_machine: u16,
    pub e_version: u32,
    pub e_entry: u32,
    pub e_phoff: u32,
    pub e_shoff: u32,
    pub e_flags: u32,
    pub e_ehsize: u16,
    pub e_phentsize: u16,
    pub e_phnum: u16,
    pub e_shentsize: u16,
    pub e_shnum: u16,
    pub e_shstrndx: u16,
}

#[derive(Debug, Clone, Copy)]
pub struct Elf32Phdr {
    pub p_type: u32,
    pub p_offset: u32,
    pub p_vaddr: u32,
    pub p_paddr: u32,
    pub p_filesz: u32,
    pub p_memsz: u32,
    pub p_flags: u32,
    pub p_align: u32,
}

#[derive(Debug, Clone, Copy)]
pub struct Elf32Shdr {
    pub sh_name: u32,
    pub sh_type: u32,
    pub sh_flags: u32,
    pub sh_addr: u32,
    pub sh_offset: u32,
    pub sh_size: u32,
    pub sh_link: u32,
    pub sh_info: u32,
    pub sh_addralign: u32,
    pub sh_entsize: u32,
}

#[derive(Debug)]
pub struct Elf32 {
    pub bin: Vec<u8>,
    pub elf_hdr: Elf32Ehdr,
    pub elf_phdr: Vec<Elf32Phdr>,
    pub elf_shdr: Vec<Elf32Shdr>,
    pub base: u64,
}

/// A well-formed ELF32 identification: a whole header, the magic,
/// `ELFCLASS32`, little-endian data and the current version.
pub open spec fn ident_ok(bin: Seq<u8>) -> bool {
    &&& bin.len() >= ELF32_EHDR_SIZE
    &&& bin[0] == ELFMAG0 && bin[1] == ELFMAG1 && bin[2] == ELFMAG2 && bin[3] == ELFMAG3
    &&& bin[4] == ELFCLASS32
    &&& bin[5] == ELFDATA2LSB
    &&& bin[6] == EV_CURRENT
}

/// The message of the first identification check that `bin` fails.
pub open spec fn ident_message(bin: Seq<u8>) -> Seq<char> {
    if bin.len() < ELF32_EHDR_SIZE {
        "elf32 image too small for its header (need 52 bytes)"@
    } else if !(bin[0] == ELFMAG0 && bin[1] == ELFMAG1 && bin[2] == ELFMAG2 && bin[3] == ELFMAG3) {
        "e_ident magic mismatch"@
    } else if bin[4] != ELFCLASS32 {
        "e_ident EI_CLASS is not ELFCLASS32"@
    } else if bin[5] != ELFDATA2LSB {
        "rs-header only parses ELFDATA2LSB images (e_ident EI_DATA != 1)"@
    } else {
        "e_ident EI_VERSION is not EV_CURRENT"@
    }
}

/// The file header that the first 52 bytes of `bin` encode.
pub open spec fn ehdr_matches(h: Elf32Ehdr, bin: Seq<u8>) -> bool {
    &&& h.e_ident@ == bin.subrange(0, 16)
    &&& h.e_type == le_u16(bin, 16)
    &&& h.e_machine == le_u16(bin, 18)
    &&& h.e_version == le_u32(bin, 20)
    &&& h.e_entry == le_u32(bin, 24)
    &&& h.e_phoff == le_u32(bin, 28)
    &&& h.e_shoff == le_u32(bin, 32)
    &&& h.e_flags == le_u32(bin, 36)
    &&& h.e_ehsize == le_u16(bin, 40)
    &&& h.e_phentsize == le_u16(bin, 42)
    &&& h.e_phnum == le_u16(bin, 44)
    &&& h.e_shentsize == le_u16(bin, 46)
    &&& h.e_shnum == le_u16(bin, 48)
    &&& h.e_shstrndx == le_u16(bin, 50)
}

/// The program header at `off`.
pub open spec fn phdr_at(bin: Seq<u8>, off: int) -> Elf32Phdr {
    Elf32Phdr {
        p_type: le_u32(bin, off),
        p_offset: le_u32(bin, off + 4),
        p_vaddr: le_u32(bin, off + 8),
        p_paddr: le_u32(bin, off + 12),
        p_filesz: le_u32(bin, off + 16),
        p_memsz: le_u32(bin, off + 20),
        p_flags: le_u32(bin, off + 24),
        p_align: le_u32(bin, off + 28),
    }
}

/// The section header at `off`.
pub open spec fn shdr_at(bin: Seq<u8>, off: int) -> Elf32Shdr {
    Elf32Shdr {
        sh_name: le_u32(bin, off),
        sh_type: le_u32(bin, off + 4),
        sh_flags: le_u32(bin, off + 8),
        sh_addr: le_u32(bin, off + 12),
        sh_offset: le_u32(bin, off + 16),
        sh_size: le_u32(bin, off + 20),
        sh_link: le_u32(bin, off + 24),
        sh_info: le_u32(bin, off + 28),
        sh_addralign: le_u32(bin, off + 32),
        sh_entsize: le_u32(bin, off + 36),
    }
}

/// True when a table of `num` entries of `ent` bytes at `off` overruns the
/// address width or an image of `len` bytes.
pub open spec fn table_overruns(off: int, num: int, ent: int, len: int) -> bool {
    num * ent > usize::MAX || off + num * ent > usize::MAX || off + num * ent > len
}

/// Whether a header table is walked: its entries are at least `min_ent`
/// bytes, it has at most `max_num` of them, and a table at a non-zero
/// offset fits in the image (a table at offset 0 is not checked).
pub open spec fn table_walked(off: int, num: int, ent: int, len: int, min_ent: int, max_num: int) -> bool {
    &&& ent >= min_ent
    &&& num <= max_num
    &&& !(off != 0 && table_overruns(off, num, ent, len))
}

/// A walked table's entries can all be read (only in doubt at offset 0).
pub open spec fn table_readable(off: int, num: int, ent: int, len: int, min_ent: int) -> bool {
    num == 0 || off + (num - 1) * ent + min_ent <= len
}

pub open spec fn phdr_table(bin: Seq<u8>, off: int, num: int, ent: int) -> Seq<Elf32Phdr> {
    Seq::new(num as nat, |k: int| phdr_at(bin, off + k * ent))
}

pub open spec fn shdr_table(bin: Seq<u8>, off: int, num: int, ent: int) -> Seq<Elf32Shdr> {
    Seq::new(num as nat, |k: int| shdr_at(bin, off + k * ent))
}

pub open spec fn phdrs_walked(e: Elf32) -> bool {
    table_walked(
        e.elf_hdr.e_phoff as int,
        e.elf_hdr.e_phnum as int,
        e.elf_hdr.e_phentsize as int,
        e.bin@.len() as int,
        ELF32_PHDR_SIZE as int,
        MAX_PHDR_ENTRIES as int,
    )
}

pub open spec fn shdrs_walked(e: Elf32) -> bool {
    table_walked(
        e.elf_hdr.e_shoff as int,
        e.elf_hdr.e_shnum as int,
        e.elf_hdr.e_shentsize as int,
        e.bin@.len() as int,
        ELF32_SHDR_SIZE as int,
        MAX_SHDR_ENTRIES as int,
    )
}

/// The program headers `load` reads.
pub open spec fn loaded_phdrs(e: Elf32) -> Seq<Elf32Phdr> {
    if phdrs_walked(e) {
        phdr_table(e.bin@, e.elf_hdr.e_phoff as int, e.elf_hdr.e_phnum as int, e.elf_hdr.e_phentsize as int)
    } else {
        Seq::empty()
    }
}

/// The section headers `load` reads.
pub open spec fn loaded_shdrs(e: Elf32) -> Seq<Elf32Shdr> {
    if shdrs_walked(e) {
        shdr_table(e.bin@, e.elf_hdr.e_shoff as int, e.elf_hdr.e_shnum as int, e.elf_hdr.e_shentsize as int)
    } else {
        Seq::empty()
    }
}

pub open spec fn has_dynamic(phdrs: Seq<Elf32Phdr>) -> bool {
    exists|i: int| 0 <= i < phdrs.len() && (#[trigger] phdrs[i]).p_type == PT_DYNAMIC
}

/// The name the `k`-th loaded segment is mapped under: `elf32_seg` and
/// `k` in decimal.
pub open spec fn segment_name(k: nat) -> Seq<char> {
    seq!['e', 'l', 'f', '3', '2', '_', 's', 'e', 'g'] + decimal(k)
}

/// How many of the first `n` program headers are `PT_LOAD`.
pub open spec fn loads_before(phdrs: Seq<Elf32Phdr>, n: int) -> nat
    decreases n,
{
    if n <= 0 {
        0
    } else {
        loads_before(phdrs, n - 1) + if phdrs[n - 1].p_type == PT_LOAD {
            1nat
        } else {
            0nat
        }
    }
}

/// The permission bits a segment is mapped with (ELF `p_flags` R=4, W=2,
/// X=1).
pub open spec fn segment_perm(p: Elf32Phdr) -> u8 {
    perm_bits(p.p_flags & 4 != 0, p.p_flags & 2 != 0, p.p_flags & 1 != 0)
}

/// The file image written into a mapped segment: the image bytes from
/// `p_offset` on, `p_filesz` of them but no further than the image's end;
/// none when that is empty.
pub open spec fn segment_data(bin: Seq<u8>, p: Elf32Phdr) -> Option<Seq<u8>> {
    let off = p.p_offset as usize as int;
    let e0 = off + p.p_filesz as usize as int;
    let e1 = if e0 > usize::MAX {
        usize::MAX as int
    } else {
        e0
    };
    let end = if e1 > bin.len() {
        bin.len() as int
    } else {
        e1
    };
    if off < bin.len() && end > off {
        Some(bin.subrange(off, end))
    } else {
        None
    }
}

/// The loader calls for program header `i`, the loader having answered
/// `r` (where the map landed, whether the write succeeded): a `PT_LOAD`
/// segment is mapped at `p_vaddr + base` with `p_memsz` bytes, and, where
/// it landed, its file image is written.
pub open spec fn segment_step(bin: Seq<u8>, phdrs: Seq<Elf32Phdr>, base: u64, i: int, r: (Option<u64>, bool)) -> Seq<
    ElfCall,
> {
    let p = phdrs[i];
    if p.p_type == PT_LOAD {
        let map = ElfCall::MapRegion {
            name: segment_name(loads_before(phdrs, i)),
            addr: (p.p_vaddr as u64 + base) as u64,
            size: p.p_memsz as u64,
            perm: segment_perm(p),
            at: r.0,
        };
        seq![map] + match (r.0, segment_data(bin, p)) {
            (Some(a), Some(d)) => seq![ElfCall::WriteBytes { addr: a, data: d, ok: r.1 }],
            _ => Seq::empty(),
        }
    } else {
        Seq::empty()
    }
}

/// The loader calls for the first `res.len()` program headers, `res[i]`
/// being the loader's answers for header `i`.
pub open spec fn segment_calls(bin: Seq<u8>, phdrs: Seq<Elf32Phdr>, base: u64, res: Seq<(Option<u64>, bool)>) -> Seq<
    ElfCall,
>
    decreases res.len(),
{
    if res.len() == 0 {
        Seq::empty()
    } else {
        segment_calls(bin, phdrs, base, res.drop_last()) + segment_step(
            bin,
            phdrs,
            base,
            res.len() - 1,
            res.last(),
        )
    }
}

/// `load` reads no header beyond the image: a table at offset 0 is walked
/// unchecked, so its entries must fit.
pub open spec fn load_in_bounds(e: Elf32) -> bool {
    &&& phdrs_walked(e) ==> table_readable(
        e.elf_hdr.e_phoff as int,
        e.elf_hdr.e_phnum as int,
        e.elf_hdr.e_phentsize as int,
        e.bin@.len() as int,
        ELF32_PHDR_SIZE as int,
    )
    &&& shdrs_walked(e) ==> table_readable(
        e.elf_hdr.e_shoff as int,
        e.elf_hdr.e_shnum as int,
        e.elf_hdr.e_shentsize as int,
        e.bin@.len() as int,
        ELF32_SHDR_SIZE as int,
    )
}

proof fn lemma_mul_le(k: int, n: int, e: int)
    requires
        0 <= k <= n,
        0 <= e,
    ensures
        k * e <= n * e,
{
    assert(k * e <= n * e) by (nonlinear_arith)
        requires
            0 <= k <= n,
            0 <= e,
    ;
}

proof fn lemma_mul_succ(k: int, e: int)
    ensures
        (k + 1) * e == k * e + e,
{
    assert((k + 1) * e == k * e + e) by (nonlinear_arith);
}

/// Check the ELF32 identification bytes of `bin`.
fn check_elf32_ident(bin: &[u8]) -> (r: Result<(), ElfError>)
    ensures
        match r {
            Ok(()) => ident_ok(bin@),
            Err(e) => !ident_ok(bin@) && e.message@ == ident_message(bin@),
        },
{
    if bin.len() < ELF32_EHDR_SIZE {
        return Err(ElfError::new("elf32 image too small for its header (need 52 bytes)"));
    }
    if bin[0] != ELFMAG0 || bin[1] != ELFMAG1 || bin[2] != ELFMAG2 || bin[3] != ELFMAG3 {
        return Err(ElfError::new("e_ident magic mismatch"));
    }
    if bin[4] != ELFCLASS32 {
        return Err(ElfError::new("e_ident EI_CLASS is not ELFCLASS32"));
    }
    if bin[5] != ELFDATA2LSB {
        return Err(
            ElfError::new("rs-header only parses ELFDATA2LSB images (e_ident EI_DATA != 1)"),
        );
    }
    if bin[6] != EV_CURRENT {
        return Err(ElfError::new("e_ident EI_VERSION is not EV_CURRENT"));
    }
    Ok(())
}

/// True when a table of `num` entries of `ent` bytes at `off` overruns the
/// address width or an image of `len` bytes.
fn overruns(off: usize, num: usize, ent: usize, len: usize) -> (r: bool)
    ensures
        r == table_overruns(off as int, num as int, ent as int, len as int),
{
    match num.checked_mul(ent) {
        None => true,
        Some(b) => match off.checked_add(b) {
            None => true,
            Some(end) => end > len,
        },
    }
}

impl Elf32 {
    /// Parse an ELF32 image from its raw bytes: its identification is
    /// checked and its file header decoded; program and section headers are
    /// walked later, by [`Elf32::load`].
    pub fn parse(raw: &[u8]) -> (r: Result<Elf32, ElfError>)
        ensures
            match r {
                Ok(e) => {
                    &&& ident_ok(raw@)
                    &&& e.bin@ == raw@
                    &&& ehdr_matches(e.elf_hdr, raw@)
                    &&& e.elf_phdr@.len() == 0
                    &&& e.elf_shdr@.len() == 0
                    &&& e.base == 0
                },
                Err(err) => !ident_ok(raw@) && err.message@ == ident_message(raw@),
            },
    {
        match check_elf32_ident(raw) {
            Err(e) => Err(e),
            Ok(()) => {
                let bin = vstd::slice::slice_to_vec(raw);
                let ehdr = Elf32Ehdr::parse(bin.as_slice());
                Ok(Elf32 { bin, elf_hdr: ehdr, elf_phdr: Vec::new(), elf_shdr: Vec::new(), base: 0 })
            },
        }
    }

    /// True when a `PT_DYNAMIC` program header has been read.
    pub fn is_dynamic(&self) -> (r: bool)
        ensures
            r == has_dynamic(self.elf_phdr@),
    {
        let mut i: usize = 0;
        while i < self.elf_phdr.len()
            invariant
                i <= self.elf_phdr@.len(),
                forall|j: int| 0 <= j < i ==> (#[trigger] self.elf_phdr@[j]).p_type != PT_DYNAMIC,
            decreases self.elf_phdr@.len() - i,
        {
            if self.elf_phdr[i].p_type == PT_DYNAMIC {
                return true;
            }
            i = i + 1;
        }
        false
    }

    /// The base address used when loading (set by [`Elf32::load`]).
    pub fn base(&self) -> (r: u64)
        ensures
            r == self.base,
    {
        self.base
    }

    /// Walk the program and section headers (each table only when its
    /// entry size is large enough, it has at most 0x10000 entries and, at a
    /// non-zero offset, it fits in the image), pick the base (the dynamic
    /// base when a `PT_DYNAMIC` header is present, else 0) and map every
    /// `PT_LOAD` segment through `loader`, writing the part of its file
    /// image that lies in the file.
    pub fn load<L: ElfLoader>(&mut self, loader: &mut L)
        requires
            load_in_bounds(*old(self)),
        ensures
            final(self).bin@ == old(self).bin@,
            final(self).elf_hdr == old(self).elf_hdr,
            final(self).elf_phdr@ == old(self).elf_phdr@ + loaded_phdrs(*old(self)),
            final(self).elf_shdr@ == old(self).elf_shdr@ + loaded_shdrs(*old(self)),
            final(self).base == if has_dynamic(final(self).elf_phdr@) {
                ELF32_DYN_BASE
            } else {
                0
            },
            exists|res: Seq<(Option<u64>, bool)>|
                res.len() == final(self).elf_phdr@.len() && final(loader).calls() == old(loader).calls()
                    + #[trigger] segment_calls(final(self).bin@, final(self).elf_phdr@, final(self).base, res),
    {
        let ghost bin = self.bin@;
        let ghost old_ph = self.elf_phdr@;
        let ghost old_sh = self.elf_shdr@;
        // Program headers: a bounded walk.
        let phent_sz = self.elf_hdr.e_phentsize as usize;
        let phoff = self.elf_hdr.e_phoff as usize;
        let phnum = self.elf_hdr.e_phnum as usize;
        if phent_sz >= ELF32_PHDR_SIZE && phnum <= MAX_PHDR_ENTRIES && !(phoff != 0 && overruns(
            phoff,
            phnum,
            phent_sz,
            self.bin.len(),
        )) {
            assert(phdrs_walked(*old(self)));
            let mut off = phoff;
            let mut k: usize = 0;
            proof {
                lemma_mul_le(phnum as int, 0x10000, phent_sz as int);
                lemma_mul_le(phent_sz as int, 0xffff, 0x10000);
            }
            assert(phdr_table(bin, phoff as int, 0, phent_sz as int) =~= Seq::<Elf32Phdr>::empty());
            while k < phnum
                invariant
                    bin == self.bin@,
                    self.elf_hdr == old(self).elf_hdr,
                    self.elf_shdr@ == old_sh,
                    phent_sz >= ELF32_PHDR_SIZE,
                    phnum <= MAX_PHDR_ENTRIES,
                    phnum * phent_sz <= 0x10000 * 0xffff,
                    !(phoff != 0 && table_overruns(phoff as int, phnum as int, phent_sz as int, bin.len() as int)),
                    phoff == 0 ==> table_readable(0, phnum as int, phent_sz as int, bin.len() as int, ELF32_PHDR_SIZE as int),
                    k <= phnum,
                    off == phoff + k * phent_sz,
                    self.elf_phdr@ == old_ph + phdr_table(bin, phoff as int, k as int, phent_sz as int),
                decreases phnum - k,
            {
                proof {
                    lemma_mul_succ(k as int, phent_sz as int);
                    lemma_mul_le(k as int + 1, phnum as int, phent_sz as int);
                    lemma_mul_le(k as int, phnum as int - 1, phent_sz as int);
                }
                let ph = Elf32Phdr::parse(self.bin.as_slice(), off);
                self.elf_phdr.push(ph);
                assert(phdr_table(bin, phoff as int, k + 1, phent_sz as int) =~= phdr_table(
                    bin,
                    phoff as int,
                    k as int,
                    phent_sz as int,
                ).push(ph));
                off = off + phent_sz;
                k = k + 1;
            }
        }
        assert(self.elf_phdr@ =~= old_ph + loaded_phdrs(*old(self)));
        let ghost mid_ph = self.elf_phdr@;
        // Section headers: a bounded walk.
        let shent_sz = self.elf_hdr.e_shentsize as usize;
        let shoff = self.elf_hdr.e_shoff as usize;
        let shnum = self.elf_hdr.e_shnum as usize;
        if shent_sz >= ELF32_SHDR_SIZE && shnum <= MAX_SHDR_ENTRIES && !(shoff != 0 && overruns(
            shoff,
            shnum,
            shent_sz,
            self.bin.len(),
        )) {
            assert(shdrs_walked(*old(self)));
            let mut off = shoff;
            let mut k: usize = 0;
            proof {
                lemma_mul_le(shnum as int, 0x10000, shent_sz as int);
                lemma_mul_le(shent_sz as int, 0xffff, 0x10000);
            }
            assert(shdr_table(bin, shoff as int, 0, shent_sz as int) =~= Seq::<Elf32Shdr>::empty());
            while k < shnum
                invariant
                    bin == self.bin@,
                    self.elf_hdr == old(self).elf_hdr,
                    self.elf_phdr@ == mid_ph,
                    shent_sz >= ELF32_SHDR_SIZE,
                    shnum <= MAX_SHDR_ENTRIES,
                    shnum * shent_sz <= 0x10000 * 0xffff,
                    !(shoff != 0 && table_overruns(shoff as int, shnum as int, shent_sz as int, bin.len() as int)),
                    shoff == 0 ==> table_readable(0, shnum as int, shent_sz as int, bin.len() as int, ELF32_SHDR_SIZE as int),
                    k <= shnum,
                    off == shoff + k * shent_sz,
                    self.elf_shdr@ == old_sh + shdr_table(bin, shoff as int, k as int, shent_sz as int),
                decreases shnum - k,
            {
                proof {
                    lemma_mul_succ(k as int, shent_sz as int);
                    lemma_mul_le(k as int + 1, shnum as int, shent_sz as int);
                    lemma_mul_le(k as int, shnum as int - 1, shent_sz as int);
                }
                let sh = Elf32Shdr::parse(self.bin.as_slice(), off);
                self.elf_shdr.push(sh);
                assert(shdr_table(bin, shoff as int, k + 1, shent_sz as int) =~= shdr_table(
                    bin,
                    shoff as int,
                    k as int,
                    shent_sz as int,
                ).push(sh));
                off = off + shent_sz;
                k = k + 1;
            }
        }
        assert(self.elf_shdr@ =~= old_sh + loaded_shdrs(*old(self)));
        // Dynamic/PIE images have segments from vaddr 0: rebase them.
        let base: u64 = if self.is_dynamic() {
            ELF32_DYN_BASE
        } else {
            0
        };
        self.base = base;
        let mut seg_idx: usize = 0;
        let mut i: usize = 0;
        let ghost mut res: Seq<(Option<u64>, bool)> = Seq::empty();
        assert(loader.calls() =~= old(loader).calls() + segment_calls(self.bin@, self.elf_phdr@, base, res));
        while i < self.elf_phdr.len()
            invariant
                seg_idx <= i <= self.elf_phdr@.len(),
                base <= ELF32_DYN_BASE,
                base == self.base,
                res.len() == i,
                seg_idx == loads_before(self.elf_phdr@, i as int),
                loader.calls() == old(loader).calls() + segment_calls(self.bin@, self.elf_phdr@, base, res),
            decreases self.elf_phdr@.len() - i,
        {
            let phdr = self.elf_phdr[i];
            let ghost calls_before = loader.calls();
            let ghost mut r: (Option<u64>, bool) = (None, false);
            if phdr.p_type == PT_LOAD {
                let vaddr = phdr.p_vaddr as u64 + base;
                // ELF p_flags (X=1, W=2, R=4) to permission bits (R=1, W=2, X=4).
                let elf_r = phdr.p_flags & 4 != 0;
                let elf_w = phdr.p_flags & 2 != 0;
                let elf_x = phdr.p_flags & 1 != 0;
                let final_perm = Perm::from_flags(elf_r, elf_w, elf_x);
                let mut name_chars: Vec<char> = vec!['e', 'l', 'f', '3', '2', '_', 's', 'e', 'g'];
                push_decimal(seg_idx as u64, &mut name_chars);
                assert(name_chars@ =~= segment_name(seg_idx as nat));
                let seg_name = string_from_chars(name_chars.as_slice());
                let mapped = loader.map(seg_name.as_str(), vaddr, phdr.p_memsz as u64, final_perm);
                proof {
                    r = (mapped, false);
                }
                let ghost after_map = loader.calls();
                seg_idx = seg_idx + 1;
                match mapped {
                    None => {},
                    Some(seg_addr) => {
                        // Only the part of the file image inside the file is
                        // written; the rest of the mapping stays zeroed.
                        let off = phdr.p_offset as usize;
                        let filesz = phdr.p_filesz as usize;
                        let mut end = off.saturating_add(filesz);
                        if end > self.bin.len() {
                            end = self.bin.len();
                        }
                        if off < self.bin.len() && end > off {
                            let data = vstd::slice::slice_subrange(self.bin.as_slice(), off, end);
                            let ok = loader.write_bytes(seg_addr, data);
                            proof {
                                r = (mapped, ok);
                            }
                        }
                    },
                }
                assert(loader.calls() =~= calls_before + segment_step(self.bin@, self.elf_phdr@, base, i as int, r));
            } else {
                assert(loader.calls() =~= calls_before + segment_step(self.bin@, self.elf_phdr@, base, i as int, r));
            }
            proof {
                let res2 = res.push(r);
                assert(res2.drop_last() =~= res);
                assert(loader.calls() =~= old(loader).calls() + segment_calls(self.bin@, self.elf_phdr@, base, res2));
                res = res2;
            }
            i = i + 1;
        }
    }

    /// True for an ELF32 image: the magic followed by `ELFCLASS32`.
    pub fn is_elf32(raw: &[u8]) -> (r: bool)
        ensures
            r == (raw@.len() >= 5 && raw@[0] == ELFMAG0 && raw@[1] == ELFMAG1 && raw@[2] == ELFMAG2
                && raw@[3] == ELFMAG3 && raw@[4] == ELFCLASS32),
    {
        raw.len() >= 5 && raw[0] == ELFMAG0 && raw[1] == ELFMAG1 && raw[2] == ELFMAG2 && raw[3]
            == ELFMAG3 && raw[4] == ELFCLASS32
    }
}

impl Elf32Ehdr {
    /// An all-zero file header.
    pub fn new() -> (h: Elf32Ehdr)
        ensures
            h.e_ident@ == Seq::new(16, |i: int| 0u8),
            h.e_type == 0 && h.e_machine == 0 && h.e_version == 0 && h.e_entry == 0,
            h.e_phoff == 0 && h.e_shoff == 0 && h.e_flags == 0 && h.e_ehsize == 0,
            h.e_phentsize == 0 && h.e_phnum == 0 && h.e_shentsize == 0 && h.e_shnum == 0,
            h.e_shstrndx == 0,
    {
        let h = Elf32Ehdr {
            e_ident: [0u8; 16],
            e_type: 0,
            e_machine: 0,
            e_version: 0,
            e_entry: 0,
            e_phoff: 0,
            e_shoff: 0,
            e_flags: 0,
            e_ehsize: 0,
            e_phentsize: 0,
            e_phnum: 0,
            e_shentsize: 0,
            e_shnum: 0,
            e_shstrndx: 0,
        };
        assert(h.e_ident@ =~= Seq::new(16, |i: int| 0u8));
        h
    }

    /// Decode the file header in the first 52 bytes of `bin`.
    pub fn parse(bin: &[u8]) -> (h: Elf32Ehdr)
        requires
            bin@.len() >= ELF32_EHDR_SIZE,
        ensures
            ehdr_matches(h, bin@),
    {
        let h = Elf32Ehdr {
            e_ident: [
                bin[0],
                bin[1],
                bin[2],
                bin[3],
                bin[4],
                bin[5],
                bin[6],
                bin[7],
                bin[8],
                bin[9],
                bin[10],
                bin[11],
                bin[12],
                bin[13],
                bin[14],
                bin[15],
            ],
            e_type: read_u16_le(bin, 16),
            e_machine: read_u16_le(bin, 18),
            e_version: read_u32_le(bin, 20),
            e_entry: read_u32_le(bin, 24),
            e_phoff: read_u32_le(bin, 28),
            e_shoff: read_u32_le(bin, 32),
            e_flags: read_u32_le(bin, 36),
            e_ehsize: read_u16_le(bin, 40),
            e_phentsize: read_u16_le(bin, 42),
            e_phnum: read_u16_le(bin, 44),
            e_shentsize: read_u16_le(bin, 46),
            e_shnum: read_u16_le(bin, 48),
            e_shstrndx: read_u16_le(bin, 50),
        };
        assert(h.e_ident@ =~= bin@.subrange(0, 16));
        h
    }
}

impl Elf32Phdr {
    /// Decode the program header at `phoff`.
    pub fn parse(bin: &[u8], phoff: usize) -> (h: Elf32Phdr)
        requires
            phoff + ELF32_PHDR_SIZE <= bin@.len(),
        ensures
            h == phdr_at(bin@, phoff as int),
    {
        let _len = bin.len();
        Elf32Phdr {
            p_type: read_u32_le(bin, phoff),
            p_offset: read_u32_le(bin, phoff + 4),
            p_vaddr: read_u32_le(bin, phoff + 8),
            p_paddr: read_u32_le(bin, phoff + 12),
            p_filesz: read_u32_le(bin, phoff + 16),
            p_memsz: read_u32_le(bin, phoff + 20),
            p_flags: read_u32_le(bin, phoff + 24),
            p_align: read_u32_le(bin, phoff + 28),
        }
    }
}

impl Elf32Shdr {
    /// Decode the section header at `shoff`.
    pub fn parse(bin: &[u8], shoff: usize) -> (h: Elf32Shdr)
        requires
            shoff + ELF32_SHDR_SIZE <= bin@.len(),
        ensures
            h == shdr_at(bin@, shoff as int),
    {
        let _len = bin.len();
        Elf32Shdr {
            sh_name: read_u32_le(bin, shoff),
            sh_type: read_u32_le(bin, shoff + 4),
            sh_flags: read_u32_le(bin, shoff + 8),
            sh_addr: read_u32_le(bin, shoff + 12),
            sh_offset: read_u32_le(bin, shoff + 16),
            sh_size: read_u32_le(bin, shoff + 20),
            sh_link: read_u32_le(bin, shoff + 24),
            sh_info: read_u32_le(bin, shoff + 28),
            sh_addralign: read_u32_le(bin, shoff + 32),
            sh_entsize: read_u32_le(bin, shoff + 36),
        }
    }
}

/// An image that `Elf32::parse` accepts is one that the byte-level
/// detector `Elf32::is_elf32` recognises.
pub proof fn law_parsed_image_is_elf32(raw: Seq<u8>)
    requires
        ident_ok(raw),
    ensures
        raw.len() >= 5 && raw[0] == ELFMAG0 && raw[1] == ELFMAG1 && raw[2] == ELFMAG2 && raw[3]
            == ELFMAG3 && raw[4] == ELFCLASS32,
{
}


/// Each permission bit of a mapping is set exactly when asked for.
pub proof fn lemma_perm_bits_set(read: bool, write: bool, execute: bool)
    by (bit_vector)
    ensures
        (perm_bits(read, write, execute) & 1u8 != 0) == read,
        (perm_bits(read, write, execute) & 2u8 != 0) == write,
        (perm_bits(read, write, execute) & 4u8 != 0) == execute,
{
}

/// `load` maps each `PT_LOAD` segment readable exactly when its `p_flags`
/// hold `PF_R` (4), writable exactly when they hold `PF_W` (2), and
/// executable exactly when they hold `PF_X` (1): its map request (the
/// first call it makes) carries those permission bits.
pub proof fn law_segments_mapped_with_their_flags(
    bin: Seq<u8>,
    phdrs: Seq<Elf32Phdr>,
    base: u64,
    i: int,
    r: (Option<u64>, bool),
)
    requires
        0 <= i < phdrs.len(),
        phdrs[i].p_type == PT_LOAD,
    ensures
        segment_step(bin, phdrs, base, i, r).len() > 0,
        segment_step(bin, phdrs, base, i, r)[0] matches ElfCall::MapRegion { perm, addr, size, .. } && {
            &&& (perm & PERM_READ != 0) == (phdrs[i].p_flags & 4 != 0)
            &&& (perm & PERM_WRITE != 0) == (phdrs[i].p_flags & 2 != 0)
            &&& (perm & PERM_EXECUTE != 0) == (phdrs[i].p_flags & 1 != 0)
            &&& addr == (phdrs[i].p_vaddr + base) as u64
            &&& size == phdrs[i].p_memsz
        },
{
    let p = phdrs[i];
    lemma_perm_bits_set(p.p_flags & 4 != 0, p.p_flags & 2 != 0, p.p_flags & 1 != 0);
}

} // verus!
