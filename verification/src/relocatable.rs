//! Relocatable ELF64 objects (kernel modules, `.o` files): placing every
//! allocatable section contiguously, resolving the symbol table (external
//! symbols through a caller-supplied resolver) and applying the `RELA`
//! relocations for x86_64 and AArch64.

use vstd::prelude::*;
use vstd::wrapping::{i64_specs, u64_specs};
use crate::bytes::le_u32;
use crate::elf::{perm_bits, ElfCall, ElfError, ElfLoader, Perm, EM_AARCH64, PERM_EXECUTE, PERM_READ, PERM_WRITE};
use crate::elf64::{
    rela_at, section_bytes, section_name, section_slice, strtab_name, strtab_str, sym_at,
    sym_model, Elf64, Elf64Rela, Elf64Shdr, Elf64Sym, SymModel, ELF64_RELA_SIZE, ELF64_SYM_SIZE,
};
use crate::text::{chars_eq, chars_of, sorted_unique, str_eq, strictly_sorted, strings_view};

verus! {

/// `e_type` of a relocatable object.
pub const ET_REL: u16 = 1;

pub const SHT_SYMTAB: u32 = 2;

pub const SHT_RELA: u32 = 4;

pub const SHT_NOBITS: u32 = 8;

pub const SHF_WRITE: u64 = 0x1;

pub const SHF_ALLOC: u64 = 0x2;

pub const SHF_EXECINSTR: u64 = 0x4;

pub const SHN_UNDEF: u16 = 0;

pub const SHN_ABS: u16 = 0xfff1;

pub const SHN_COMMON: u16 = 0xfff2;

pub const STB_LOCAL: u8 = 0;

pub const STT_FUNC: u8 = 2;

pub const STT_SECTION: u8 = 3;

pub const R_X86_64_NONE: u32 = 0;

pub const R_X86_64_64: u32 = 1;

pub const R_X86_64_PC32: u32 = 2;

pub const R_X86_64_PLT32: u32 = 4;

pub const R_X86_64_32: u32 = 10;

pub const R_X86_64_32S: u32 = 11;

pub const R_X86_64_PC64: u32 = 24;

pub const R_AARCH64_ABS64: u32 = 257;

pub const R_AARCH64_ABS32: u32 = 258;

pub const R_AARCH64_PREL64: u32 = 260;

pub const R_AARCH64_PREL32: u32 = 261;

pub const R_AARCH64_ADR_PREL_PG_HI21: u32 = 275;

pub const R_AARCH64_ADD_ABS_LO12_NC: u32 = 277;

pub const R_AARCH64_JUMP26: u32 = 282;

pub const R_AARCH64_CALL26: u32 = 283;

pub const R_AARCH64_LDST8_ABS_LO12_NC: u32 = 278;

pub const R_AARCH64_LDST16_ABS_LO12_NC: u32 = 284;

pub const R_AARCH64_LDST32_ABS_LO12_NC: u32 = 285;

pub const R_AARCH64_LDST64_ABS_LO12_NC: u32 = 286;

pub const R_AARCH64_LDST128_ABS_LO12_NC: u32 = 299;

/// One `SHF_ALLOC` section after placement.
#[derive(Debug, Clone)]
pub struct RelSection {
    /// Index into the object's section-header table.
    pub index: usize,
    pub name: String,
    /// Address the section was mapped at.
    pub addr: u64,
    pub size: u64,
    pub perm: Perm,
}

/// One symbol defined by the object, with its final address.
#[derive(Debug, Clone)]
pub struct RelSymbol {
    pub name: String,
    pub addr: u64,
    pub size: u64,
    pub is_func: bool,
    pub is_global: bool,
}

/// Everything a consumer needs after an object has been placed.
#[derive(Debug)]
pub struct RelObject {
    /// Lowest address of the placed image.
    pub base: u64,
    /// Total bytes spanned by the placed image.
    pub size: u64,
    pub sections: Vec<RelSection>,
    /// Symbols the object defines (functions and objects, local and global).
    pub symbols: Vec<RelSymbol>,
    /// External symbols the resolver declined, each once, in order.
    pub unresolved: Vec<String>,
    /// Relocations skipped: unresolved symbol or unsupported type.
    pub skipped_relocations: usize,
}

/// The address of the last symbol named `name` (a global one only, when
/// `global_only`).
pub open spec fn last_named(syms: Seq<RelSymbol>, name: Seq<char>, global_only: bool) -> Option<u64>
    decreases syms.len(),
{
    if syms.len() == 0 {
        None
    } else if syms.last().name@ == name && (!global_only || syms.last().is_global) {
        Some(syms.last().addr)
    } else {
        last_named(syms.drop_last(), name, global_only)
    }
}

/// Lookup by name: globals win over locals; among equals the last wins.
pub open spec fn symbol_lookup(syms: Seq<RelSymbol>, name: Seq<char>) -> Option<u64> {
    match last_named(syms, name, true) {
        Some(a) => Some(a),
        None => last_named(syms, name, false),
    }
}

/// Index of the first section named `name`.
pub open spec fn first_section_named(secs: Seq<RelSection>, name: Seq<char>) -> Option<int> {
    if exists|i: int| 0 <= i < secs.len() && secs[i].name@ == name {
        Some(
            choose|i: int|
                0 <= i < secs.len() && secs[i].name@ == name && forall|j: int|
                    0 <= j < i ==> secs[j].name@ != name,
        )
    } else {
        None
    }
}

/// Some section named `name` has no earlier one so named, given one at `w`.
proof fn lemma_least_named(secs: Seq<RelSection>, name: Seq<char>, w: int)
    requires
        0 <= w < secs.len(),
        secs[w].name@ == name,
    ensures
        exists|i: int| 0 <= i < secs.len() && secs[i].name@ == name && forall|j: int| 0 <= j < i ==> secs[j].name@ != name,
    decreases w,
{
    if exists|j: int| 0 <= j < w && secs[j].name@ == name {
        let j = choose|j: int| 0 <= j < w && secs[j].name@ == name;
        lemma_least_named(secs, name, j);
    } else {
        assert(forall|j: int| 0 <= j < w ==> secs[j].name@ != name);
    }
}

/// [`first_section_named`] is the least index of a section named `name`,
/// and `None` exactly when there is none.
pub proof fn lemma_first_section_named(secs: Seq<RelSection>, name: Seq<char>)
    ensures
        match first_section_named(secs, name) {
            Some(i) => 0 <= i < secs.len() && secs[i].name@ == name && forall|j: int| 0 <= j < i ==> secs[j].name@ != name,
            None => forall|i: int| 0 <= i < secs.len() ==> secs[i].name@ != name,
        },
{
    if exists|i: int| 0 <= i < secs.len() && secs[i].name@ == name {
        let w = choose|i: int| 0 <= i < secs.len() && secs[i].name@ == name;
        lemma_least_named(secs, name, w);
    }
}

impl RelObject {
    /// Address of a symbol this object defines. Globals win over locals when
    /// a name appears twice; among equally global ones the last wins.
    pub fn symbol(&self, name: &str) -> (r: Option<u64>)
        ensures
            r == symbol_lookup(self.symbols@, name@),
    {
        let mut best_global: Option<u64> = None;
        let mut best_any: Option<u64> = None;
        let mut i: usize = 0;
        while i < self.symbols.len()
            invariant
                i <= self.symbols@.len(),
                best_global == last_named(self.symbols@.take(i as int), name@, true),
                best_any == last_named(self.symbols@.take(i as int), name@, false),
            decreases self.symbols@.len() - i,
        {
            assert(self.symbols@.take(i + 1).drop_last() =~= self.symbols@.take(i as int));
            if str_eq(self.symbols[i].name.as_str(), name) {
                best_any = Some(self.symbols[i].addr);
                if self.symbols[i].is_global {
                    best_global = Some(self.symbols[i].addr);
                }
            }
            i = i + 1;
        }
        assert(self.symbols@.take(self.symbols@.len() as int) =~= self.symbols@);
        match best_global {
            Some(a) => Some(a),
            None => best_any,
        }
    }

    /// The first placed section named `name` (e.g. `.text`).
    pub fn section(&self, name: &str) -> (r: Option<&RelSection>)
        ensures
            match first_section_named(self.sections@, name@) {
                Some(i) => r == Some(&self.sections@[i]),
                None => r is None,
            },
    {
        let mut i: usize = 0;
        while i < self.sections.len()
            invariant
                i <= self.sections@.len(),
                forall|j: int| 0 <= j < i ==> self.sections@[j].name@ != name@,
            decreases self.sections@.len() - i,
        {
            if str_eq(self.sections[i].name.as_str(), name) {
                proof {
                    let k = choose|k: int|
                        0 <= k < self.sections@.len() && self.sections@[k].name@ == name@ && forall|j: int|
                            0 <= j < k ==> self.sections@[j].name@ != name@;
                    if k < i {
                    } else if k > i {
                        assert(self.sections@[i as int].name@ == name@);
                    }
                }
                return Some(&self.sections[i]);
            }
            i = i + 1;
        }
        None
    }
}

/// `value` rounded up to a multiple of `align` (alignments 0 and 1 leave it
/// as it is); the product wraps at 64 bits.
pub open spec fn align_up_spec(value: u64, align: u64) -> u64 {
    if align <= 1 {
        value
    } else {
        u64_specs::wrapping_mul(
            (value / align + if value % align != 0 {
                1int
            } else {
                0int
            }) as u64,
            align,
        )
    }
}

fn align_up(value: u64, align: u64) -> (r: u64)
    ensures
        r == align_up_spec(value, align),
{
    if align <= 1 {
        return value;
    }
    assert(value / align <= u64::MAX / 2) by (nonlinear_arith)
        requires
            align >= 2,
    ;
    let q: u64 = value / align + if value % align != 0 {
        1
    } else {
        0
    };
    q.wrapping_mul(align)
}

/// What a relocation does to its place.
#[derive(Clone, Copy, Debug, PartialEq, Eq, Structural)]
pub enum RelocPatch {
    /// Nothing to write.
    Keep,
    /// Write these 8 bytes.
    Qword(u64),
    /// Write these 4 bytes.
    Dword(u32),
    /// Merge `bits` under `mask` into the instruction word at the place.
    Insn { bits: u32, mask: u32 },
    /// A relocation type that is not implemented.
    Unsupported,
}

/// `S + A` at 64 bits.
pub open spec fn s_plus_a(value: u64, addend: i64) -> u64 {
    u64_specs::wrapping_add(value, addend as u64)
}

/// An x86_64 relocation (the types kernel modules use). `PLT32` has no
/// PLT inside a module and is treated as `PC32`.
pub open spec fn x86_64_patch_spec(r_type: u32, place: u64, value: u64, addend: i64) -> RelocPatch {
    let s_a = s_plus_a(value, addend);
    if r_type == R_X86_64_NONE {
        RelocPatch::Keep
    } else if r_type == R_X86_64_64 {
        RelocPatch::Qword(s_a)
    } else if r_type == R_X86_64_PC64 {
        RelocPatch::Qword(u64_specs::wrapping_sub(s_a, place))
    } else if r_type == R_X86_64_PC32 || r_type == R_X86_64_PLT32 {
        RelocPatch::Dword(u64_specs::wrapping_sub(s_a, place) as u32)
    } else if r_type == R_X86_64_32 || r_type == R_X86_64_32S {
        RelocPatch::Dword(s_a as u32)
    } else {
        RelocPatch::Unsupported
    }
}

proof fn lemma_i64_as_u64(a: i64)
    by (bit_vector)
    ensures
        a >= 0 ==> a as u64 == a,
        a < 0 ==> a as u64 == a + 0x1_0000_0000_0000_0000,
{
}

proof fn lemma_u64_as_u32(x: u64)
    by (bit_vector)
    ensures
        x as u32 == x % 0x1_0000_0000,
{
}

/// A PC-relative x86_64 relocation (`R_X86_64_PC32`, and `R_X86_64_PLT32`,
/// which inside a module has no PLT to go through) writes the four low
/// bytes of `S + A - P`: the symbol's value plus the addend, minus the
/// place patched, modulo 2^32.
pub proof fn law_x86_64_pc_relative(r_type: u32, place: u64, value: u64, addend: i64)
    requires
        r_type == R_X86_64_PC32 || r_type == R_X86_64_PLT32,
    ensures
        x86_64_patch_spec(r_type, place, value, addend) matches RelocPatch::Dword(d) && d as int == (
        value as int + addend as int - place as int) % 0x1_0000_0000,
{
    let m64: int = 0x1_0000_0000_0000_0000;
    let m32: int = 0x1_0000_0000;
    lemma_i64_as_u64(addend);
    let au = addend as u64;
    let s = s_plus_a(value, addend);
    let w = u64_specs::wrapping_sub(s, place);
    lemma_u64_as_u32(w);
    let x: int = value as int + addend as int - place as int;
    let c: int = (if addend < 0 {
        1int
    } else {
        0int
    }) - (if value + au > u64::MAX {
        1int
    } else {
        0int
    }) + (if s - place < 0 {
        1int
    } else {
        0int
    });
    assert(w as int == x + c * m64);
    assert(m32 * (c * m32) == c * m64) by (nonlinear_arith)
        requires
            m32 == 0x1_0000_0000,
            m64 == 0x1_0000_0000_0000_0000,
    ;
    vstd::arithmetic::div_mod::lemma_mod_multiples_vanish(c * m32, x, m32);
}

/// `S + A`, the symbol's value plus the signed addend, modulo 2^64.
pub proof fn law_s_plus_a(value: u64, addend: i64)
    ensures
        s_plus_a(value, addend) as int == (value as int + addend as int) % 0x1_0000_0000_0000_0000,
{
    lemma_i64_as_u64(addend);
    let au = addend as u64;
    let x: int = value as int + addend as int;
    let c: int = (if addend < 0 {
        1int
    } else {
        0int
    }) - (if value + au > u64::MAX {
        1int
    } else {
        0int
    });
    assert(s_plus_a(value, addend) as int == x + c * 0x1_0000_0000_0000_0000);
    vstd::arithmetic::div_mod::lemma_mod_multiples_vanish(c, x, 0x1_0000_0000_0000_0000);
}

/// `S + A - P` modulo 2^64.
proof fn lemma_s_plus_a_minus_p(value: u64, addend: i64, place: u64)
    ensures
        u64_specs::wrapping_sub(s_plus_a(value, addend), place) as int == (value as int + addend as int
            - place as int) % 0x1_0000_0000_0000_0000,
{
    law_s_plus_a(value, addend);
    let s = s_plus_a(value, addend);
    let x: int = value as int + addend as int - place as int;
    let m64: int = 0x1_0000_0000_0000_0000;
    let q = (value as int + addend as int) / m64;
    vstd::arithmetic::div_mod::lemma_fundamental_div_mod(value as int + addend as int, m64);
    let w = u64_specs::wrapping_sub(s, place);
    let c: int = q - (if s - place < 0 {
        1int
    } else {
        0int
    });
    assert(w as int == x - c * m64) by (nonlinear_arith)
        requires
            s as int == (value as int + addend as int) % m64,
            value as int + addend as int == m64 * q + (value as int + addend as int) % m64,
            w as int == if s - place < 0 {
                s - place + m64
            } else {
                s - place
            },
            x == value as int + addend as int - place as int,
            c == q - (if s - place < 0 {
                1int
            } else {
                0int
            }),
    ;
    vstd::arithmetic::div_mod::lemma_mod_multiples_vanish(-c, x, m64);
    assert(m64 * (-c) + x == x - c * m64) by (nonlinear_arith);
}

/// The low 32 bits of a 64-bit quantity `w` known modulo 2^64 as `x`.
proof fn lemma_low32_of(w: u64, x: int)
    requires
        w as int == x % 0x1_0000_0000_0000_0000,
    ensures
        (w as u32) as int == x % 0x1_0000_0000,
{
    lemma_u64_as_u32(w);
    vstd::arithmetic::div_mod::lemma_mod_mod(x, 0x1_0000_0000, 0x1_0000_0000);
}

/// The absolute and PC-relative x86_64 relocations write `S + A` and
/// `S + A - P`: 8 bytes of them for `R_X86_64_64` and `R_X86_64_PC64`, the
/// low 4 bytes for `R_X86_64_32`, `R_X86_64_32S`, `R_X86_64_PC32` and
/// `R_X86_64_PLT32`; `R_X86_64_NONE` writes nothing.
pub proof fn law_x86_64_patches(place: u64, value: u64, addend: i64)
    ensures
        x86_64_patch_spec(R_X86_64_NONE, place, value, addend) == RelocPatch::Keep,
        x86_64_patch_spec(R_X86_64_64, place, value, addend) matches RelocPatch::Qword(q) && q as int == (
        value as int + addend as int) % 0x1_0000_0000_0000_0000,
        x86_64_patch_spec(R_X86_64_PC64, place, value, addend) matches RelocPatch::Qword(q) && q as int == (
        value as int + addend as int - place as int) % 0x1_0000_0000_0000_0000,
        x86_64_patch_spec(R_X86_64_32, place, value, addend) matches RelocPatch::Dword(d) && d as int == (
        value as int + addend as int) % 0x1_0000_0000,
        x86_64_patch_spec(R_X86_64_32S, place, value, addend) matches RelocPatch::Dword(d) && d as int == (
        value as int + addend as int) % 0x1_0000_0000,
        x86_64_patch_spec(R_X86_64_PC32, place, value, addend) matches RelocPatch::Dword(d) && d as int == (
        value as int + addend as int - place as int) % 0x1_0000_0000,
        x86_64_patch_spec(R_X86_64_PLT32, place, value, addend) matches RelocPatch::Dword(d) && d as int == (
        value as int + addend as int - place as int) % 0x1_0000_0000,
{
    law_s_plus_a(value, addend);
    lemma_s_plus_a_minus_p(value, addend, place);
    lemma_low32_of(s_plus_a(value, addend), value as int + addend as int);
    lemma_low32_of(
        u64_specs::wrapping_sub(s_plus_a(value, addend), place),
        value as int + addend as int - place as int,
    );
}

proof fn lemma_lo12_bits(s: u64)
    by (bit_vector)
    ensures
        lo12_bits(s, 0) == ((s % 4096) * 1024) as u32,
        lo12_bits(s, 1) == (((s % 4096) / 2) * 1024) as u32,
        lo12_bits(s, 2) == (((s % 4096) / 4) * 1024) as u32,
        lo12_bits(s, 3) == (((s % 4096) / 8) * 1024) as u32,
        lo12_bits(s, 4) == (((s % 4096) / 16) * 1024) as u32,
{
}

proof fn lemma_branch_bits(w: u64)
    by (bit_vector)
    ensures
        ((((w as i64) >> 2u64) as u32) & 0x03ff_ffffu32) == ((w / 4) % 0x400_0000) as u32,
{
}

/// The offset field of an AArch64 `ADD`/`LDST*_ABS_LO12_NC` relocation:
/// the page offset of `S + A` (its value modulo 4096), scaled down by the
/// access size (1, 2, 4, 8 or 16 bytes), at bits 10..22 of the
/// instruction, which are all that is patched.
pub proof fn law_aarch64_lo12_patches(place: u64, value: u64, addend: i64)
    ensures
        ({
            let lo: int = (value as int + addend as int) % 4096;
            let m: u32 = 0xfffu32 << 10u32;
            &&& aarch64_patch_spec(R_AARCH64_ADD_ABS_LO12_NC, place, value, addend) == RelocPatch::Insn {
                bits: (lo * 1024) as u32,
                mask: m,
            }
            &&& aarch64_patch_spec(R_AARCH64_LDST8_ABS_LO12_NC, place, value, addend) == RelocPatch::Insn {
                bits: (lo * 1024) as u32,
                mask: m,
            }
            &&& aarch64_patch_spec(R_AARCH64_LDST16_ABS_LO12_NC, place, value, addend) == RelocPatch::Insn {
                bits: ((lo / 2) * 1024) as u32,
                mask: m,
            }
            &&& aarch64_patch_spec(R_AARCH64_LDST32_ABS_LO12_NC, place, value, addend) == RelocPatch::Insn {
                bits: ((lo / 4) * 1024) as u32,
                mask: m,
            }
            &&& aarch64_patch_spec(R_AARCH64_LDST64_ABS_LO12_NC, place, value, addend) == RelocPatch::Insn {
                bits: ((lo / 8) * 1024) as u32,
                mask: m,
            }
            &&& aarch64_patch_spec(R_AARCH64_LDST128_ABS_LO12_NC, place, value, addend) == RelocPatch::Insn {
                bits: ((lo / 16) * 1024) as u32,
                mask: m,
            }
            &&& m == 0x003f_fc00u32
        }),
{
    law_s_plus_a(value, addend);
    let sa = s_plus_a(value, addend);
    lemma_lo12_bits(sa);
    vstd::arithmetic::div_mod::lemma_mod_mod(value as int + addend as int, 4096, 0x10_0000_0000_0000);
    assert(sa as int % 4096 == (value as int + addend as int) % 4096);
    assert(0xfffu32 << 10u32 == 0x003f_fc00u32) by (bit_vector);
}

/// The branch relocations of AArch64 (`CALL26`, `JUMP26`) put the word
/// offset `(S + A - P) / 4` (rounded down) into the low 26 bits of the
/// instruction, modulo 2^26, and patch only those bits.
pub proof fn law_aarch64_branch_patches(r_type: u32, place: u64, value: u64, addend: i64)
    requires
        r_type == R_AARCH64_CALL26 || r_type == R_AARCH64_JUMP26,
    ensures
        aarch64_patch_spec(r_type, place, value, addend) matches RelocPatch::Insn { bits, mask } && mask
            == 0x03ff_ffffu32 && bits as int == ((value as int + addend as int - place as int) / 4) % 0x400_0000,
{
    lemma_s_plus_a_minus_p(value, addend, place);
    let w = u64_specs::wrapping_sub(s_plus_a(value, addend), place);
    lemma_branch_bits(w);
    let x: int = value as int + addend as int - place as int;
    let m64: int = 0x1_0000_0000_0000_0000;
    vstd::arithmetic::div_mod::lemma_fundamental_div_mod(x, m64);
    let c: int = x / m64;
    assert(x == w as int + c * m64) by (nonlinear_arith)
        requires
            w as int == x % m64,
            x == m64 * c + x % m64,
    ;
    vstd::arithmetic::div_mod::lemma_fundamental_div_mod(w as int, 4);
    let q: int = w as int / 4;
    let r: int = w as int % 4;
    assert(x == 4 * (q + c * 0x4000_0000_0000_0000) + r) by (nonlinear_arith)
        requires
            x == w as int + c * m64,
            w as int == 4 * q + r,
            m64 == 0x1_0000_0000_0000_0000,
    ;
    vstd::arithmetic::div_mod::lemma_fundamental_div_mod_converse(x, 4, q + c * 0x4000_0000_0000_0000, r);
    assert(q + c * 0x4000_0000_0000_0000 == 0x400_0000 * (c * 0x10_0000_0000) + q) by (nonlinear_arith);
    vstd::arithmetic::div_mod::lemma_mod_multiples_vanish(c * 0x10_0000_0000, q, 0x400_0000);
}

/// The data relocations of AArch64 write `S + A` and `S + A - P`: 8 bytes
/// of them for `ABS64` and `PREL64`, the low 4 bytes for `ABS32` and
/// `PREL32`.
pub proof fn law_aarch64_data_patches(place: u64, value: u64, addend: i64)
    ensures
        aarch64_patch_spec(R_AARCH64_ABS64, place, value, addend) matches RelocPatch::Qword(q) && q as int == (
        value as int + addend as int) % 0x1_0000_0000_0000_0000,
        aarch64_patch_spec(R_AARCH64_PREL64, place, value, addend) matches RelocPatch::Qword(q) && q as int == (
        value as int + addend as int - place as int) % 0x1_0000_0000_0000_0000,
        aarch64_patch_spec(R_AARCH64_ABS32, place, value, addend) matches RelocPatch::Dword(d) && d as int == (
        value as int + addend as int) % 0x1_0000_0000,
        aarch64_patch_spec(R_AARCH64_PREL32, place, value, addend) matches RelocPatch::Dword(d) && d as int == (
        value as int + addend as int - place as int) % 0x1_0000_0000,
{
    law_s_plus_a(value, addend);
    lemma_s_plus_a_minus_p(value, addend, place);
    lemma_low32_of(s_plus_a(value, addend), value as int + addend as int);
    lemma_low32_of(
        u64_specs::wrapping_sub(s_plus_a(value, addend), place),
        value as int + addend as int - place as int,
    );
}

/// The 12-bit page offset of `s_a`, scaled down by `shift`, as an
/// immediate at bits 10..22.
pub open spec fn lo12_bits(s_a: u64, shift: u64) -> u32 {
    (((s_a & 0xfff) >> shift) as u32) << 10u32
}

/// An AArch64 relocation (the common subset kernel modules use).
pub open spec fn aarch64_patch_spec(r_type: u32, place: u64, value: u64, addend: i64) -> RelocPatch {
    let s_a = s_plus_a(value, addend);
    if r_type == R_AARCH64_ABS64 {
        RelocPatch::Qword(s_a)
    } else if r_type == R_AARCH64_ABS32 {
        RelocPatch::Dword(s_a as u32)
    } else if r_type == R_AARCH64_PREL64 {
        RelocPatch::Qword(u64_specs::wrapping_sub(s_a, place))
    } else if r_type == R_AARCH64_PREL32 {
        RelocPatch::Dword(u64_specs::wrapping_sub(s_a, place) as u32)
    } else if r_type == R_AARCH64_CALL26 || r_type == R_AARCH64_JUMP26 {
        let off = (u64_specs::wrapping_sub(s_a, place) as i64) >> 2u64;
        RelocPatch::Insn { bits: (off as u32) & 0x03ff_ffffu32, mask: 0x03ff_ffffu32 }
    } else if r_type == R_AARCH64_ADR_PREL_PG_HI21 {
        let off = i64_specs::wrapping_sub((s_a & !0xfffu64) as i64, (place & !0xfffu64) as i64);
        let imm = (off >> 12u64) as u32;
        RelocPatch::Insn {
            bits: ((imm & 0x3u32) << 29u32) | (((imm >> 2u32) & 0x7_ffffu32) << 5u32),
            mask: (0x3u32 << 29u32) | (0x7_ffffu32 << 5u32),
        }
    } else if r_type == R_AARCH64_ADD_ABS_LO12_NC || r_type == R_AARCH64_LDST8_ABS_LO12_NC {
        RelocPatch::Insn { bits: lo12_bits(s_a, 0), mask: 0xfffu32 << 10u32 }
    } else if r_type == R_AARCH64_LDST16_ABS_LO12_NC {
        RelocPatch::Insn { bits: lo12_bits(s_a, 1), mask: 0xfffu32 << 10u32 }
    } else if r_type == R_AARCH64_LDST32_ABS_LO12_NC {
        RelocPatch::Insn { bits: lo12_bits(s_a, 2), mask: 0xfffu32 << 10u32 }
    } else if r_type == R_AARCH64_LDST64_ABS_LO12_NC {
        RelocPatch::Insn { bits: lo12_bits(s_a, 3), mask: 0xfffu32 << 10u32 }
    } else if r_type == R_AARCH64_LDST128_ABS_LO12_NC {
        RelocPatch::Insn { bits: lo12_bits(s_a, 4), mask: 0xfffu32 << 10u32 }
    } else {
        RelocPatch::Unsupported
    }
}

/// The patch an x86_64 relocation makes.
pub fn x86_64_patch(r_type: u32, place: u64, value: u64, addend: i64) -> (p: RelocPatch)
    ensures
        p == x86_64_patch_spec(r_type, place, value, addend),
{
    let s_a = value.wrapping_add(addend as u64);
    if r_type == R_X86_64_NONE {
        RelocPatch::Keep
    } else if r_type == R_X86_64_64 {
        RelocPatch::Qword(s_a)
    } else if r_type == R_X86_64_PC64 {
        RelocPatch::Qword(s_a.wrapping_sub(place))
    } else if r_type == R_X86_64_PC32 || r_type == R_X86_64_PLT32 {
        RelocPatch::Dword(s_a.wrapping_sub(place) as u32)
    } else if r_type == R_X86_64_32 || r_type == R_X86_64_32S {
        RelocPatch::Dword(s_a as u32)
    } else {
        RelocPatch::Unsupported
    }
}

fn lo12(s_a: u64, shift: u64) -> (r: u32)
    requires
        shift <= 4,
    ensures
        r == lo12_bits(s_a, shift),
{
    (((s_a & 0xfff) >> shift) as u32) << 10u32
}

/// The patch an AArch64 relocation makes.
pub fn aarch64_patch(r_type: u32, place: u64, value: u64, addend: i64) -> (p: RelocPatch)
    ensures
        p == aarch64_patch_spec(r_type, place, value, addend),
{
    let s_a = value.wrapping_add(addend as u64);
    if r_type == R_AARCH64_ABS64 {
        RelocPatch::Qword(s_a)
    } else if r_type == R_AARCH64_ABS32 {
        RelocPatch::Dword(s_a as u32)
    } else if r_type == R_AARCH64_PREL64 {
        RelocPatch::Qword(s_a.wrapping_sub(place))
    } else if r_type == R_AARCH64_PREL32 {
        RelocPatch::Dword(s_a.wrapping_sub(place) as u32)
    } else if r_type == R_AARCH64_CALL26 || r_type == R_AARCH64_JUMP26 {
        let off = (s_a.wrapping_sub(place) as i64) >> 2u64;
        RelocPatch::Insn { bits: (off as u32) & 0x03ff_ffffu32, mask: 0x03ff_ffffu32 }
    } else if r_type == R_AARCH64_ADR_PREL_PG_HI21 {
        let off = ((s_a & !0xfffu64) as i64).wrapping_sub((place & !0xfffu64) as i64);
        let imm = (off >> 12u64) as u32;
        RelocPatch::Insn {
            bits: ((imm & 0x3u32) << 29u32) | (((imm >> 2u32) & 0x7_ffffu32) << 5u32),
            mask: (0x3u32 << 29u32) | (0x7_ffffu32 << 5u32),
        }
    } else if r_type == R_AARCH64_ADD_ABS_LO12_NC || r_type == R_AARCH64_LDST8_ABS_LO12_NC {
        RelocPatch::Insn { bits: lo12(s_a, 0), mask: 0xfffu32 << 10u32 }
    } else if r_type == R_AARCH64_LDST16_ABS_LO12_NC {
        RelocPatch::Insn { bits: lo12(s_a, 1), mask: 0xfffu32 << 10u32 }
    } else if r_type == R_AARCH64_LDST32_ABS_LO12_NC {
        RelocPatch::Insn { bits: lo12(s_a, 2), mask: 0xfffu32 << 10u32 }
    } else if r_type == R_AARCH64_LDST64_ABS_LO12_NC {
        RelocPatch::Insn { bits: lo12(s_a, 3), mask: 0xfffu32 << 10u32 }
    } else if r_type == R_AARCH64_LDST128_ABS_LO12_NC {
        RelocPatch::Insn { bits: lo12(s_a, 4), mask: 0xfffu32 << 10u32 }
    } else {
        RelocPatch::Unsupported
    }
}

/// The little-endian bytes of `v`.
pub open spec fn dword_le(v: u32) -> Seq<u8> {
    seq![
        (v & 0xff) as u8,
        ((v >> 8u32) & 0xff) as u8,
        ((v >> 16u32) & 0xff) as u8,
        ((v >> 24u32) & 0xff) as u8,
    ]
}

fn dword_bytes(v: u32) -> (b: Vec<u8>)
    ensures
        b@ == dword_le(v),
{
    let b = vec![
        (v & 0xff) as u8,
        ((v >> 8u32) & 0xff) as u8,
        ((v >> 16u32) & 0xff) as u8,
        ((v >> 24u32) & 0xff) as u8,
    ];
    assert(b@ =~= dword_le(v));
    b
}

/// The instruction word at `place` taken from the qword `q` read at
/// `place & !7`: its low half when `place` is 8-aligned, else its high half.
pub open spec fn insn_word(place: u64, q: u64) -> u32 {
    if place == (place & !7u64) {
        q as u32
    } else {
        (q >> 32u64) as u32
    }
}

/// The loader calls writing `patch` at `place` make, the loader having
/// answered `res` (whether the write succeeded, what the qword read for an
/// instruction gave): a qword or a dword is written; an instruction word
/// read back is merged with the patch under its mask and written; nothing
/// is written for `Keep`, an unsupported type or a failed read.
pub open spec fn patch_calls(place: u64, patch: RelocPatch, res: (bool, Option<u64>)) -> Seq<ElfCall> {
    match patch {
        RelocPatch::Qword(v) => seq![ElfCall::WriteQword { addr: place, val: v, ok: res.0 }],
        RelocPatch::Dword(v) => seq![ElfCall::WriteBytes { addr: place, data: dword_le(v), ok: res.0 }],
        RelocPatch::Insn { bits, mask } => match res.1 {
            Some(q) => seq![
                ElfCall::WriteBytes {
                    addr: place,
                    data: dword_le((insn_word(place, q) & !mask) | (bits & mask)),
                    ok: res.0,
                },
            ],
            None => Seq::empty(),
        },
        _ => Seq::empty(),
    }
}

/// Whether writing `patch` succeeded, for the loader's answers `res`.
pub open spec fn patch_ok(patch: RelocPatch, res: (bool, Option<u64>)) -> bool {
    match patch {
        RelocPatch::Keep => true,
        RelocPatch::Unsupported => false,
        RelocPatch::Insn { .. } => res.1 is Some && res.0,
        _ => res.0,
    }
}

/// Write `patch` at `place` through `loader`; false when it is not
/// implemented or the loader's write (or, for an instruction, its read)
/// fails.
fn write_patch<L: ElfLoader>(loader: &mut L, place: u64, patch: RelocPatch) -> (r: bool)
    ensures
        exists|res: (bool, Option<u64>)|
            final(loader).calls() == old(loader).calls() + #[trigger] patch_calls(place, patch, res) && r
                == patch_ok(patch, res),
{
    match patch {
        RelocPatch::Keep => {
            assert(loader.calls() =~= old(loader).calls() + patch_calls(place, patch, (false, None)));
            true
        },
        RelocPatch::Qword(v) => {
            let ok = loader.write_qword(place, v);
            assert(loader.calls() =~= old(loader).calls() + patch_calls(place, patch, (ok, None)));
            ok
        },
        RelocPatch::Dword(v) => {
            let b = dword_bytes(v);
            let ok = loader.write_bytes(place, b.as_slice());
            assert(loader.calls() =~= old(loader).calls() + patch_calls(place, patch, (ok, None)));
            ok
        },
        RelocPatch::Insn { bits, mask } => {
            match read_insn(loader, place) {
                None => {
                    assert(loader.calls() =~= old(loader).calls() + patch_calls(place, patch, (false, None)));
                    false
                },
                Some(insn) => {
                    let ghost q = choose|q: u64| insn == insn_word(place, q);
                    let merged = (insn & !mask) | (bits & mask);
                    let b = dword_bytes(merged);
                    let ok = loader.write_bytes(place, b.as_slice());
                    assert(loader.calls() =~= old(loader).calls() + patch_calls(place, patch, (ok, Some(q))));
                    ok
                },
            }
        },
        RelocPatch::Unsupported => {
            assert(loader.calls() =~= old(loader).calls() + patch_calls(place, patch, (false, None)));
            false
        },
    }
}

/// Patch one x86_64 relocation: true for `R_X86_64_NONE` (nothing to
/// write), false for a type that is not implemented; for the others the
/// loader's write decides.
fn apply_x86_64<L: ElfLoader>(loader: &mut L, r_type: u32, place: u64, value: u64, addend: i64) -> (r: bool)
    ensures
        x86_64_patch_spec(r_type, place, value, addend) is Unsupported ==> !r,
        x86_64_patch_spec(r_type, place, value, addend) is Keep ==> r,
        exists|res: (bool, Option<u64>)|
            final(loader).calls() == old(loader).calls() + #[trigger] patch_calls(
                place,
                x86_64_patch_spec(r_type, place, value, addend),
                res,
            ) && r == patch_ok(x86_64_patch_spec(r_type, place, value, addend), res),
{
    let p = x86_64_patch(r_type, place, value, addend);
    write_patch(loader, place, p)
}

/// The instruction word at `place` from what the loader's qword read at
/// `place & !7` gave: none when the read failed.
fn insn_from_qword(place: u64, read: Option<u64>) -> (r: Option<u32>)
    ensures
        r == match read {
            Some(q) => Some(insn_word(place, q)),
            None => None,
        },
{
    match read {
        None => None,
        Some(q) => {
            let w = if place == (place & !7u64) {
                q as u32
            } else {
                (q >> 32u64) as u32
            };
            Some(w)
        },
    }
}

/// The instruction word at `place`, read through the loader's qword reads
/// (see [`insn_from_qword`]); the loader decides whether the read succeeds.
fn read_insn<L: ElfLoader>(loader: &L, place: u64) -> (r: Option<u32>)
    ensures
        match r {
            Some(w) => exists|q: u64| w == #[trigger] insn_word(place, q),
            None => true,
        },
{
    let aligned = place & !7u64;
    let read = loader.read_qword(aligned);
    insn_from_qword(place, read)
}

/// Patch one AArch64 relocation: false for a type that is not implemented;
/// every implemented type writes through the loader, whose write (and, for
/// an instruction, whose read) decides.
fn apply_aarch64<L: ElfLoader>(loader: &mut L, r_type: u32, place: u64, value: u64, addend: i64) -> (r: bool)
    ensures
        aarch64_patch_spec(r_type, place, value, addend) is Unsupported ==> !r,
        exists|res: (bool, Option<u64>)|
            final(loader).calls() == old(loader).calls() + #[trigger] patch_calls(
                place,
                aarch64_patch_spec(r_type, place, value, addend),
                res,
            ) && r == patch_ok(aarch64_patch_spec(r_type, place, value, addend), res),
{
    let p = aarch64_patch(r_type, place, value, addend);
    write_patch(loader, place, p)
}

/// `a`, capped at `usize::MAX`: a count kept with saturating additions.
pub open spec fn saturated(a: int) -> int {
    if a > usize::MAX {
        usize::MAX as int
    } else {
        a
    }
}

/// The patch a relocation of type `r_type` asks for on `machine`.
pub open spec fn machine_patch(machine: u16, r_type: u32, place: u64, value: u64, addend: i64) -> RelocPatch {
    if machine == EM_AARCH64 {
        aarch64_patch_spec(r_type, place, value, addend)
    } else {
        x86_64_patch_spec(r_type, place, value, addend)
    }
}

/// The symbols as plain values.
pub open spec fn sym_models(v: Seq<Elf64Sym>) -> Seq<SymModel> {
    v.map_values(|x: Elf64Sym| sym_model(x))
}

/// What one `RELA` entry against a target section at `base` does, the
/// loader having answered `res`: the loader calls it makes and whether it
/// is counted as skipped (1) or not (0). An entry whose symbol index is out
/// of range does nothing; one whose symbol is a named undefined one left
/// unresolved is skipped; otherwise its patch is written (see
/// [`patch_calls`]) and it is skipped when that fails ([`patch_ok`]).
pub open spec fn rela_outcome(
    machine: u16,
    syms: Seq<SymModel>,
    vals: Seq<u64>,
    rela: Elf64Rela,
    base: u64,
    res: (bool, Option<u64>),
) -> (Seq<ElfCall>, int) {
    let si = (rela.r_info >> 32) as u32 as int;
    if si >= vals.len() {
        (Seq::empty(), 0)
    } else if syms[si].st_shndx == SHN_UNDEF && syms[si].name.len() > 0 && vals[si] == 0 {
        (Seq::empty(), 1)
    } else {
        let place = u64_specs::wrapping_add(base, rela.r_offset);
        let p = machine_patch(machine, (rela.r_info & 0xffff_ffff) as u32, place, vals[si], rela.r_addend);
        (
            patch_calls(place, p, res),
            if patch_ok(p, res) {
                0
            } else {
                1
            },
        )
    }
}

/// [`rela_outcome`] over the entries at `offs`, in order, `rs[k]` being the
/// loader's answers for the `k`-th: the calls concatenated, the skips
/// summed.
pub open spec fn offs_outcome(
    e: Elf64,
    syms: Seq<SymModel>,
    vals: Seq<u64>,
    offs: Seq<int>,
    base: u64,
    rs: Seq<(bool, Option<u64>)>,
) -> (Seq<ElfCall>, int)
    decreases offs.len(),
{
    if offs.len() == 0 {
        (Seq::empty(), 0)
    } else {
        let p = offs_outcome(e, syms, vals, offs.drop_last(), base, rs.drop_last());
        let q = rela_outcome(e.elf_hdr.e_machine, syms, vals, rela_at(e.bin@, offs.last()), base, rs.last());
        (p.0 + q.0, p.1 + q.1)
    }
}

/// A `RELA` section that is applied: its target section was placed.
pub open spec fn rela_applied(e: Elf64, i: int) -> bool {
    let sh = e.elf_shdr@[i];
    let t = sh.sh_info as usize as int;
    sh.sh_type == SHT_RELA && t < e.elf_shdr@.len() && e.elf_shdr@[t].sh_addr != 0
}

/// What the `RELA` section `i` does (see [`offs_outcome`]): the entries
/// of an applied section, read as the walk reads them, against its
/// target's address; nothing for another section.
pub open spec fn section_outcome(
    e: Elf64,
    syms: Seq<SymModel>,
    vals: Seq<u64>,
    i: int,
    rs: Seq<(bool, Option<u64>)>,
) -> (Seq<ElfCall>, int) {
    let sh = e.elf_shdr@[i];
    if rela_applied(e, i) {
        let ent = entry_size(sh, ELF64_RELA_SIZE as int);
        offs_outcome(
            e,
            syms,
            vals,
            entry_offsets(e.bin@.len() as int, sh.sh_offset as usize as int, entry_count(sh, ent), ent),
            e.elf_shdr@[sh.sh_info as usize as int].sh_addr,
            rs,
        )
    } else {
        (Seq::empty(), 0)
    }
}

/// What the first `rss.len()` sections do, `rss[i]` being the loader's
/// answers for section `i`'s entries.
pub open spec fn relocation_outcome(e: Elf64, syms: Seq<SymModel>, vals: Seq<u64>, rss: Seq<Seq<(bool, Option<u64>)>>) -> (
    Seq<ElfCall>,
    int,
)
    decreases rss.len(),
{
    if rss.len() == 0 {
        (Seq::empty(), 0)
    } else {
        let p = relocation_outcome(e, syms, vals, rss.drop_last());
        let q = section_outcome(e, syms, vals, rss.len() - 1, rss.last());
        (p.0 + q.0, p.1 + q.1)
    }
}

// ---------------------------------------------------------------------
// The symbol table.

/// Index of the first section of type `t`, searching from `start`.
pub open spec fn first_of_type(shdrs: Seq<Elf64Shdr>, t: u32, start: int) -> Option<int>
    decreases shdrs.len() - start,
{
    if start < 0 || start >= shdrs.len() {
        None
    } else if shdrs[start].sh_type == t {
        Some(start)
    } else {
        first_of_type(shdrs, t, start + 1)
    }
}

/// The entry size of a table: `sh_entsize`, or `dflt` when that is 0.
pub open spec fn entry_size(sh: Elf64Shdr, dflt: int) -> int {
    if sh.sh_entsize == 0 {
        dflt
    } else {
        sh.sh_entsize as usize as int
    }
}

/// How many entries `sh_size` holds (entry size at least 1).
pub open spec fn entry_count(sh: Elf64Shdr, ent: int) -> int {
    (sh.sh_size as usize as int) / if ent >= 1 {
        ent
    } else {
        1
    }
}

/// Offsets of the 24-byte entries read from `off`: at most `remaining`,
/// stopping at the first that does not fit in `len` bytes.
pub open spec fn entry_offsets(len: int, off: int, remaining: int, ent: int) -> Seq<int>
    decreases remaining,
{
    if remaining <= 0 || off + 24 > len {
        Seq::empty()
    } else {
        seq![off].add(entry_offsets(len, off + ent, remaining - 1, ent))
    }
}

/// Reading such a table neither overflows an offset nor reads past the
/// image (true for every table of a well-formed object).
pub open spec fn walk_fits(off: int, count: int, ent: int, len: int) -> bool {
    count > 0 ==> off + 24 <= usize::MAX && ent + len <= usize::MAX
}

/// A symbol's name: empty for section symbols, else from the string table.
pub open spec fn sym_name(bin: Seq<u8>, strtab: Seq<u8>, off: int) -> Seq<char> {
    if bin[off + 4] & 0xf == STT_SECTION {
        Seq::empty()
    } else {
        strtab_str(strtab, le_u32(bin, off) as int)
    }
}

/// The first `.symtab` section, its string table, entry size and count.
pub open spec fn symtab_index(e: Elf64) -> Option<int> {
    first_of_type(e.elf_shdr@, SHT_SYMTAB, 0)
}

/// What `parse_symtab` gives: the symbols of the first `.symtab` (names
/// from the string table its `sh_link` names), or the error message.
pub open spec fn symtab_result(e: Elf64) -> Result<Seq<SymModel>, Seq<char>> {
    match symtab_index(e) {
        None => Err("object has no .symtab"@),
        Some(si) => {
            let sh = e.elf_shdr@[si];
            let li = sh.sh_link as usize as int;
            if li >= e.elf_shdr@.len() {
                Err(".symtab sh_link is out of range"@)
            } else {
                let strtab = section_bytes(e.bin@, e.elf_shdr@[li]);
                let ent = entry_size(sh, ELF64_SYM_SIZE as int);
                let offs = entry_offsets(
                    e.bin@.len() as int,
                    sh.sh_offset as usize as int,
                    entry_count(sh, ent),
                    ent,
                );
                Ok(offs.map_values(|o: int| sym_at(e.bin@, o, sym_name(e.bin@, strtab, o))))
            }
        },
    }
}

/// `parse_symtab` reads within the image without overflowing an offset.
pub open spec fn symtab_fits(e: Elf64) -> bool {
    match symtab_index(e) {
        None => true,
        Some(si) => {
            let sh = e.elf_shdr@[si];
            let ent = entry_size(sh, ELF64_SYM_SIZE as int);
            walk_fits(sh.sh_offset as usize as int, entry_count(sh, ent), ent, e.bin@.len() as int)
        },
    }
}

impl Elf64 {
    /// True when this image is a relocatable object (a `.ko`, a `.o`).
    pub fn is_relocatable(&self) -> (r: bool)
        ensures
            r == (self.elf_hdr.e_type == ET_REL),
    {
        self.elf_hdr.e_type == ET_REL
    }

    /// True for the bytes of an ELF64 relocatable object (checked before
    /// parsing): the ELF64 identification and `e_type == ET_REL`.
    pub fn is_elf64_relocatable(raw: &[u8]) -> (r: bool)
        ensures
            r == (raw@.len() >= 5 && raw@[0] == 0x7f && raw@[1] == 0x45 && raw@[2] == 0x4c
                && raw@[3] == 0x46 && raw@[4] == crate::elf64::ELFCLASS64 && raw@.len() > 17
                && raw@[16] as int + raw@[17] as int * 0x100 == ET_REL),
    {
        if !Elf64::is_elf64(raw) || raw.len() <= 17 {
            return false;
        }
        let b16 = raw[16];
        let b17 = raw[17];
        let t: u16 = b16 as u16 | ((b17 as u16) << 8u16);
        assert(t == b16 as int + b17 as int * 0x100) by (bit_vector)
            requires
                t == (b16 as u16 | ((b17 as u16) << 8u16)),
        ;
        t == ET_REL
    }

    /// Parse `.symtab` (with the string table its `sh_link` names) into
    /// symbols with their names filled in; section symbols keep an empty
    /// name. Entries that do not fit in the image end the table.
    pub fn parse_symtab(&self) -> (r: Result<Vec<Elf64Sym>, ElfError>)
        requires
            symtab_fits(*self),
        ensures
            match (r, symtab_result(*self)) {
                (Ok(v), Ok(m)) => v@.map_values(|s: Elf64Sym| sym_model(s)) == m,
                (Err(e), Err(msg)) => e.message@ == msg,
                _ => false,
            },
    {
        let ghost shdrs = self.elf_shdr@;
        let mut symtab_idx: usize = 0;
        while symtab_idx < self.elf_shdr.len() && self.elf_shdr[symtab_idx].sh_type != SHT_SYMTAB
            invariant
                symtab_idx <= shdrs.len(),
                shdrs == self.elf_shdr@,
                first_of_type(shdrs, SHT_SYMTAB, 0) == first_of_type(shdrs, SHT_SYMTAB, symtab_idx as int),
            decreases shdrs.len() - symtab_idx,
        {
            symtab_idx = symtab_idx + 1;
        }
        if symtab_idx >= self.elf_shdr.len() {
            return Err(ElfError::new("object has no .symtab"));
        }
        let strtab_idx = self.elf_shdr[symtab_idx].sh_link as usize;
        if strtab_idx >= self.elf_shdr.len() {
            return Err(ElfError::new(".symtab sh_link is out of range"));
        }
        let strtab = section_slice(self.bin.as_slice(), &self.elf_shdr[strtab_idx]);
        let sh = self.elf_shdr[symtab_idx];
        let entsize: usize = if sh.sh_entsize == 0 {
            Elf64Sym::size()
        } else {
            sh.sh_entsize as usize
        };
        let div: usize = if entsize == 0 {
            1
        } else {
            entsize
        };
        let count: usize = (sh.sh_size as usize) / div;
        let ghost bin = self.bin@;
        let ghost all = entry_offsets(bin.len() as int, sh.sh_offset as usize as int, count as int, entsize as int);
        let ghost mut done: Seq<int> = Seq::empty();
        let mut off: usize = sh.sh_offset as usize;
        let mut symbols: Vec<Elf64Sym> = Vec::new();
        let mut k: usize = 0;
        assert(all =~= done + entry_offsets(bin.len() as int, off as int, count - k, entsize as int));
        while k < count && off + ELF64_SYM_SIZE <= self.bin.len()
            invariant
                bin == self.bin@,
                k <= count,
                walk_fits(sh.sh_offset as usize as int, count as int, entsize as int, bin.len() as int),
                k > 0 ==> off + 24 <= bin.len() + entsize,
                k == 0 ==> off == sh.sh_offset as usize,
                symbols@.len() == done.len(),
                all == done + entry_offsets(bin.len() as int, off as int, count - k, entsize as int),
                symbols@.map_values(|s: Elf64Sym| sym_model(s)) == done.map_values(
                    |o: int| sym_at(bin, o, sym_name(bin, strtab@, o)),
                ),
            decreases count - k,
        {
            let mut sym = Elf64Sym::parse(self.bin.as_slice(), off);
            let ghost o = off as int;
            let name = if sym.get_st_type() == STT_SECTION {
                String::new()
            } else {
                strtab_name(strtab, sym.st_name as usize)
            };
            sym.st_dynstr_name = name;
            assert(sym_model(sym) == sym_at(bin, o, sym_name(bin, strtab@, o)));
            proof {
                let d2 = done.push(o);
                assert(entry_offsets(bin.len() as int, o, count - k, entsize as int) == seq![o].add(
                    entry_offsets(bin.len() as int, o + entsize, count - k - 1, entsize as int),
                ));
                assert(done + entry_offsets(bin.len() as int, o, count - k, entsize as int) =~= d2
                    + entry_offsets(bin.len() as int, o + entsize, count - k - 1, entsize as int));
                let lhs = symbols@.push(sym).map_values(|s: Elf64Sym| sym_model(s));
                let rhs = d2.map_values(|o: int| sym_at(bin, o, sym_name(bin, strtab@, o)));
                let prev = symbols@.map_values(|s: Elf64Sym| sym_model(s));
                assert forall|j: int| 0 <= j < lhs.len() implies lhs[j] == rhs[j] by {
                    if j < symbols@.len() {
                        assert(lhs[j] == prev[j]);
                        assert(d2[j] == done[j]);
                    }
                }
                assert(lhs =~= rhs);
                done = d2;
            }
            symbols.push(sym);
            off = off + entsize;
            k = k + 1;
        }
        assert(done + entry_offsets(bin.len() as int, off as int, count - k, entsize as int) =~= done);
        Ok(symbols)
    }
}


// ---------------------------------------------------------------------
// Loading a relocatable object.

/// The section is placed: it is `SHF_ALLOC` and not empty.
pub open spec fn allocates(sh: Elf64Shdr) -> bool {
    sh.sh_flags & SHF_ALLOC != 0 && sh.sh_size != 0
}

/// Permission bits of a placed section: readable, writable and executable
/// as its flags say.
pub open spec fn section_perm_bits(sh: Elf64Shdr) -> u8 {
    perm_bits(true, sh.sh_flags & SHF_WRITE != 0, sh.sh_flags & SHF_EXECINSTR != 0)
}

/// The file image of a placed section with contents lies in the object.
pub open spec fn data_fits(sh: Elf64Shdr, len: int) -> bool {
    allocates(sh) && sh.sh_type != SHT_NOBITS ==> {
        let end = sh.sh_offset as usize + sh.sh_size as usize;
        (if end > usize::MAX {
            usize::MAX as int
        } else {
            end
        }) <= len
    }
}

pub open spec fn sections_fit(e: Elf64) -> bool {
    forall|i: int| 0 <= i < e.elf_shdr@.len() ==> data_fits(#[trigger] e.elf_shdr@[i], e.bin@.len() as int)
}

/// The two header tables differ at most in `sh_addr`.
pub open spec fn same_but_addr(a: Seq<Elf64Shdr>, b: Seq<Elf64Shdr>) -> bool {
    &&& a.len() == b.len()
    &&& forall|i: int|
        0 <= i < a.len() ==> {
            &&& (#[trigger] a[i]).sh_name == b[i].sh_name
            &&& a[i].sh_type == b[i].sh_type
            &&& a[i].sh_flags == b[i].sh_flags
            &&& a[i].sh_offset == b[i].sh_offset
            &&& a[i].sh_size == b[i].sh_size
            &&& a[i].sh_link == b[i].sh_link
            &&& a[i].sh_info == b[i].sh_info
            &&& a[i].sh_addralign == b[i].sh_addralign
            &&& a[i].sh_entsize == b[i].sh_entsize
        }
}

/// A placed section as plain values.
pub ghost struct SecModel {
    pub index: int,
    pub name: Seq<char>,
    pub addr: u64,
    pub size: u64,
    pub perm: u8,
}

pub open spec fn sec_model(s: RelSection) -> SecModel {
    SecModel { index: s.index as int, name: s.name@, addr: s.addr, size: s.size, perm: s.perm.bits }
}

/// The sections among the first `upto` that are placed, in index order,
/// named from `e`'s section-name table, at the addresses `f` records.
pub open spec fn placed(e: Elf64, f: Seq<Elf64Shdr>, upto: int) -> Seq<SecModel>
    decreases upto,
{
    if upto <= 0 {
        Seq::empty()
    } else {
        let prev = placed(e, f, upto - 1);
        let i = upto - 1;
        let sh = e.elf_shdr@[i];
        if allocates(sh) {
            prev.push(
                SecModel {
                    index: i,
                    name: section_name(e, sh.sh_name as int),
                    addr: f[i].sh_addr,
                    size: sh.sh_size,
                    perm: section_perm_bits(sh),
                },
            )
        } else {
            prev
        }
    }
}

/// Where the placed image ends: after the last placed section, or at
/// `base` when none is placed.
pub open spec fn placed_end(secs: Seq<SecModel>, base: u64) -> u64 {
    if secs.len() == 0 {
        base
    } else {
        u64_specs::wrapping_add(secs.last().addr, secs.last().size)
    }
}

pub open spec fn cannot_map_message(section: Seq<char>) -> Seq<char> {
    "cannot map section "@ + section
}

pub open spec fn past_end_message(section: Seq<char>) -> Seq<char> {
    "section "@ + section + " extends past end of object"@
}

/// The alignment a placed section is mapped at: its own, at least 16.
pub open spec fn section_align(sh: Elf64Shdr) -> u64 {
    if sh.sh_addralign > 16 {
        sh.sh_addralign
    } else {
        16
    }
}

/// Where a section's file image ends: `sh_offset + sh_size`, saturated.
pub open spec fn section_end(sh: Elf64Shdr) -> int {
    let end = sh.sh_offset as usize + sh.sh_size as usize;
    if end > usize::MAX {
        usize::MAX as int
    } else {
        end
    }
}

/// The map request for section `i` of `e`, the sections before it placed
/// as the headers `f` say: named after the image `name` and the section,
/// at the end of the sections placed before (`base` when none) rounded up
/// to [`section_align`], `sh_size` bytes, with the section's permissions;
/// `at` is where the loader put it.
pub open spec fn section_map_call(e: Elf64, f: Seq<Elf64Shdr>, name: Seq<char>, base: u64, i: int, at: Option<u64>) -> ElfCall {
    let sh = e.elf_shdr@[i];
    ElfCall::MapRegion {
        name: name + section_name(e, sh.sh_name as int),
        addr: align_up_spec(placed_end(placed(e, f, i), base), section_align(sh)),
        size: sh.sh_size,
        perm: section_perm_bits(sh),
        at,
    }
}

/// The loader calls placing section `i` makes when it lands where `f`
/// says: an allocated section is mapped (see [`section_map_call`]) and,
/// unless it is `SHT_NOBITS`, its file image is written there (`ok`, the
/// write's answer); nothing for another section.
pub open spec fn section_place_calls(e: Elf64, f: Seq<Elf64Shdr>, name: Seq<char>, base: u64, i: int, ok: bool) -> Seq<
    ElfCall,
> {
    let sh = e.elf_shdr@[i];
    if allocates(sh) {
        seq![section_map_call(e, f, name, base, i, Some(f[i].sh_addr))] + if sh.sh_type != SHT_NOBITS {
            seq![
                ElfCall::WriteBytes {
                    addr: f[i].sh_addr,
                    data: e.bin@.subrange(sh.sh_offset as usize as int, section_end(sh)),
                    ok,
                },
            ]
        } else {
            Seq::<ElfCall>::empty()
        }
    } else {
        Seq::empty()
    }
}

/// The loader calls placing the first `oks.len()` sections make.
pub open spec fn placement_calls(e: Elf64, f: Seq<Elf64Shdr>, name: Seq<char>, base: u64, oks: Seq<bool>) -> Seq<
    ElfCall,
>
    decreases oks.len(),
{
    if oks.len() == 0 {
        Seq::empty()
    } else {
        placement_calls(e, f, name, base, oks.drop_last()) + section_place_calls(
            e,
            f,
            name,
            base,
            oks.len() - 1,
            oks.last(),
        )
    }
}

/// Placement failed with `msg`, the loader's log going from `calls0` to
/// `calls`: the
/// sections before some allocated section `k` were placed, `k`'s map
/// request was refused (`cannot map section`), or it was mapped but its
/// file image lies past the end of the object (`extends past end`).
pub open spec fn placement_failed(
    e: Elf64,
    f: Seq<Elf64Shdr>,
    name: Seq<char>,
    base: u64,
    calls0: Seq<ElfCall>,
    calls: Seq<ElfCall>,
    msg: Seq<char>,
) -> bool {
    exists|oks: Seq<bool>, at: Option<u64>|
        #![trigger placement_calls(e, f, name, base, oks), section_map_call(e, f, name, base, oks.len() as int, at)]
        {
            let k = oks.len() as int;
            let sh = e.elf_shdr@[k];
            let n = section_name(e, sh.sh_name as int);
            &&& k < e.elf_shdr@.len()
            &&& allocates(sh)
            &&& calls == calls0 + placement_calls(e, f, name, base, oks).push(
                section_map_call(e, f, name, base, k, at),
            )
            &&& (at is None && msg == cannot_map_message(n)) || (at is Some && !data_fits(
                sh,
                e.bin@.len() as int,
            ) && msg == past_end_message(n))
        }
}

/// A placed section is mapped readable, writable exactly when its
/// `sh_flags` hold `SHF_WRITE` (1), and executable exactly when they hold
/// `SHF_EXECINSTR` (4), `sh_size` bytes long.
pub proof fn law_sections_mapped_with_their_flags(
    e: Elf64,
    f: Seq<Elf64Shdr>,
    name: Seq<char>,
    base: u64,
    i: int,
    at: Option<u64>,
)
    ensures
        section_map_call(e, f, name, base, i, at) matches ElfCall::MapRegion { perm, size, .. } && {
            &&& perm & PERM_READ != 0
            &&& (perm & PERM_WRITE != 0) == (e.elf_shdr@[i].sh_flags & 1 != 0)
            &&& (perm & PERM_EXECUTE != 0) == (e.elf_shdr@[i].sh_flags & 4 != 0)
            &&& size == e.elf_shdr@[i].sh_size
        },
{
    let sh = e.elf_shdr@[i];
    crate::elf32::lemma_perm_bits_set(true, sh.sh_flags & SHF_WRITE != 0, sh.sh_flags & SHF_EXECINSTR != 0);
}

/// Some map request among the calls after the first `calls0.len()` was
/// refused by the loader.
pub open spec fn map_refused(calls0: Seq<ElfCall>, calls: Seq<ElfCall>) -> bool {
    exists|j: int| calls0.len() <= j < calls.len() && #[trigger] calls[j] matches ElfCall::MapRegion { at: None, .. }
}

/// When every section's file image lies in the object, placement fails
/// only where the loader refused a map request.
proof fn lemma_failed_placement_refused(
    e: Elf64,
    f: Seq<Elf64Shdr>,
    name: Seq<char>,
    base: u64,
    calls0: Seq<ElfCall>,
    calls: Seq<ElfCall>,
    msg: Seq<char>,
)
    requires
        placement_failed(e, f, name, base, calls0, calls, msg),
        sections_fit(e),
    ensures
        map_refused(calls0, calls),
{
    let (oks, at) = choose|oks: Seq<bool>, at: Option<u64>|
        #![trigger placement_calls(e, f, name, base, oks), section_map_call(e, f, name, base, oks.len() as int, at)]
        {
            let k = oks.len() as int;
            let sh = e.elf_shdr@[k];
            let n = section_name(e, sh.sh_name as int);
            &&& k < e.elf_shdr@.len()
            &&& allocates(sh)
            &&& calls == calls0 + placement_calls(e, f, name, base, oks).push(
                section_map_call(e, f, name, base, k, at),
            )
            &&& (at is None && msg == cannot_map_message(n)) || (at is Some && !data_fits(
                sh,
                e.bin@.len() as int,
            ) && msg == past_end_message(n))
        };
    let k = oks.len() as int;
    assert(data_fits(e.elf_shdr@[k], e.bin@.len() as int));
    let j: int = (calls0.len() + placement_calls(e, f, name, base, oks).len()) as int;
    assert(calls[j] == section_map_call(e, f, name, base, k, at));
}

/// The loader put every map request among the calls after the first
/// `calls0.len()` where it was asked to.
pub open spec fn honours_map_requests(calls0: Seq<ElfCall>, calls: Seq<ElfCall>) -> bool {
    forall|j: int|
        calls0.len() <= j < calls.len() ==> match #[trigger] calls[j] {
            ElfCall::MapRegion { addr, at, .. } => at == Some(addr),
            _ => true,
        }
}

/// Placing the first `oks.len()` sections asks to map each allocated one.
proof fn lemma_placement_maps(e: Elf64, f: Seq<Elf64Shdr>, name: Seq<char>, base: u64, oks: Seq<bool>, i: int) -> (j: int)
    requires
        0 <= i < oks.len(),
        allocates(e.elf_shdr@[i]),
    ensures
        0 <= j < placement_calls(e, f, name, base, oks).len(),
        placement_calls(e, f, name, base, oks)[j] == section_map_call(e, f, name, base, i, Some(f[i].sh_addr)),
    decreases oks.len(),
{
    let prev = placement_calls(e, f, name, base, oks.drop_last());
    if i < oks.len() - 1 {
        let j = lemma_placement_maps(e, f, name, base, oks.drop_last(), i);
        assert(placement_calls(e, f, name, base, oks)[j] == prev[j]);
        j
    } else {
        let j = prev.len() as int;
        assert(placement_calls(e, f, name, base, oks)[j] == section_place_calls(
            e,
            f,
            name,
            base,
            i,
            oks.last(),
        )[0]);
        j
    }
}

/// With a loader that maps every section where it is asked to, a
/// successful load lays the allocated sections out contiguously from
/// `base`: each at the end of the ones before it (`base` for the first)
/// rounded up to its alignment, at least 16.
pub proof fn law_sections_laid_out_from_base(
    e: Elf64,
    f: Elf64,
    name: Seq<char>,
    base: u64,
    obj: RelObject,
    ext: Map<Seq<char>, Option<u64>>,
    calls0: Seq<ElfCall>,
    calls: Seq<ElfCall>,
)
    requires
        load_calls(e, f, name, base, obj, ext, calls0, calls),
        honours_map_requests(calls0, calls),
    ensures
        forall|i: int|
            0 <= i < e.elf_shdr@.len() && allocates(#[trigger] e.elf_shdr@[i]) ==> f.elf_shdr@[i].sh_addr
                == align_up_spec(placed_end(placed(e, f.elf_shdr@, i), base), section_align(e.elf_shdr@[i])),
{
    let (oks, rss) = choose|oks: Seq<bool>, rss: Seq<Seq<(bool, Option<u64>)>>|
        #![trigger placement_calls(e, f.elf_shdr@, name, base, oks), relocation_outcome(f, symtab_result(e)->Ok_0, sym_values(symtab_result(e)->Ok_0, f.elf_shdr@, ext), rss)]
        {
            let syms = symtab_result(e)->Ok_0;
            let t = relocation_outcome(f, syms, sym_values(syms, f.elf_shdr@, ext), rss);
            &&& oks.len() == e.elf_shdr@.len()
            &&& rss.len() == e.elf_shdr@.len()
            &&& calls == calls0 + placement_calls(e, f.elf_shdr@, name, base, oks) + t.0
            &&& obj.skipped_relocations == saturated(t.1)
        };
    let syms = symtab_result(e)->Ok_0;
    let t = relocation_outcome(f, syms, sym_values(syms, f.elf_shdr@, ext), rss);
    let p = placement_calls(e, f.elf_shdr@, name, base, oks);
    assert forall|i: int| 0 <= i < e.elf_shdr@.len() && allocates(#[trigger] e.elf_shdr@[i]) implies f.elf_shdr@[i].sh_addr
        == align_up_spec(placed_end(placed(e, f.elf_shdr@, i), base), section_align(e.elf_shdr@[i])) by {
        let j = lemma_placement_maps(e, f.elf_shdr@, name, base, oks, i);
        assert(calls == calls0 + p + t.0);
        assert(calls[calls0.len() + j] == p[j]);
    }
}

/// Placement calls depend on the headers only through the addresses of
/// the sections they cover.
proof fn lemma_placement_calls_stable(
    e: Elf64,
    f1: Seq<Elf64Shdr>,
    f2: Seq<Elf64Shdr>,
    name: Seq<char>,
    base: u64,
    oks: Seq<bool>,
)
    requires
        forall|j: int| 0 <= j < oks.len() ==> #[trigger] f1[j].sh_addr == f2[j].sh_addr,
    ensures
        placement_calls(e, f1, name, base, oks) == placement_calls(e, f2, name, base, oks),
    decreases oks.len(),
{
    if oks.len() > 0 {
        lemma_placement_calls_stable(e, f1, f2, name, base, oks.drop_last());
        lemma_placed_stable(e, f1, f2, oks.len() - 1);
    }
}

/// The values the symbols resolve to, 0 for an unresolved one (see
/// [`sym_value`]).
pub open spec fn sym_values(syms: Seq<SymModel>, f: Seq<Elf64Shdr>, ext: Map<Seq<char>, Option<u64>>) -> Seq<u64> {
    Seq::new(
        syms.len(),
        |t: int|
            match sym_value(syms[t], f, ext) {
                Some(a) => a,
                None => 0,
            },
    )
}

/// The loader calls a successful load of `e` (giving `f`) made, the log
/// going from `calls0` to `calls`, and the relocations it skipped: the
/// placement of its sections, then the relocations against the resolved
/// symbol values, for the answers the loader gave.
pub open spec fn load_calls(
    e: Elf64,
    f: Elf64,
    name: Seq<char>,
    base: u64,
    obj: RelObject,
    ext: Map<Seq<char>, Option<u64>>,
    calls0: Seq<ElfCall>,
    calls: Seq<ElfCall>,
) -> bool {
    exists|oks: Seq<bool>, rss: Seq<Seq<(bool, Option<u64>)>>|
        #![trigger placement_calls(e, f.elf_shdr@, name, base, oks), relocation_outcome(f, symtab_result(e)->Ok_0, sym_values(symtab_result(e)->Ok_0, f.elf_shdr@, ext), rss)]
        {
            let syms = symtab_result(e)->Ok_0;
            let t = relocation_outcome(f, syms, sym_values(syms, f.elf_shdr@, ext), rss);
            &&& oks.len() == e.elf_shdr@.len()
            &&& rss.len() == e.elf_shdr@.len()
            &&& calls == calls0 + placement_calls(e, f.elf_shdr@, name, base, oks) + t.0
            &&& obj.skipped_relocations == saturated(t.1)
        }
}

/// The relocation outcome of one entry depends on the object only through
/// its image, headers and machine.
proof fn lemma_offs_outcome_same(
    e1: Elf64,
    e2: Elf64,
    syms: Seq<SymModel>,
    vals: Seq<u64>,
    offs: Seq<int>,
    base: u64,
    rs: Seq<(bool, Option<u64>)>,
)
    requires
        e1.bin@ == e2.bin@,
        e1.elf_hdr == e2.elf_hdr,
    ensures
        offs_outcome(e1, syms, vals, offs, base, rs) == offs_outcome(e2, syms, vals, offs, base, rs),
    decreases offs.len(),
{
    if offs.len() > 0 {
        lemma_offs_outcome_same(e1, e2, syms, vals, offs.drop_last(), base, rs.drop_last());
    }
}

proof fn lemma_relocation_outcome_same(
    e1: Elf64,
    e2: Elf64,
    syms: Seq<SymModel>,
    vals: Seq<u64>,
    rss: Seq<Seq<(bool, Option<u64>)>>,
)
    requires
        e1.bin@ == e2.bin@,
        e1.elf_hdr == e2.elf_hdr,
        e1.elf_shdr@ == e2.elf_shdr@,
    ensures
        relocation_outcome(e1, syms, vals, rss) == relocation_outcome(e2, syms, vals, rss),
    decreases rss.len(),
{
    if rss.len() > 0 {
        lemma_relocation_outcome_same(e1, e2, syms, vals, rss.drop_last());
        let i = rss.len() - 1;
        if rela_applied(e1, i) {
            let sh = e1.elf_shdr@[i];
            let ent = entry_size(sh, ELF64_RELA_SIZE as int);
            lemma_offs_outcome_same(
                e1,
                e2,
                syms,
                vals,
                entry_offsets(e1.bin@.len() as int, sh.sh_offset as usize as int, entry_count(sh, ent), ent),
                e1.elf_shdr@[sh.sh_info as usize as int].sh_addr,
                rss.last(),
            );
        }
    }
}

/// No message a load fails with past the type check is the one the type
/// check gives.
proof fn lemma_not_type_message(n: Seq<char>)
    ensures
        cannot_map_message(n) != "not an ET_REL object"@,
        past_end_message(n) != "not an ET_REL object"@,
        "object has no .symtab"@ != "not an ET_REL object"@,
        ".symtab sh_link is out of range"@ != "not an ET_REL object"@,
{
    reveal_strlit("not an ET_REL object");
    reveal_strlit("cannot map section ");
    reveal_strlit("section ");
    reveal_strlit("object has no .symtab");
    reveal_strlit(".symtab sh_link is out of range");
    assert(cannot_map_message(n)[0] == 'c');
    assert(past_end_message(n)[0] == 's');
    assert("object has no .symtab"@[0] == 'o');
    assert(".symtab sh_link is out of range"@[0] == '.');
    assert("not an ET_REL object"@[0] == 'n');
}

/// `msg` is what placing section `i` of `e` can fail with.
pub open spec fn placement_error(e: Elf64, msg: Seq<char>) -> bool {
    exists|i: int|
        0 <= i < e.elf_shdr@.len() && allocates(#[trigger] e.elf_shdr@[i]) && {
            let n = section_name(e, e.elf_shdr@[i].sh_name as int);
            msg == cannot_map_message(n) || (!data_fits(e.elf_shdr@[i], e.bin@.len() as int) && msg
                == past_end_message(n))
        }
}

/// Every `RELA` table can be read without overflowing an offset.
pub open spec fn relas_fit(e: Elf64) -> bool {
    forall|i: int|
        0 <= i < e.elf_shdr@.len() && (#[trigger] e.elf_shdr@[i]).sh_type == SHT_RELA ==> {
            let sh = e.elf_shdr@[i];
            let ent = entry_size(sh, ELF64_RELA_SIZE as int);
            walk_fits(sh.sh_offset as usize as int, entry_count(sh, ent), ent, e.bin@.len() as int)
        }
}

/// The address a symbol resolves to, given the placed section headers `f`
/// and the resolver's answers `ext` for external names; `None` when it is
/// unresolved (declined by the resolver, or a common symbol).
pub open spec fn sym_value(s: SymModel, f: Seq<Elf64Shdr>, ext: Map<Seq<char>, Option<u64>>) -> Option<u64> {
    if s.st_shndx == SHN_UNDEF {
        if s.name.len() == 0 {
            Some(0)
        } else {
            ext[s.name]
        }
    } else if s.st_shndx == SHN_ABS {
        Some(s.st_value)
    } else if s.st_shndx == SHN_COMMON {
        None
    } else if (s.st_shndx as int) < f.len() && f[s.st_shndx as int].sh_addr != 0 {
        Some(u64_specs::wrapping_add(f[s.st_shndx as int].sh_addr, s.st_value))
    } else {
        Some(0)
    }
}

pub open spec fn is_external(s: SymModel) -> bool {
    s.st_shndx == SHN_UNDEF && s.name.len() > 0
}

/// A defined symbol as plain values.
pub ghost struct RelSymModel {
    pub name: Seq<char>,
    pub addr: u64,
    pub size: u64,
    pub is_func: bool,
    pub is_global: bool,
}

pub open spec fn rel_symbol_model(s: RelSymbol) -> RelSymModel {
    RelSymModel { name: s.name@, addr: s.addr, size: s.size, is_func: s.is_func, is_global: s.is_global }
}

/// The symbol has a name and a non-zero address.
pub open spec fn named_at(s: SymModel, v: Option<u64>) -> bool {
    v is Some && v->0 != 0 && s.name.len() > 0
}

/// The symbols among the first `upto` that the object defines.
pub open spec fn defined_symbols(
    syms: Seq<SymModel>,
    f: Seq<Elf64Shdr>,
    ext: Map<Seq<char>, Option<u64>>,
    upto: int,
) -> Seq<RelSymModel>
    decreases upto,
{
    if upto <= 0 {
        Seq::empty()
    } else {
        let prev = defined_symbols(syms, f, ext, upto - 1);
        let s = syms[upto - 1];
        let v = sym_value(s, f, ext);
        if named_at(s, v) && s.st_shndx != SHN_UNDEF {
            prev.push(
                RelSymModel {
                    name: s.name,
                    addr: v->0,
                    size: s.st_size,
                    is_func: s.st_info & 0xf == STT_FUNC,
                    is_global: (s.st_info >> 4u8) != STB_LOCAL,
                },
            )
        } else {
            prev
        }
    }
}

/// Address-to-name entries of the first `upto` symbols (later ones win).
pub open spec fn symbol_addresses(
    syms: Seq<SymModel>,
    f: Seq<Elf64Shdr>,
    ext: Map<Seq<char>, Option<u64>>,
    upto: int,
) -> Map<u64, Seq<char>>
    decreases upto,
{
    if upto <= 0 {
        Map::empty()
    } else {
        let prev = symbol_addresses(syms, f, ext, upto - 1);
        let s = syms[upto - 1];
        let v = sym_value(s, f, ext);
        if named_at(s, v) {
            prev.insert(v->0, s.name)
        } else {
            prev
        }
    }
}

/// Names of the unresolved symbols among the first `upto`, in order.
pub open spec fn unresolved_names(
    syms: Seq<SymModel>,
    f: Seq<Elf64Shdr>,
    ext: Map<Seq<char>, Option<u64>>,
    upto: int,
) -> Seq<Seq<char>>
    decreases upto,
{
    if upto <= 0 {
        Seq::empty()
    } else {
        let prev = unresolved_names(syms, f, ext, upto - 1);
        let s = syms[upto - 1];
        if sym_value(s, f, ext) is None {
            prev.push(s.name)
        } else {
            prev
        }
    }
}

/// `ext` answers the external names of the symbols, and nothing else.
pub open spec fn answers_externals(syms: Seq<SymModel>, ext: Map<Seq<char>, Option<u64>>) -> bool {
    &&& forall|t: int| 0 <= t < syms.len() && is_external(#[trigger] syms[t]) ==> ext.contains_key(syms[t].name)
    &&& forall|k: Seq<char>| #[trigger] ext.contains_key(k) ==> asked_name(syms, k, syms.len() as int)
}

/// Some external symbol among the first `upto` is named `k`.
pub open spec fn asked_name(syms: Seq<SymModel>, k: Seq<char>, upto: int) -> bool {
    exists|t: int| 0 <= t < upto && is_external(#[trigger] syms[t]) && syms[t].name == k
}

/// Each answer in `ext` is one the resolver `F` can give for its name.
pub open spec fn answered_by<F: FnMut(&str) -> Option<u64>>(ext: Map<Seq<char>, Option<u64>>) -> bool {
    forall|k: Seq<char>|
        #[trigger] ext.contains_key(k) ==> exists|g: F, n: &str| n@ == k && call_ensures(g, (n,), ext[k])
}

pub open spec fn addr_names_view(m: Map<u64, String>) -> Map<u64, Seq<char>> {
    Map::new(|k: u64| m.dom().contains(k), |k: u64| m[k]@)
}

/// What a successful load gives, besides the relocations it applied:
/// `e` before, `f` after, `ext` the resolver's answers.
pub open spec fn load_outcome(e: Elf64, f: Elf64, base: u64, obj: RelObject, ext: Map<Seq<char>, Option<u64>>) -> bool {
    &&& e.elf_hdr.e_type == ET_REL
    &&& sections_fit(e)
    &&& f.bin@ == e.bin@
    &&& f.elf_hdr == e.elf_hdr
    &&& same_but_addr(e.elf_shdr@, f.elf_shdr@)
    &&& forall|i: int|
        0 <= i < e.elf_shdr@.len() && !allocates(#[trigger] e.elf_shdr@[i]) ==> f.elf_shdr@[i].sh_addr
            == 0
    &&& f.base == base
    &&& obj.base == base
    &&& obj.sections@.map_values(|s: RelSection| sec_model(s)) == placed(e, f.elf_shdr@, e.elf_shdr@.len() as int)
    &&& obj.size == if placed_end(placed(e, f.elf_shdr@, e.elf_shdr@.len() as int), base) >= base {
        (placed_end(placed(e, f.elf_shdr@, e.elf_shdr@.len() as int), base) - base) as u64
    } else {
        0u64
    }
    &&& match symtab_result(e) {
        Ok(syms) => {
            &&& answers_externals(syms, ext)
            &&& obj.symbols@.map_values(|s: RelSymbol| rel_symbol_model(s)) == defined_symbols(syms, f.elf_shdr@, ext, syms.len() as int)
            &&& addr_names_view(f.addr_to_symbol@) == symbol_addresses(syms, f.elf_shdr@, ext, syms.len() as int)
            &&& strictly_sorted(strings_view(obj.unresolved@))
            &&& strings_view(obj.unresolved@).to_set() == unresolved_names(syms, f.elf_shdr@, ext, syms.len() as int).to_set()
        },
        Err(_) => false,
    }
}

proof fn lemma_shstrtab_same(e1: Elf64, e2: Elf64)
    requires
        e1.bin@ == e2.bin@,
        e1.elf_hdr == e2.elf_hdr,
        same_but_addr(e1.elf_shdr@, e2.elf_shdr@),
    ensures
        crate::elf64::shstrtab(e1) == crate::elf64::shstrtab(e2),
{
    let idx = e1.elf_hdr.e_shstrndx as int;
    if idx < e1.elf_shdr@.len() {
        assert(e1.elf_shdr@[idx].sh_offset == e2.elf_shdr@[idx].sh_offset);
    }
}

proof fn lemma_first_of_type_same(a: Seq<Elf64Shdr>, b: Seq<Elf64Shdr>, t: u32, start: int)
    requires
        same_but_addr(a, b),
    ensures
        first_of_type(a, t, start) == first_of_type(b, t, start),
    decreases a.len() - start,
{
    if 0 <= start < a.len() {
        assert(a[start].sh_type == b[start].sh_type);
        lemma_first_of_type_same(a, b, t, start + 1);
    }
}

proof fn lemma_symtab_same(e1: Elf64, e2: Elf64)
    requires
        e1.bin@ == e2.bin@,
        same_but_addr(e1.elf_shdr@, e2.elf_shdr@),
    ensures
        symtab_result(e1) == symtab_result(e2),
        symtab_fits(e1) == symtab_fits(e2),
{
    lemma_first_of_type_same(e1.elf_shdr@, e2.elf_shdr@, SHT_SYMTAB, 0);
    match symtab_index(e1) {
        None => {},
        Some(si) => {
            assert(0 <= si < e1.elf_shdr@.len()) by {
                lemma_first_of_type_range(e1.elf_shdr@, SHT_SYMTAB, 0);
            }
            let li = e1.elf_shdr@[si].sh_link as usize as int;
            if li < e1.elf_shdr@.len() {
                assert(e1.elf_shdr@[li].sh_offset == e2.elf_shdr@[li].sh_offset);
            }
        },
    }
}

proof fn lemma_first_of_type_range(a: Seq<Elf64Shdr>, t: u32, start: int)
    ensures
        match first_of_type(a, t, start) {
            Some(i) => 0 <= i < a.len() && a[i].sh_type == t,
            None => true,
        },
    decreases a.len() - start,
{
    if 0 <= start < a.len() && a[start].sh_type != t {
        lemma_first_of_type_range(a, t, start + 1);
    }
}

proof fn lemma_load_outcome(
    e: Elf64,
    f: Elf64,
    base: u64,
    obj: RelObject,
    ext: Map<Seq<char>, Option<u64>>,
    syms: Seq<SymModel>,
    cursor: u64,
)
    requires
        e.elf_hdr.e_type == ET_REL,
        sections_fit(e),
        f.bin@ == e.bin@,
        f.elf_hdr == e.elf_hdr,
        same_but_addr(e.elf_shdr@, f.elf_shdr@),
        forall|i: int|
            0 <= i < e.elf_shdr@.len() && !allocates(#[trigger] e.elf_shdr@[i]) ==> f.elf_shdr@[i].sh_addr
                == 0,
        f.base == base,
        obj.base == base,
        obj.sections@.map_values(|s: RelSection| sec_model(s)) == placed(e, f.elf_shdr@, e.elf_shdr@.len() as int),
        cursor == placed_end(placed(e, f.elf_shdr@, e.elf_shdr@.len() as int), base),
        obj.size == (if cursor >= base {
            (cursor - base) as u64
        } else {
            0u64
        }),
        symtab_result(e) == Ok::<Seq<SymModel>, Seq<char>>(syms),
        answers_externals(syms, ext),
        obj.symbols@.map_values(|s: RelSymbol| rel_symbol_model(s)) == defined_symbols(syms, f.elf_shdr@, ext, syms.len() as int),
        addr_names_view(f.addr_to_symbol@) == symbol_addresses(syms, f.elf_shdr@, ext, syms.len() as int),
        strictly_sorted(strings_view(obj.unresolved@)),
        strings_view(obj.unresolved@).to_set() == unresolved_names(syms, f.elf_shdr@, ext, syms.len() as int).to_set(),
    ensures
        load_outcome(e, f, base, obj, ext),
{
}

proof fn lemma_relas_same(e1: Elf64, e2: Elf64)
    requires
        e1.bin@ == e2.bin@,
        same_but_addr(e1.elf_shdr@, e2.elf_shdr@),
        relas_fit(e1),
    ensures
        relas_fit(e2),
{
    assert forall|i: int|
        0 <= i < e2.elf_shdr@.len() && (#[trigger] e2.elf_shdr@[i]).sh_type == SHT_RELA implies {
            let sh = e2.elf_shdr@[i];
            let ent = entry_size(sh, ELF64_RELA_SIZE as int);
            walk_fits(sh.sh_offset as usize as int, entry_count(sh, ent), ent, e2.bin@.len() as int)
        } by {
        assert(e1.elf_shdr@[i].sh_type == SHT_RELA);
    }
}

proof fn lemma_placed_stable(e: Elf64, f1: Seq<Elf64Shdr>, f2: Seq<Elf64Shdr>, upto: int)
    requires
        forall|j: int| 0 <= j < upto ==> #[trigger] f1[j].sh_addr == f2[j].sh_addr,
    ensures
        placed(e, f1, upto) == placed(e, f2, upto),
    decreases upto,
{
    if upto > 0 {
        lemma_placed_stable(e, f1, f2, upto - 1);
    }
}

/// `ext2` extends `ext1`: it answers everything `ext1` answers, alike.
pub open spec fn ext_extends(ext1: Map<Seq<char>, Option<u64>>, ext2: Map<Seq<char>, Option<u64>>) -> bool {
    forall|k: Seq<char>| #[trigger] ext1.contains_key(k) ==> ext2.contains_key(k) && ext2[k] == ext1[k]
}

proof fn lemma_symbols_stable(
    syms: Seq<SymModel>,
    f: Seq<Elf64Shdr>,
    ext1: Map<Seq<char>, Option<u64>>,
    ext2: Map<Seq<char>, Option<u64>>,
    upto: int,
)
    requires
        upto <= syms.len(),
        ext_extends(ext1, ext2),
        forall|t: int| 0 <= t < upto && is_external(#[trigger] syms[t]) ==> ext1.contains_key(syms[t].name),
    ensures
        defined_symbols(syms, f, ext1, upto) == defined_symbols(syms, f, ext2, upto),
        symbol_addresses(syms, f, ext1, upto) == symbol_addresses(syms, f, ext2, upto),
        unresolved_names(syms, f, ext1, upto) == unresolved_names(syms, f, ext2, upto),
    decreases upto,
{
    if upto > 0 {
        lemma_symbols_stable(syms, f, ext1, ext2, upto - 1);
        let s = syms[upto - 1];
        if is_external(s) {
            assert(ext1.contains_key(s.name));
        }
        assert(sym_value(s, f, ext1) == sym_value(s, f, ext2));
    }
}

fn concat_strings(a: &str, b: &str) -> (s: String)
    ensures
        s@ == a@ + b@,
{
    let mut v = chars_of(a);
    let w = chars_of(b);
    let ghost start = v@;
    let mut i: usize = 0;
    while i < w.len()
        invariant
            i <= w@.len(),
            v@ == start + w@.subrange(0, i as int),
        decreases w@.len() - i,
    {
        v.push(w[i]);
        i = i + 1;
    }
    assert(w@.subrange(0, w@.len() as int) =~= w@);
    crate::text::string_from_chars(v.as_slice())
}

/// The cached answer for `key`, searching from the most recent entry.
pub open spec fn cache_answer(cache: Seq<(Seq<char>, Option<u64>)>, key: Seq<char>) -> Option<Option<u64>>
    decreases cache.len(),
{
    if cache.len() == 0 {
        None
    } else if cache.last().0 == key {
        Some(cache.last().1)
    } else {
        cache_answer(cache.drop_last(), key)
    }
}

pub open spec fn extern_cache_view(c: Seq<(String, Option<u64>)>) -> Seq<(Seq<char>, Option<u64>)> {
    c.map_values(|p: (String, Option<u64>)| (p.0@, p.1))
}

/// The cache holds exactly the answers of `ext`.
pub open spec fn cache_matches(cache: Seq<(Seq<char>, Option<u64>)>, ext: Map<Seq<char>, Option<u64>>) -> bool {
    forall|k: Seq<char>|
        #[trigger] cache_answer(cache, k) == if ext.contains_key(k) {
            Some(ext[k])
        } else {
            None
        }
}

fn extern_lookup(cache: &Vec<(String, Option<u64>)>, key: &str) -> (r: Option<Option<u64>>)
    ensures
        r == cache_answer(extern_cache_view(cache@), key@),
{
    let ghost cv = extern_cache_view(cache@);
    let mut i: usize = cache.len();
    assert(cv.subrange(0, cv.len() as int) =~= cv);
    while i > 0
        invariant
            cv == extern_cache_view(cache@),
            i <= cache@.len(),
            cache_answer(cv, key@) == cache_answer(cv.subrange(0, i as int), key@),
        decreases i,
    {
        let ghost pre = cv.subrange(0, i as int);
        assert(pre.last() == (cache@[i - 1].0@, cache@[i - 1].1));
        if str_eq(cache[i - 1].0.as_str(), key) {
            return Some(cache[i - 1].1);
        }
        assert(pre.drop_last() =~= cv.subrange(0, i - 1));
        i = i - 1;
    }
    None
}

impl Elf64 {
    /// Place every `SHF_ALLOC` section of a relocatable object
    /// contiguously from `base` (each aligned to at least 16), then resolve
    /// its symbols and apply its `SHT_RELA` relocations.
    ///
    /// `resolve_extern` is asked once per undefined symbol name; `None`
    /// leaves the symbol unresolved (recorded, its relocations skipped)
    /// rather than failing the load. Section placement, the writes and the
    /// addresses where sections land go through `loader`.
    #[verifier::rlimit(40)]
    pub fn load_relocatable<L: ElfLoader, F: FnMut(&str) -> Option<u64>>(
        &mut self,
        loader: &mut L,
        name: &str,
        base: u64,
        resolve_extern: &mut F,
    ) -> (r: Result<RelObject, ElfError>)
        requires
            old(self).elf_hdr.e_type == ET_REL ==> symtab_fits(*old(self)) && relas_fit(*old(self)),
            forall|g: F, n: &str| call_requires(g, (n,)),
        ensures
            (r matches Err(err) && err.message@ == "not an ET_REL object"@) <==> old(self).elf_hdr.e_type
                != ET_REL,
            old(self).elf_hdr.e_type != ET_REL ==> *final(self) == *old(self) && final(loader).calls()
                == old(loader).calls() && *final(resolve_extern) == *old(resolve_extern),
            old(self).elf_hdr.e_type == ET_REL && sections_fit(*old(self)) && symtab_result(*old(self)) is Ok
                && !map_refused(old(loader).calls(), final(loader).calls()) ==> r is Ok,
            match r {
                Ok(obj) => exists|ext: Map<Seq<char>, Option<u64>>|
                    #[trigger] load_outcome(*old(self), *final(self), base, obj, ext) && load_calls(
                        *old(self),
                        *final(self),
                        name@,
                        base,
                        obj,
                        ext,
                        old(loader).calls(),
                        final(loader).calls(),
                    ) && answered_by::<F>(ext),
                Err(err) => {
                    ||| err.message@ == "not an ET_REL object"@
                    ||| placement_error(*old(self), err.message@) && placement_failed(
                        *old(self),
                        final(self).elf_shdr@,
                        name@,
                        base,
                        old(loader).calls(),
                        final(loader).calls(),
                        err.message@,
                    )
                    ||| symtab_result(*old(self)) == Err::<Seq<SymModel>, Seq<char>>(err.message@) && exists|
                        oks: Seq<bool>,
                    |
                        oks.len() == old(self).elf_shdr@.len() && final(loader).calls() == old(loader).calls()
                            + #[trigger] placement_calls(*old(self), final(self).elf_shdr@, name@, base, oks)
                },
            },
    {
        if !self.is_relocatable() {
            return Err(ElfError::new("not an ET_REL object"));
        }
        let ghost e0 = *self;
        let ghost c0 = loader.calls();
        let mut sections: Vec<RelSection> = Vec::new();
        let cursor = match self.place_sections(loader, name, base, &mut sections) {
            Ok(c) => c,
            Err(err) => {
                proof {
                    if sections_fit(e0) {
                        lemma_failed_placement_refused(e0, self.elf_shdr@, name@, base, c0, loader.calls(), err.message@);
                    }
                }
                return Err(err);
            },
        };
        let ghost e1 = *self;
        let ghost c1 = loader.calls();
        let ghost oks = choose|oks: Seq<bool>|
            oks.len() == e0.elf_shdr@.len() && c1 == c0 + #[trigger] placement_calls(e0, e1.elf_shdr@, name@, base, oks);
        proof {
            lemma_symtab_same(e0, e1);
            lemma_relas_same(e0, e1);
        }
        let symbols = match self.parse_symtab() {
            Ok(s) => s,
            Err(err) => {
                proof {
                    lemma_not_type_message(Seq::empty());
                }
                return Err(err);
            },
        };
        let mut defined: Vec<RelSymbol> = Vec::new();
        let mut unresolved: Vec<String> = Vec::new();
        let (values, ext) = self.resolve_symbols(&symbols, resolve_extern, &mut defined, &mut unresolved);
        let unresolved_sorted = sorted_unique(&unresolved);
        let mut skipped: usize = 0;
        let ghost e2 = *self;
        self.apply_relocations(loader, &symbols, &values, &mut skipped);
        let ghost rss = choose|rss: Seq<Seq<(bool, Option<u64>)>>|
            rss.len() == e2.elf_shdr@.len() && {
                let t = #[trigger] relocation_outcome(e2, sym_models(symbols@), values@, rss);
                &&& loader.calls() == c1 + t.0
                &&& skipped == saturated(0 + t.1)
            };
        self.base = base;
        let obj = RelObject {
            base,
            size: cursor.saturating_sub(base),
            sections,
            symbols: defined,
            unresolved: unresolved_sorted,
            skipped_relocations: skipped,
        };
        proof {
            lemma_load_outcome(e0, *self, base, obj, ext@, symbols@.map_values(|s: Elf64Sym| sym_model(s)), cursor);
            assert(e0 == *old(self));
            assert(load_outcome(*old(self), *self, base, obj, ext@));
        }
        let r: Result<RelObject, ElfError> = Ok(obj);
        proof {
            let o = r->Ok_0;
            let syms = symtab_result(e0)->Ok_0;
            assert(sym_models(symbols@) == syms);
            assert(values@ =~= sym_values(syms, self.elf_shdr@, ext@));
            lemma_relocation_outcome_same(e2, *self, syms, values@, rss);
            assert(load_calls(*old(self), *self, name@, base, o, ext@, old(loader).calls(), loader.calls()));
            assert(load_outcome(*old(self), *self, base, o, ext@));
            assert(exists|x: Map<Seq<char>, Option<u64>>| #[trigger] load_outcome(*old(self), *self, base, o, x)
                && load_calls(*old(self), *self, name@, base, o, x, old(loader).calls(), loader.calls()));
        }
        r
    }

    /// Place the allocatable sections from `base`; the end of the placed
    /// image on success.
    #[verifier::rlimit(60)]
    fn place_sections<L: ElfLoader>(
        &mut self,
        loader: &mut L,
        name: &str,
        base: u64,
        sections: &mut Vec<RelSection>,
    ) -> (r: Result<u64, ElfError>)
        requires
            old(sections)@.len() == 0,
        ensures
            final(self).bin@ == old(self).bin@,
            final(self).elf_hdr == old(self).elf_hdr,
            final(self).base == old(self).base,
            final(self).addr_to_symbol == old(self).addr_to_symbol,
            same_but_addr(old(self).elf_shdr@, final(self).elf_shdr@),
            match r {
                Ok(cursor) => {
                    &&& sections_fit(*old(self))
                    &&& forall|i: int|
                        0 <= i < old(self).elf_shdr@.len() && !allocates(
                            #[trigger] old(self).elf_shdr@[i],
                        ) ==> final(self).elf_shdr@[i].sh_addr == 0
                    &&& final(sections)@.map_values(|s: RelSection| sec_model(s)) == placed(
                        *old(self),
                        final(self).elf_shdr@,
                        old(self).elf_shdr@.len() as int,
                    )
                    &&& cursor == placed_end(
                        placed(*old(self), final(self).elf_shdr@, old(self).elf_shdr@.len() as int),
                        base,
                    )
                },
                Err(err) => placement_error(*old(self), err.message@),
            },
            match r {
                Ok(_) => exists|oks: Seq<bool>|
                    oks.len() == old(self).elf_shdr@.len() && final(loader).calls() == old(loader).calls()
                        + #[trigger] placement_calls(*old(self), final(self).elf_shdr@, name@, base, oks),
                Err(err) => placement_failed(
                    *old(self),
                    final(self).elf_shdr@,
                    name@,
                    base,
                    old(loader).calls(),
                    final(loader).calls(),
                    err.message@,
                ) && err.message@ != "not an ET_REL object"@,
            },
    {
        let ghost e = *self;
        let n = self.elf_shdr.len();
        let mut cursor = base;
        let mut i: usize = 0;
        let ghost mut oks: Seq<bool> = Seq::empty();
        assert(loader.calls() =~= old(loader).calls() + placement_calls(e, self.elf_shdr@, name@, base, oks));
        assert(sections@.map_values(|s: RelSection| sec_model(s)) =~= placed(e, self.elf_shdr@, 0));
        while i < n
            invariant
                e == *old(self),
                n == e.elf_shdr@.len(),
                i <= n,
                self.bin@ == e.bin@,
                self.elf_hdr == e.elf_hdr,
                self.base == e.base,
                self.addr_to_symbol == e.addr_to_symbol,
                same_but_addr(e.elf_shdr@, self.elf_shdr@),
                forall|j: int| i <= j < n ==> #[trigger] self.elf_shdr@[j] == e.elf_shdr@[j],
                forall|j: int|
                    0 <= j < i && !allocates(#[trigger] e.elf_shdr@[j]) ==> self.elf_shdr@[j].sh_addr
                        == 0,
                forall|j: int| 0 <= j < i ==> data_fits(#[trigger] e.elf_shdr@[j], e.bin@.len() as int),
                sections@.map_values(|s: RelSection| sec_model(s)) == placed(e, self.elf_shdr@, i as int),
                cursor == placed_end(placed(e, self.elf_shdr@, i as int), base),
                oks.len() == i,
                loader.calls() == old(loader).calls() + placement_calls(e, self.elf_shdr@, name@, base, oks),
            decreases n - i,
        {
            let sh = self.elf_shdr[i];
            assert(sh == e.elf_shdr@[i as int]);
            let ghost calls_before = loader.calls();
            if sh.sh_flags & SHF_ALLOC == 0 || sh.sh_size == 0 {
                let ghost before = self.elf_shdr@;
                let mut s2 = sh;
                s2.sh_addr = 0;
                self.elf_shdr.set(i, s2);
                proof {
                    lemma_placed_stable(e, before, self.elf_shdr@, i as int);
                    assert(placed(e, self.elf_shdr@, i + 1) == placed(e, self.elf_shdr@, i as int));
                    lemma_placement_calls_stable(e, before, self.elf_shdr@, name@, base, oks);
                    let o2 = oks.push(false);
                    assert(o2.drop_last() =~= oks);
                    assert(!allocates(e.elf_shdr@[i as int]));
                    assert(loader.calls() =~= old(loader).calls() + placement_calls(e, self.elf_shdr@, name@, base, o2));
                    oks = o2;
                }
                i = i + 1;
                continue;
            }
            proof {
                lemma_shstrtab_same(e, *self);
            }
            let sname = self.get_section_name(sh.sh_name as usize);
            let align = if sh.sh_addralign > 16 {
                sh.sh_addralign
            } else {
                16
            };
            cursor = align_up(cursor, align);
            let perm = Perm::from_flags(true, sh.sh_flags & SHF_WRITE != 0, sh.sh_flags & SHF_EXECINSTR != 0);
            let map_name = concat_strings(name, sname.as_str());
            let mapped = loader.map(map_name.as_str(), cursor, sh.sh_size, perm);
            assert(allocates(e.elf_shdr@[i as int]));
            assert(loader.calls() == old(loader).calls() + placement_calls(e, self.elf_shdr@, name@, base, oks).push(
                section_map_call(e, self.elf_shdr@, name@, base, i as int, mapped),
            ));
            let addr = match mapped {
                Some(a) => a,
                None => {
                    let msg = concat_strings("cannot map section ", sname.as_str());
                    assert(placement_error(e, msg@)) by {
                        assert(allocates(e.elf_shdr@[i as int]));
                    }
                    assert(placement_calls(e, self.elf_shdr@, name@, base, oks) == placement_calls(
                        e, self.elf_shdr@, name@, base, oks));
                    let err = ElfError::new(msg.as_str());
                    assert(placement_failed(e, self.elf_shdr@, name@, base, old(loader).calls(), loader.calls(), err.message@));
                    proof {
                        lemma_not_type_message(sname@);
                    }
                    return Err(err);
                },
            };
            let ghost after_map = loader.calls();
            let ghost mut ok: bool = false;
            if sh.sh_type != SHT_NOBITS {
                let off = sh.sh_offset as usize;
                let end = off.saturating_add(sh.sh_size as usize);
                if end > self.bin.len() {
                    let m1 = concat_strings("section ", sname.as_str());
                    let msg = concat_strings(m1.as_str(), " extends past end of object");
                    assert(placement_error(e, msg@)) by {
                        assert(allocates(e.elf_shdr@[i as int]));
                        assert(!data_fits(e.elf_shdr@[i as int], e.bin@.len() as int));
                    }
                    let err = ElfError::new(msg.as_str());
                    assert(!data_fits(e.elf_shdr@[i as int], e.bin@.len() as int));
                    assert(placement_failed(e, self.elf_shdr@, name@, base, old(loader).calls(), loader.calls(), err.message@));
                    proof {
                        lemma_not_type_message(sname@);
                    }
                    return Err(err);
                }
                let data = vstd::slice::slice_subrange(self.bin.as_slice(), off, end);
                let w = loader.write_bytes(addr, data);
                proof {
                    ok = w;
                }
            }
            let ghost before = self.elf_shdr@;
            let mut s2 = sh;
            s2.sh_addr = addr;
            self.elf_shdr.set(i, s2);
            cursor = addr.wrapping_add(sh.sh_size);
            let sec = RelSection { index: i, name: sname, addr, size: sh.sh_size, perm };
            proof {
                lemma_placed_stable(e, before, self.elf_shdr@, i as int);
                lemma_placement_calls_stable(e, before, self.elf_shdr@, name@, base, oks);
                let o2 = oks.push(ok);
                assert(o2.drop_last() =~= oks);
                assert(section_map_call(e, before, name@, base, i as int, mapped) == section_map_call(
                    e, self.elf_shdr@, name@, base, i as int, Some(self.elf_shdr@[i as int].sh_addr)));
                assert(loader.calls() =~= old(loader).calls() + placement_calls(e, self.elf_shdr@, name@, base, o2));
                oks = o2;
                let prev = sections@.map_values(|s: RelSection| sec_model(s));
                assert(sections@.push(sec).map_values(|s: RelSection| sec_model(s)) =~= prev.push(sec_model(sec)));
            }
            sections.push(sec);
            i = i + 1;
        }
        proof {
            assert forall|j: int| 0 <= j < n implies data_fits(#[trigger] e.elf_shdr@[j], e.bin@.len() as int) by {}
        }
        Ok(cursor)
    }

    /// Resolve every symbol: the value of each (0 when unresolved), the
    /// object's defined symbols, the unresolved names (in symbol order) and
    /// the resolver's answers.
    fn resolve_symbols<F: FnMut(&str) -> Option<u64>>(
        &mut self,
        symbols: &Vec<Elf64Sym>,
        resolve_extern: &mut F,
        defined: &mut Vec<RelSymbol>,
        unresolved: &mut Vec<String>,
    ) -> (r: (Vec<u64>, Ghost<Map<Seq<char>, Option<u64>>>))
        requires
            forall|g: F, n: &str| call_requires(g, (n,)),
            old(defined)@.len() == 0,
            old(unresolved)@.len() == 0,
        ensures
            final(self).bin@ == old(self).bin@,
            final(self).elf_hdr == old(self).elf_hdr,
            final(self).elf_shdr@ == old(self).elf_shdr@,
            final(self).base == old(self).base,
            ({
                let syms = symbols@.map_values(|s: Elf64Sym| sym_model(s));
                let f = old(self).elf_shdr@;
                let ext = r.1@;
                &&& answers_externals(syms, ext)
                &&& answered_by::<F>(ext)
                &&& r.0@.len() == syms.len()
                &&& forall|t: int| 0 <= t < syms.len() ==> #[trigger] r.0@[t] == match sym_value(syms[t], f, ext) {
                    Some(a) => a,
                    None => 0,
                }
                &&& final(defined)@.map_values(|s: RelSymbol| rel_symbol_model(s)) == defined_symbols(syms, f, ext, syms.len() as int)
                &&& addr_names_view(final(self).addr_to_symbol@) == symbol_addresses(syms, f, ext, syms.len() as int)
                &&& strings_view(final(unresolved)@) == unresolved_names(syms, f, ext, syms.len() as int)
            }),
    {
        let ghost syms = symbols@.map_values(|s: Elf64Sym| sym_model(s));
        let ghost f = self.elf_shdr@;
        let ghost mut ext: Map<Seq<char>, Option<u64>> = Map::empty();
        let mut externs: Vec<(String, Option<u64>)> = Vec::new();
        let mut values: Vec<u64> = Vec::new();
        self.sym_to_addr.clear();
        self.addr_to_symbol.clear();
        assert(addr_names_view(self.addr_to_symbol@) =~= symbol_addresses(syms, f, ext, 0));
        assert(defined@.map_values(|s: RelSymbol| rel_symbol_model(s)) =~= defined_symbols(syms, f, ext, 0));
        assert(strings_view(unresolved@) =~= unresolved_names(syms, f, ext, 0));
        let mut i: usize = 0;
        while i < symbols.len()
            invariant
                syms == symbols@.map_values(|s: Elf64Sym| sym_model(s)),
                f == self.elf_shdr@,
                f == old(self).elf_shdr@,
                self.bin@ == old(self).bin@,
                self.elf_hdr == old(self).elf_hdr,
                self.base == old(self).base,
                forall|g: F, n: &str| call_requires(g, (n,)),
                i <= symbols@.len(),
                values@.len() == i,
                cache_matches(extern_cache_view(externs@), ext),
                forall|t: int| 0 <= t < i && is_external(#[trigger] syms[t]) ==> ext.contains_key(syms[t].name),
                forall|k: Seq<char>| #[trigger] ext.contains_key(k) ==> asked_name(syms, k, i as int),
                answered_by::<F>(ext),
                forall|t: int| 0 <= t < i ==> #[trigger] values@[t] == match sym_value(syms[t], f, ext) {
                    Some(a) => a,
                    None => 0,
                },
                defined@.map_values(|s: RelSymbol| rel_symbol_model(s)) == defined_symbols(syms, f, ext, i as int),
                addr_names_view(self.addr_to_symbol@) == symbol_addresses(syms, f, ext, i as int),
                strings_view(unresolved@) == unresolved_names(syms, f, ext, i as int),
            decreases symbols@.len() - i,
        {
            let sym = &symbols[i];
            let ghost s = syms[i as int];
            assert(s == sym_model(*sym));
            let ghost ext_before = ext;
            let value: Option<u64> = if sym.st_shndx == SHN_UNDEF {
                if sym.st_dynstr_name.as_str().is_empty() {
                    Some(0)
                } else {
                    match extern_lookup(&externs, sym.st_dynstr_name.as_str()) {
                        Some(cached) => cached,
                        None => {
                            // Asked once per name: the resolver may create a
                            // stub on each call.
                            let ghost g0 = *resolve_extern;
                            let nm = sym.st_dynstr_name.as_str();
                            let answer = resolve_extern(nm);
                            assert(call_ensures(g0, (nm,), answer));
                            let key = sym.st_dynstr_name.clone();
                            proof {
                                let k = sym.st_dynstr_name@;
                                assert(!ext.contains_key(k));
                                let cv = extern_cache_view(externs@);
                                let new_ext = ext.insert(k, answer);
                                assert(is_external(syms[i as int]));
                                assert forall|q: Seq<char>| #[trigger] new_ext.contains_key(q) implies asked_name(syms, q, i + 1) by {
                                    if q != k {
                                        let t = choose|t: int| 0 <= t < i && is_external(#[trigger] syms[t]) && syms[t].name == q;
                                        assert(0 <= t < i + 1 && is_external(syms[t]) && syms[t].name == q);
                                    } else {
                                        assert(0 <= i < i + 1 && is_external(syms[i as int]) && syms[i as int].name == q);
                                    }
                                }
                                assert forall|q: Seq<char>| #[trigger] new_ext.contains_key(q) implies exists|g: F, n: &str| n@ == q && call_ensures(g, (n,), new_ext[q]) by {
                                    if q == k {
                                        assert(nm@ == q && call_ensures(g0, (nm,), new_ext[q]));
                                    } else {
                                        assert(ext.contains_key(q));
                                        assert(new_ext[q] == ext[q]);
                                    }
                                }
                                let ncv = extern_cache_view(externs@.push((key, answer)));
                                assert(ncv =~= cv.push((k, answer)));
                                assert forall|q: Seq<char>| #[trigger] cache_answer(ncv, q) == if new_ext.contains_key(q) {
                                    Some(new_ext[q])
                                } else {
                                    None
                                } by {
                                    assert(ncv.drop_last() =~= cv);
                                    assert(cache_answer(cv, q) == if ext.contains_key(q) {
                                        Some(ext[q])
                                    } else {
                                        None
                                    });
                                }
                                ext = new_ext;
                            }
                            externs.push((key, answer));
                            answer
                        },
                    }
                }
            } else if sym.st_shndx == SHN_ABS {
                Some(sym.st_value)
            } else if sym.st_shndx == SHN_COMMON {
                None
            } else {
                let idx = sym.st_shndx as usize;
                if idx < self.elf_shdr.len() && self.elf_shdr[idx].sh_addr != 0 {
                    Some(self.elf_shdr[idx].sh_addr.wrapping_add(sym.st_value))
                } else {
                    Some(0)
                }
            };
            proof {
                if is_external(s) {
                    assert(cache_answer(extern_cache_view(externs@), s.name) == Some(ext[s.name]));
                }
                assert(ext_extends(ext_before, ext));
                lemma_symbols_stable(syms, f, ext_before, ext, i as int);
                assert(value == sym_value(s, f, ext));
                assert forall|t: int| 0 <= t < i implies #[trigger] values@[t] == match sym_value(syms[t], f, ext) {
                    Some(a) => a,
                    None => 0,
                } by {
                    if is_external(syms[t]) {
                        assert(ext_before.contains_key(syms[t].name));
                    }
                    assert(sym_value(syms[t], f, ext_before) == sym_value(syms[t], f, ext));
                }
            }
            let v = match value {
                Some(a) => a,
                None => 0,
            };
            values.push(v);
            match value {
                Some(addr) => {
                    if addr != 0 && !sym.st_dynstr_name.as_str().is_empty() {
                        let is_global = (sym.st_info >> 4u8) != STB_LOCAL;
                        if sym.st_shndx != SHN_UNDEF {
                            let rs = RelSymbol {
                                name: sym.st_dynstr_name.clone(),
                                addr,
                                size: sym.st_size,
                                is_func: sym.get_st_type() == STT_FUNC,
                                is_global,
                            };
                            proof {
                                let prev = defined@.map_values(|x: RelSymbol| rel_symbol_model(x));
                                assert(defined@.push(rs).map_values(|x: RelSymbol| rel_symbol_model(x)) =~= prev.push(rel_symbol_model(rs)));
                            }
                            defined.push(rs);
                        }
                        self.sym_to_addr.insert(sym.st_dynstr_name.clone(), addr);
                        let nm = sym.st_dynstr_name.clone();
                        proof {
                            assert(addr_names_view(self.addr_to_symbol@.insert(addr, nm)) =~= addr_names_view(self.addr_to_symbol@).insert(addr, nm@));
                        }
                        self.addr_to_symbol.insert(addr, nm);
                    }
                },
                None => {
                    let nm = sym.st_dynstr_name.clone();
                    proof {
                        assert(strings_view(unresolved@.push(nm)) =~= strings_view(unresolved@).push(nm@));
                    }
                    unresolved.push(nm);
                },
            }
            i = i + 1;
        }
        (values, Ghost(ext))
    }

    /// Apply every `SHT_RELA` table whose target section was placed,
    /// counting the relocations skipped (unresolved symbol, unsupported
    /// type, or a write the loader refused) into `skipped` with saturating
    /// additions: the loader calls and the count are those of
    /// [`relocation_outcome`] for the answers the loader gave.
    #[verifier::rlimit(60)]
    fn apply_relocations<L: ElfLoader>(
        &self,
        loader: &mut L,
        symbols: &Vec<Elf64Sym>,
        values: &Vec<u64>,
        skipped: &mut usize,
    )
        requires
            relas_fit(*self),
            values@.len() == symbols@.len(),
        ensures
            exists|rss: Seq<Seq<(bool, Option<u64>)>>|
                rss.len() == self.elf_shdr@.len() && {
                    let t = #[trigger] relocation_outcome(*self, sym_models(symbols@), values@, rss);
                    &&& final(loader).calls() == old(loader).calls() + t.0
                    &&& *final(skipped) == saturated(*old(skipped) + t.1)
                },
    {
        let machine = self.elf_hdr.e_machine;
        let n = self.elf_shdr.len();
        let ghost s0 = *skipped as int;
        let ghost mut rss: Seq<Seq<(bool, Option<u64>)>> = Seq::empty();
        let mut i: usize = 0;
        assert(loader.calls() =~= old(loader).calls() + relocation_outcome(*self, sym_models(symbols@), values@, rss).0);
        while i < n
            invariant
                n == self.elf_shdr@.len(),
                i <= n,
                relas_fit(*self),
                values@.len() == symbols@.len(),
                machine == self.elf_hdr.e_machine,
                s0 == *old(skipped),
                rss.len() == i,
                ({
                    let t = relocation_outcome(*self, sym_models(symbols@), values@, rss);
                    &&& t.1 >= 0
                    &&& loader.calls() == old(loader).calls() + t.0
                    &&& *skipped == saturated(s0 + t.1)
                }),
            decreases n - i,
        {
            let ghost before = relocation_outcome(*self, sym_models(symbols@), values@, rss);
            let ghost mut rs: Seq<(bool, Option<u64>)> = Seq::empty();
            let sh = self.elf_shdr[i];
            let target_idx = sh.sh_info as usize;
            if sh.sh_type == SHT_RELA && target_idx < n && self.elf_shdr[target_idx].sh_addr != 0 {
                let target_base = self.elf_shdr[target_idx].sh_addr;
                assert(self.elf_shdr@[i as int].sh_type == SHT_RELA);
                assert(rela_applied(*self, i as int));
                let entsize: usize = if sh.sh_entsize == 0 {
                    Elf64Rela::size()
                } else {
                    sh.sh_entsize as usize
                };
                let div: usize = if entsize == 0 {
                    1
                } else {
                    entsize
                };
                let count: usize = (sh.sh_size as usize) / div;
                let mut off: usize = sh.sh_offset as usize;
                let mut k: usize = 0;
                let ghost len = self.bin@.len() as int;
                let ghost all = entry_offsets(len, sh.sh_offset as usize as int, count as int, entsize as int);
                let ghost mut done: Seq<int> = Seq::empty();
                assert(entsize as int == entry_size(sh, ELF64_RELA_SIZE as int));
                assert(count as int == entry_count(sh, entsize as int));
                assert(all =~= done + entry_offsets(len, off as int, count - k, entsize as int));
                assert(loader.calls() =~= old(loader).calls() + before.0 + offs_outcome(
                    *self, sym_models(symbols@), values@, done, target_base, rs).0);
                while k < count && off + ELF64_RELA_SIZE <= self.bin.len()
                    invariant
                        k <= count,
                        walk_fits(sh.sh_offset as usize as int, count as int, entsize as int, self.bin@.len() as int),
                        k > 0 ==> off + 24 <= self.bin@.len() + entsize,
                        k == 0 ==> off == sh.sh_offset as usize,
                        values@.len() == symbols@.len(),
                        machine == self.elf_hdr.e_machine,
                        len == self.bin@.len(),
                        all == done + entry_offsets(len, off as int, count - k, entsize as int),
                        rs.len() == done.len(),
                        before.1 >= 0,
                        ({
                            let d = offs_outcome(*self, sym_models(symbols@), values@, done, target_base, rs);
                            &&& d.1 >= 0
                            &&& loader.calls() == old(loader).calls() + before.0 + d.0
                            &&& *skipped == saturated(s0 + before.1 + d.1)
                        }),
                    decreases count - k,
                {
                    let ghost cur = off as int;
                    let ghost d = offs_outcome(*self, sym_models(symbols@), values@, done, target_base, rs);
                    let ghost calls_before = loader.calls();
                    let rela = Elf64Rela::parse(self.bin.as_slice(), off);
                    let ghost prev = done;
                    let ghost prev_rs = rs;
                    let ghost mut res: (bool, Option<u64>) = (false, None);
                    proof {
                        assert(all =~= done.push(cur) + entry_offsets(len, cur + entsize, count - k - 1, entsize as int));
                        done = done.push(cur);
                        assert(done.drop_last() =~= prev);
                    }
                    off = off + entsize;
                    k = k + 1;
                    let sym_idx = rela.r_sym() as usize;
                    if sym_idx < values.len() {
                        let sym = &symbols[sym_idx];
                        if sym.st_shndx == SHN_UNDEF && !sym.st_dynstr_name.as_str().is_empty() && values[sym_idx] == 0 {
                            *skipped = skipped.saturating_add(1);
                        } else {
                            let place = target_base.wrapping_add(rela.r_offset);
                            let value = values[sym_idx];
                            let addend = rela.r_addend;
                            let rt = rela.r_type();
                            let applied = if machine == EM_AARCH64 {
                                let a = apply_aarch64(loader, rt, place, value, addend);
                                proof {
                                    res = choose|x: (bool, Option<u64>)|
                                        loader.calls() == calls_before + #[trigger] patch_calls(
                                            place,
                                            aarch64_patch_spec(rt, place, value, addend),
                                            x,
                                        ) && a == patch_ok(aarch64_patch_spec(rt, place, value, addend), x);
                                }
                                a
                            } else {
                                let a = apply_x86_64(loader, rt, place, value, addend);
                                proof {
                                    res = choose|x: (bool, Option<u64>)|
                                        loader.calls() == calls_before + #[trigger] patch_calls(
                                            place,
                                            x86_64_patch_spec(rt, place, value, addend),
                                            x,
                                        ) && a == patch_ok(x86_64_patch_spec(rt, place, value, addend), x);
                                }
                                a
                            };
                            if !applied {
                                *skipped = skipped.saturating_add(1);
                            }
                        }
                    }
                    proof {
                        rs = rs.push(res);
                        assert(rs.drop_last() =~= prev_rs);
                        let q = rela_outcome(machine, sym_models(symbols@), values@, rela, target_base, res);
                        assert(offs_outcome(*self, sym_models(symbols@), values@, done, target_base, rs) == (d.0 + q.0, d.1 + q.1));
                        assert(loader.calls() =~= old(loader).calls() + before.0 + (d.0 + q.0));
                    }
                }
                proof {
                    assert(entry_offsets(len, off as int, count - k, entsize as int) =~= Seq::<int>::empty());
                    assert(done =~= all);
                }
            }
            proof {
                let r2 = rss.push(rs);
                assert(r2.drop_last() =~= rss);
                let q = section_outcome(*self, sym_models(symbols@), values@, i as int, rs);
                assert(relocation_outcome(*self, sym_models(symbols@), values@, r2) == (before.0 + q.0, before.1 + q.1));
                assert(loader.calls() =~= old(loader).calls() + (before.0 + q.0));
                rss = r2;
            }
            i = i + 1;
        }
    }
}

} // verus!
