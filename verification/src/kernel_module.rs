//! Linking a Linux kernel module (`.ko`): which kernel symbols it imports,
//! where the OS enters it, and what it is called.

use vstd::prelude::*;
use crate::elf64::Elf64Sym;
use crate::emu::Maps;
use crate::memory::string_at;
use crate::relocatable::{first_section_named, symbol_lookup, RelObject, RelSymbol, SHN_UNDEF};
use crate::text::{chars_of, hex, push_hex, str_eq, string_from_chars, strings_view};
use crate::elf::EM_AARCH64;
use crate::emu::Arch;
use crate::relocatable::ET_REL;

verus! {

/// Offset of `name[]` inside the module's `struct module` on 64-bit:
/// `state` (4 bytes and 4 of padding) and a `struct list_head` (16).
pub const MODULE_NAME_OFFSET: u64 = 24;

/// An import as plain values.
pub open spec fn import_view(imports: Seq<(String, u64)>) -> Seq<(Seq<char>, u64)> {
    imports.map_values(|p: (String, u64)| (p.0@, p.1))
}

/// The address recorded for `name`, if any.
pub open spec fn import_of(imports: Seq<(Seq<char>, u64)>, name: Seq<char>) -> Option<u64>
    decreases imports.len(),
{
    if imports.len() == 0 {
        None
    } else if imports.last().0 == name {
        Some(imports.last().1)
    } else {
        import_of(imports.drop_last(), name)
    }
}

/// The imports recorded after the first `t` symbols, the kernel having
/// answered the question for symbol `t` with `answers[t]`: each undefined,
/// named symbol not yet recorded is asked for, and recorded when the kernel
/// gives it an address.
pub open spec fn imports_after(syms: Seq<Elf64Sym>, answers: Map<int, Option<u64>>, t: int) -> Seq<
    (Seq<char>, u64),
>
    decreases t,
{
    if t <= 0 {
        Seq::empty()
    } else {
        let prev = imports_after(syms, answers, t - 1);
        let s = syms[t - 1];
        if s.st_shndx != SHN_UNDEF || s.st_dynstr_name@.len() == 0 || import_of(
            prev,
            s.st_dynstr_name@,
        ) is Some {
            prev
        } else {
            match answers[t - 1] {
                Some(a) => prev.push((s.st_dynstr_name@, a)),
                None => prev,
            }
        }
    }
}

/// The address recorded for `name`.
pub fn import_lookup(imports: &Vec<(String, u64)>, name: &str) -> (r: Option<u64>)
    ensures
        r == import_of(import_view(imports@), name@),
{
    let ghost v = import_view(imports@);
    let mut i: usize = imports.len();
    assert(v.subrange(0, v.len() as int) =~= v);
    while i > 0
        invariant
            v == import_view(imports@),
            i <= imports@.len(),
            import_of(v, name@) == import_of(v.subrange(0, i as int), name@),
        decreases i,
    {
        let ghost pre = v.subrange(0, i as int);
        assert(pre.last() == (imports@[i - 1].0@, imports@[i - 1].1));
        if str_eq(imports[i - 1].0.as_str(), name) {
            return Some(imports[i - 1].1);
        }
        assert(pre.drop_last() =~= v.subrange(0, i - 1));
        i = i - 1;
    }
    None
}

/// Resolve a module's imports before linking it: every undefined, named
/// symbol is looked up by `resolve` (the emulated kernel) unless already
/// recorded; see [`imports_after`]. The answers the kernel gave are returned
/// beside the imports.
pub fn collect_imports<F: FnMut(&str) -> Option<u64>>(symbols: &Vec<Elf64Sym>, resolve: &mut F) -> (r: (
    Vec<(String, u64)>,
    Ghost<Map<int, Option<u64>>>,
))
    requires
        forall|g: F, n: &str| call_requires(g, (n,)),
    ensures
        import_view(r.0@) == imports_after(symbols@, r.1@, symbols@.len() as int),
        forall|t: int|
            #[trigger] r.1@.contains_key(t) ==> 0 <= t < symbols@.len() && exists|s: &str|
                s@ == symbols@[t].st_dynstr_name@ && #[trigger] call_ensures(*old(resolve), (s,), r.1@[t]),
{
    let mut imports: Vec<(String, u64)> = Vec::new();
    let ghost mut answers: Map<int, Option<u64>> = Map::empty();
    let mut i: usize = 0;
    assert(import_view(imports@) =~= imports_after(symbols@, answers, 0));
    while i < symbols.len()
        invariant
            i <= symbols@.len(),
            forall|g: F, n: &str| call_requires(g, (n,)),
            import_view(imports@) == imports_after(symbols@, answers, i as int),
            forall|t: int| i <= t ==> !#[trigger] answers.contains_key(t),
            *resolve == *old(resolve),
            forall|t: int|
                #[trigger] answers.contains_key(t) ==> 0 <= t < symbols@.len() && exists|s: &str|
                    s@ == symbols@[t].st_dynstr_name@ && #[trigger] call_ensures(*old(resolve), (s,), answers[t]),
        decreases symbols@.len() - i,
    {
        let sym = &symbols[i];
        let ghost before = answers;
        let ghost prev = imports_after(symbols@, answers, i as int);
        if sym.st_shndx == SHN_UNDEF && !sym.st_dynstr_name.as_str().is_empty()
            && import_lookup(&imports, sym.st_dynstr_name.as_str()).is_none() {
            let name = sym.st_dynstr_name.as_str();
            let answer = resolve(name);
            proof {
                answers = answers.insert(i as int, answer);
                assert forall|t: int| #[trigger] answers.contains_key(t) implies 0 <= t < symbols@.len()
                    && exists|s: &str|
                    s@ == symbols@[t].st_dynstr_name@ && #[trigger] call_ensures(*old(resolve), (s,), answers[t]) by {
                    if t == i {
                        assert(name@ == symbols@[t].st_dynstr_name@);
                        assert(call_ensures(*old(resolve), (name,), answers[t]));
                    } else {
                        assert(before.contains_key(t));
                        assert(answers[t] == before[t]);
                    }
                }
                assert forall|t: int| 0 <= t <= i implies imports_after(symbols@, answers, t)
                    == imports_after(symbols@, before, t) by {
                    lemma_imports_after_prefix(symbols@, before, answers, t, i as int);
                }
            }
            if let Some(addr) = answer {
                let ghost old_imports = imports@;
                imports.push((sym.st_dynstr_name.clone(), addr));
                assert(import_view(imports@) =~= import_view(old_imports).push((sym.st_dynstr_name@, addr)));
            }
        }
        i = i + 1;
    }
    (imports, Ghost(answers))
}

/// Answers given only for symbols at or after `i` leave the imports of the
/// first `t <= i` symbols alone.
proof fn lemma_imports_after_prefix(
    syms: Seq<Elf64Sym>,
    a1: Map<int, Option<u64>>,
    a2: Map<int, Option<u64>>,
    t: int,
    i: int,
)
    requires
        0 <= t <= i,
        forall|k: int| 0 <= k < i ==> a1[k] == a2[k],
    ensures
        imports_after(syms, a2, t) == imports_after(syms, a1, t),
    decreases t,
{
    if t > 0 {
        lemma_imports_after_prefix(syms, a1, a2, t - 1, i);
    }
}

/// Index of the first function symbol, from `start` on, placed in
/// `[lo, hi)`.
pub open spec fn first_func_in(syms: Seq<RelSymbol>, lo: int, hi: int, start: int) -> Option<int>
    decreases syms.len() - start,
{
    if start < 0 || start >= syms.len() {
        None
    } else if syms[start].is_func && lo <= syms[start].addr < hi {
        Some(start)
    } else {
        first_func_in(syms, lo, hi, start + 1)
    }
}

/// Where the OS enters a module for `symbol` (`init_module`,
/// `cleanup_module`): the symbol itself when the object defines it; else
/// the first function placed in `section` (`.init.text`, `.exit.text`),
/// where a module built without the alias keeps it.
pub open spec fn entry_spec(obj: RelObject, symbol: Seq<char>, section: Seq<char>) -> Option<u64> {
    match symbol_lookup(obj.symbols@, symbol) {
        Some(a) => Some(a),
        None => match first_section_named(obj.sections@, section) {
            Some(i) => {
                let sec = obj.sections@[i];
                match first_func_in(obj.symbols@, sec.addr as int, sec.addr + sec.size, 0) {
                    Some(j) => Some(obj.symbols@[j].addr),
                    None => None,
                }
            },
            None => None,
        },
    }
}

/// The entry point for `symbol`, falling back to `section` (see
/// [`entry_spec`]).
pub fn module_entry(obj: &RelObject, symbol: &str, section: &str) -> (r: Option<u64>)
    ensures
        r == entry_spec(*obj, symbol@, section@),
{
    if let Some(a) = obj.symbol(symbol) {
        return Some(a);
    }
    let sec = match obj.section(section) {
        Some(s) => s,
        None => {
            return None;
        },
    };
    assert(first_section_named(obj.sections@, section@) is Some);
    assert(*sec == obj.sections@[first_section_named(obj.sections@, section@)->0]);
    let mut i: usize = 0;
    while i < obj.symbols.len()
        invariant
            i <= obj.symbols@.len(),
            symbol_lookup(obj.symbols@, symbol@) is None,
            first_section_named(obj.sections@, section@) is Some,
            *sec == obj.sections@[first_section_named(obj.sections@, section@)->0],
            first_func_in(obj.symbols@, sec.addr as int, sec.addr + sec.size, 0) == first_func_in(
                obj.symbols@,
                sec.addr as int,
                sec.addr + sec.size,
                i as int,
            ),
        decreases obj.symbols@.len() - i,
    {
        let s = &obj.symbols[i];
        if s.is_func && s.addr >= sec.addr && s.addr - sec.addr < sec.size {
            assert(first_func_in(obj.symbols@, sec.addr as int, sec.addr + sec.size, i as int) == Some(i as int));
            return Some(s.addr);
        }
        i = i + 1;
    }
    None
}

/// The module's name: the string in `name[]` of its `struct module`
/// (section `.gnu.linkonce.this_module`), when there is one and it is not
/// empty; else `stem` (the file name without its extension).
pub open spec fn module_name_spec(obj: RelObject, rs: Seq<crate::emu::Mem64>, stem: Seq<char>) -> Seq<
    char,
> {
    match first_section_named(obj.sections@, ".gnu.linkonce.this_module"@) {
        Some(i) => {
            let s = string_at(rs, (obj.sections@[i].addr + MODULE_NAME_OFFSET) as u64);
            if s.len() > 0 {
                s
            } else {
                stem
            }
        },
        None => stem,
    }
}

/// The module's name (see [`module_name_spec`]).
pub fn module_name(obj: &RelObject, maps: &Maps, stem: &str) -> (r: String)
    requires
        maps.wf(),
        first_section_named(obj.sections@, ".gnu.linkonce.this_module"@) matches Some(i) ==> obj.sections@[i].addr
            + MODULE_NAME_OFFSET <= u64::MAX,
    ensures
        r@ == module_name_spec(*obj, maps.regions@, stem@),
{
    match obj.section(".gnu.linkonce.this_module") {
        Some(sec) => {
            let s = maps.read_string(sec.addr + MODULE_NAME_OFFSET);
            if s.as_str().is_empty() {
                stem.to_owned()
            } else {
                s
            }
        },
        None => stem.to_owned(),
    }
}

/// `e_machine` of an x86-64 object.
pub const EM_X86_64: u16 = 62;

pub open spec fn not_module_message() -> Seq<char> {
    "not a kernel module: ELF type is not ET_REL"@
}

pub open spec fn unsupported_arch_message(machine: u16) -> Seq<char> {
    "unsupported kernel module architecture e_machine=0x"@ + hex(machine as nat)
}

/// The architecture a kernel module runs on, read from its ELF header: it
/// must be a relocatable object (`ET_REL`) for x86-64 or AArch64.
pub fn module_arch(e_type: u16, e_machine: u16) -> (r: Result<Arch, String>)
    ensures
        (r is Ok) <==> (e_type == ET_REL && (e_machine == EM_X86_64 || e_machine == EM_AARCH64)),
        match r {
            Ok(a) => (e_machine == EM_X86_64 && a == Arch::X86_64) || (e_machine == EM_AARCH64 && a
                == Arch::Aarch64),
            Err(m) => if e_type != ET_REL {
                m@ == not_module_message()
            } else {
                m@ == unsupported_arch_message(e_machine)
            },
        },
{
    if e_type != ET_REL {
        return Err("not a kernel module: ELF type is not ET_REL".to_owned());
    }
    if e_machine == EM_X86_64 {
        Ok(Arch::X86_64)
    } else if e_machine == EM_AARCH64 {
        Ok(Arch::Aarch64)
    } else {
        let mut cs = chars_of("unsupported kernel module architecture e_machine=0x");
        push_hex(e_machine as u64, &mut cs);
        Err(string_from_chars(cs.as_slice()))
    }
}

} // verus!
