//! `kernel32!GetProcAddress`: resolving an export of a loaded module, by
//! name or by ordinal, through the export-index registry.

#![allow(non_snake_case)]

use vstd::prelude::*;
use crate::emu::{with_rax, Emu};
use crate::resolver::{in_module_outcome, resolve_api_name_in_module};
use crate::export_registry::{
    display_for_name, display_for_ordinal, module_display_name_for, module_display_name_for_ordinal,
    ExportIndexRegistry,
};
use crate::memory::string_at;
use crate::text::{
    decimal, normalized_export, push_decimal, string_from_chars, to_lowercase_string, unicode_lowercase,
};

verus! {

/// A `lpProcName` with any of these bits set is an ordinal, not a pointer.
pub const ORDINAL_MASK: u64 = 0xFFFF_0000_0000_0000;

/// `#` and the ordinal in decimal.
pub open spec fn ordinal_label(ordinal: u32) -> Seq<char> {
    seq!['#'] + decimal(ordinal as nat)
}

/// `GetProcAddress` by ordinal: `(address, module name, display name)`.
/// A registered handle resolves in its module (address 0 when the ordinal
/// is not exported); an unknown handle gives 0, no module name and
/// `#ordinal`.
pub open spec fn by_ordinal_spec(reg: ExportIndexRegistry, hndl: u64, ordinal: u32) -> (u64, Seq<char>, Seq<char>) {
    match reg.module_by_base(hndl) {
        Some(m) => (
            reg.target_addr(m@.lookup_ordinal(ordinal)),
            m@.module_name,
            match display_for_ordinal(m@, ordinal) {
                Some(n) => n,
                None => ordinal_label(ordinal),
            },
        ),
        None => (0, Seq::empty(), ordinal_label(ordinal)),
    }
}

fn label_for(ordinal: u32) -> (r: String)
    ensures
        r@ == ordinal_label(ordinal),
{
    let mut cs: Vec<char> = vec!['#'];
    push_decimal(ordinal as u64, &mut cs);
    string_from_chars(cs.as_slice())
}

/// Resolve an ordinal export for `GetProcAddress` (see [`by_ordinal_spec`]).
pub fn resolve_ordinal_via_registry_or_scanner(reg: &ExportIndexRegistry, hndl: u64, ordinal: u32) -> (r: (
    u64,
    String,
    String,
))
    requires
        reg.wf(),
    ensures
        (r.0, r.1@, r.2@) == by_ordinal_spec(*reg, hndl, ordinal),
{
    match reg.get_by_base(hndl) {
        Some(module) => {
            let addr = reg.resolve_ordinal_by_base(hndl, ordinal);
            let display = match module_display_name_for_ordinal(module, ordinal) {
                Some(n) => n,
                None => label_for(ordinal),
            };
            (addr, module.name(), display)
        },
        None => (0, String::new(), label_for(ordinal)),
    }
}

/// `GetProcAddress` by name in a registered module: `(address, module
/// name, display name)`; the display name is the export's original case
/// when it resolves, else the name asked for. `None` when the handle is no
/// registered module.
pub open spec fn by_name_spec(reg: ExportIndexRegistry, hndl: u64, name: Seq<char>) -> Option<(u64, Seq<char>, Seq<char>)> {
    match reg.module_by_base(hndl) {
        Some(m) => {
            let addr = reg.target_addr(m@.lookup_name(normalized_export(name)));
            Some(
                if addr != 0 {
                    (
                        addr,
                        m@.module_name,
                        match display_for_name(m@, name) {
                            Some(n) => n,
                            None => name,
                        },
                    )
                } else {
                    (0, m@.module_name, name)
                },
            )
        },
        None => None,
    }
}

/// Resolve a name export for `GetProcAddress` in the module `hndl` names
/// (see [`by_name_spec`]); `None` when the handle is unknown.
pub fn resolve_name_via_registry(reg: &ExportIndexRegistry, hndl: u64, name: &str) -> (r: Option<(u64, String, String)>)
    requires
        reg.wf(),
    ensures
        match by_name_spec(*reg, hndl, name@) {
            Some(t) => match r {
                Some(x) => (x.0, x.1@, x.2@) == t,
                None => false,
            },
            None => r is None,
        },
{
    match reg.get_by_base(hndl) {
        Some(module) => {
            let addr = reg.resolve_name_by_base(hndl, name);
            if addr != 0 {
                let display = match module_display_name_for(module, name) {
                    Some(n) => n,
                    None => name.to_owned(),
                };
                Some((addr, module.name(), display))
            } else {
                Some((0, module.name(), name.to_owned()))
            }
        },
        None => None,
    }
}

/// The lower-cased name a `GetProcAddress` call asks for: the string at
/// `lpProcName`.
pub open spec fn asked_name(emu: Emu) -> Seq<char> {
    unicode_lowercase(string_at(emu.maps.regions@, emu.regs.rdx))
}

/// `GetProcAddress` by name: in the registered module `hndl` names (see
/// [`by_name_spec`]); for a handle the registry does not know, the lookup
/// of `name` in no particular module (see [`resolve_api_name_in_module`]
/// with an empty module), giving no module name and `name` itself.
pub fn resolve_name_via_registry_or_scanner<FM: FnMut(&str, &str) -> u64, FG: FnMut(&str) -> u64>(
    emu: &mut Emu,
    hndl: u64,
    name: &str,
    scan_module: &mut FM,
    scan_global: &mut FG,
) -> (r: (u64, String, String))
    requires
        old(emu).wf(),
        forall|g: FM, a: &str, b: &str| call_requires(g, (a, b)),
        forall|g: FG, a: &str| call_requires(g, (a,)),
    ensures
        match by_name_spec(old(emu).export_indexes, hndl, name@) {
            Some(t) => (r.0, r.1@, r.2@) == t && *final(emu) == *old(emu),
            None => in_module_outcome(
                *old(emu),
                *final(emu),
                Seq::empty(),
                name@,
                *old(scan_module),
                *old(scan_global),
                r.0,
            ) && r.1@ == Seq::<char>::empty() && r.2@ == name@,
        },
{
    match resolve_name_via_registry(&emu.export_indexes, hndl, name) {
        Some(found) => found,
        None => {
            proof {
                reveal_strlit("");
            }
            let addr = resolve_api_name_in_module(emu, "", name, scan_module, scan_global);
            assert(""@ =~= Seq::<char>::empty());
            (addr, String::new(), name.to_owned())
        },
    }
}

/// `kernel32!GetProcAddress(hModule = rcx, lpProcName = rdx)`: an
/// `lpProcName` with a bit of [`ORDINAL_MASK`] set asks for the ordinal in
/// its low word (see [`by_ordinal_spec`]); otherwise it points to a name,
/// lower-cased, resolved as [`resolve_name_via_registry_or_scanner`] does.
/// `rax` is the address, 0 when not found; only the lookup memo and `rax`
/// change.
pub fn GetProcAddress<FM: FnMut(&str, &str) -> u64, FG: FnMut(&str) -> u64>(
    emu: &mut Emu,
    scan_module: &mut FM,
    scan_global: &mut FG,
)
    requires
        old(emu).wf(),
        forall|g: FM, a: &str, b: &str| call_requires(g, (a, b)),
        forall|g: FG, a: &str| call_requires(g, (a,)),
    ensures
        final(emu).wf(),
        final(emu).regs == with_rax(old(emu).regs, final(emu).regs.rax),
        ({
            let hndl = old(emu).regs.rcx;
            let p = old(emu).regs.rdx;
            let reg = old(emu).export_indexes;
            let kept = (Emu { regs: final(emu).regs, ..*old(emu) });
            if p & ORDINAL_MASK != 0 {
                *final(emu) == kept && final(emu).regs.rax == by_ordinal_spec(
                    reg,
                    hndl,
                    (p & 0xFFFF) as u32,
                ).0
            } else {
                match by_name_spec(reg, hndl, asked_name(*old(emu))) {
                    Some(t) => *final(emu) == kept && final(emu).regs.rax == t.0,
                    None => in_module_outcome(
                        *old(emu),
                        (Emu { regs: old(emu).regs, ..*final(emu) }),
                        Seq::empty(),
                        asked_name(*old(emu)),
                        *old(scan_module),
                        *old(scan_global),
                        final(emu).regs.rax,
                    ),
                }
            }
        }),
{
    let hndl = emu.regs().rcx;
    let func_ptr = emu.regs().rdx;
    let is_ordinal = (func_ptr & ORDINAL_MASK) != 0;
    let resolved = if is_ordinal {
        let ordinal = (func_ptr & 0xFFFF) as u32;
        let (addr, _module, _display) = resolve_ordinal_via_registry_or_scanner(&emu.export_indexes, hndl, ordinal);
        addr
    } else {
        let raw = emu.maps.read_string(func_ptr);
        let func = to_lowercase_string(raw.as_str());
        let (addr, _module, _display) = resolve_name_via_registry_or_scanner(
            emu,
            hndl,
            func.as_str(),
            scan_module,
            scan_global,
        );
        addr
    };
    emu.regs.rax = resolved;
}

} // verus!
