//! The 32-bit `kernel32` resolver: the same lookups as the 64-bit one,
//! with no memo, and a registry that holds any module answering for the
//! guest on a miss, so that the search of the guest's modules runs only
//! while nothing is registered.

use vstd::prelude::*;
use crate::binding::{api_set_contract, is_api_set_contract};
use crate::export_registry::{ExportIndexRegistry, listing_view};
use crate::resolver::{api_label, api_label_string, global_or_scanned, in_module};
use crate::text::{to_lowercase_string, unicode_lowercase};

verus! {

/// `kernel32` resolver (32-bit): what the trace of a module's exports
/// lists, for every registered module whose normalised name contains
/// `module` lower-cased (see [`crate::resolver::dump_module_iat`]); with no
/// module registered, what `scan` (the same listing over the modules
/// loaded in the guest) gave for `module`.
pub fn dump_module_iat<F: FnMut(&str) -> Vec<(String, Vec<(String, u64)>)>>(
    reg: &ExportIndexRegistry,
    module: &str,
    scan: &mut F,
) -> (r: Vec<(String, Vec<(String, u64)>)>)
    requires
        reg.wf(),
        forall|g: F, n: &str| call_requires(g, (n,)),
    ensures
        reg.modules().len() == 0 ==> exists|s: &str| s@ == module@ && #[trigger] call_ensures(*old(scan), (s,), r),
        reg.modules().len() != 0 ==> listing_view(r@) == reg.exports_listing(crate::text::lower_seq(module@), 0),
{
    if reg.len() != 0 {
        let needle = crate::text::lower_string(module);
        return reg.exports_matching(needle.as_str());
    }
    scan(module)
}

/// The outcome of a 32-bit lookup of `name` in `module`: with `m` the
/// module lower-cased, the lookup in any module for an API-set contract
/// (see [`global_or_scanned`]); otherwise the registry's answer for `m`,
/// or else what `scan_module` gave for `(m, name)`.
pub open spec fn in_module_result32<FM: FnMut(&str, &str) -> u64, FG: FnMut(&str) -> u64>(
    reg: ExportIndexRegistry,
    module: Seq<char>,
    name: Seq<char>,
    scan_module: FM,
    scan_global: FG,
    r: u64,
) -> bool {
    let m = unicode_lowercase(module);
    if api_set_contract(m) {
        global_or_scanned(reg, name, scan_global, r)
    } else if in_module(reg, m, name) != 0 {
        r == in_module(reg, m, name)
    } else {
        exists|a: &str, b: &str| a@ == m && b@ == name && #[trigger] call_ensures(scan_module, (a, b), r)
    }
}

/// `kernel32` resolver (32-bit): the address of the export `name` in
/// `module` (lower-cased). For an API-set contract, the lookup of `name`
/// in any module (see [`global_or_scanned`]); otherwise the registry's
/// answer for the module, or else what `scan_module` (the search of the
/// module among those loaded in the guest, 0 when not found) gave.
pub fn resolve_api_name_in_module<FM: FnMut(&str, &str) -> u64, FG: FnMut(&str) -> u64>(
    reg: &ExportIndexRegistry,
    module: &str,
    name: &str,
    scan_module: &mut FM,
    scan_global: &mut FG,
) -> (r: u64)
    requires
        reg.wf(),
        forall|g: FM, a: &str, b: &str| call_requires(g, (a, b)),
        forall|g: FG, a: &str| call_requires(g, (a,)),
    ensures
        in_module_result32(*reg, module@, name@, *old(scan_module), *old(scan_global), r),
{
    let module_lc = to_lowercase_string(module);
    if is_api_set_contract(module_lc.as_str()) {
        let addr = reg.resolve_name_global(name);
        if addr != 0 {
            return addr;
        }
        return resolve_api_name(reg, name, scan_global);
    }
    let addr = reg.resolve_name_in_module(module_lc.as_str(), name);
    if addr != 0 {
        return addr;
    }
    scan_module(module_lc.as_str(), name)
}

/// `kernel32` resolver (32-bit): the export name at `addr`, from the first
/// registered module that exports it directly; with no module registered,
/// what `scan` (the search of the modules loaded in the guest) gave; empty
/// otherwise.
pub fn resolve_api_addr_to_name<F: FnMut(u64) -> String>(reg: &ExportIndexRegistry, addr: u64, scan: &mut F) -> (r: String)
    requires
        reg.wf(),
        forall|g: F, a: u64| call_requires(g, (a,)),
    ensures
        match reg.address_owner(addr, 0) {
            Some((_m, n)) => r@ == n,
            None => if reg.modules().len() != 0 {
                r@.len() == 0
            } else {
                call_ensures(*old(scan), (addr,), r)
            },
        },
{
    match reg.resolve_address(addr) {
        Some((_m, n)) => {
            return n;
        },
        None => {},
    }
    if !reg.is_empty() {
        return String::new();
    }
    scan(addr)
}

/// `kernel32` resolver (32-bit): the address of the export `name` in any
/// module (see [`global_or_scanned`]).
pub fn resolve_api_name<F: FnMut(&str) -> u64>(reg: &ExportIndexRegistry, name: &str, scan: &mut F) -> (r: u64)
    requires
        reg.wf(),
        forall|g: F, n: &str| call_requires(g, (n,)),
    ensures
        global_or_scanned(*reg, name@, *old(scan), r),
{
    let addr = reg.resolve_name_global(name);
    if addr != 0 {
        return addr;
    }
    scan(name)
}

/// `kernel32` resolver (32-bit): the first registered export whose name
/// contains `name` on a direct export (see
/// [`crate::resolver::search_api_name`]); with no module registered, what
/// `scan` gave; `(0, "", "")` otherwise.
pub fn search_api_name<F: FnMut(&str) -> (u64, String, String)>(
    reg: &ExportIndexRegistry,
    name: &str,
    scan: &mut F,
) -> (r: (u64, String, String))
    requires
        reg.wf(),
        forall|g: F, n: &str| call_requires(g, (n,)),
    ensures
        match reg.display_search(name@, 0) {
            Some((a, m, n)) => r.0 == a && r.1@ == m && r.2@ == n,
            None => if reg.modules().len() != 0 {
                r.0 == 0 && r.1@.len() == 0 && r.2@.len() == 0
            } else {
                exists|s: &str| s@ == name@ && #[trigger] call_ensures(*old(scan), (s,), r)
            },
        },
{
    match reg.search_display_name(name) {
        Some(found) => {
            return found;
        },
        None => {},
    }
    if !reg.is_empty() {
        return (0, String::new(), String::new());
    }
    scan(name)
}

/// `kernel32` resolver (32-bit): name the API at `addr` as `lib!name` from
/// the first registered module that exports it directly (see
/// [`api_label`]); with no module registered, what `scan` gave; empty
/// otherwise.
pub fn guess_api_name<F: FnMut(u64) -> String>(reg: &ExportIndexRegistry, addr: u32, scan: &mut F) -> (r: String)
    requires
        reg.wf(),
        forall|g: F, a: u64| call_requires(g, (a,)),
    ensures
        match reg.address_owner_named(addr as u64, 0) {
            Some((m, n)) => r@ == api_label(m, n),
            None => if reg.modules().len() != 0 {
                r@.len() == 0
            } else {
                call_ensures(*old(scan), (addr as u64,), r)
            },
        },
{
    let a = addr as u64;
    match reg.resolve_address_named(a) {
        Some((module, name)) => {
            return api_label_string(module.as_str(), name.as_str());
        },
        None => {},
    }
    if !reg.is_empty() {
        return String::new();
    }
    scan(a)
}

} // verus!
