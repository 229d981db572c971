//! The 64-bit `kernel32` resolver: naming an API address (which module
//! exports it, under what name) and finding an export's address by name,
//! in a given module or in any, through the export-index registry first
//! and the search of the modules loaded in the guest after. The search is
//! taken as a closure; two memos keep what was found.

use vstd::prelude::*;
use crate::emu::Emu;
use crate::binding::{api_ms_win_prefix, api_set_contract, is_api_set_contract};
use crate::export_registry::{ExportIndexRegistry, MAX_FORWARDER_DEPTH, listing_view};
use crate::text::{
    after_last, after_last_chars, chars_eq, chars_of, has_prefix, lower_chars, lower_seq,
    lower_string, normalized_export, normalized_module, split_first, split_first_chars,
    starts_with_chars, string_from_chars, trim_chars, trim_seq,
};

verus! {

/// Memo of the lookups by module and name that found an address: each
/// entry maps a key to an address, a later entry overriding an earlier one.
///
/// The entries are a vector searched from the end, so a lookup costs time
/// linear in the number of entries. A `std::collections::HashMap` keyed by
/// `String` would make it constant, but vstd's specification of `HashMap`
/// holds only for key types that obey its key model, and vstd establishes
/// that for integer keys, not for `String`; with such a map nothing could
/// be proved of what a lookup returns.
pub struct ResolveCache {
    entries: Vec<(String, u64)>,
}

/// The key -> address map that `entries` hold.
pub open spec fn cache_map(entries: Seq<(String, u64)>) -> Map<Seq<char>, u64>
    decreases entries.len(),
{
    if entries.len() == 0 {
        Map::empty()
    } else {
        cache_map(entries.drop_last()).insert(entries.last().0@, entries.last().1)
    }
}

impl View for ResolveCache {
    type V = Map<Seq<char>, u64>;

    closed spec fn view(&self) -> Map<Seq<char>, u64> {
        cache_map(self.entries@)
    }
}

/// Entries after position `i` that do not hold `k` leave `k` as the first
/// `i` entries map it.
proof fn lemma_cache_map_prefix(e: Seq<(String, u64)>, i: int, k: Seq<char>)
    requires
        0 <= i <= e.len(),
        forall|t: int| i <= t < e.len() ==> (#[trigger] e[t]).0@ != k,
    ensures
        cache_map(e).contains_key(k) == cache_map(e.subrange(0, i)).contains_key(k),
        cache_map(e).contains_key(k) ==> cache_map(e)[k] == cache_map(e.subrange(0, i))[k],
    decreases e.len() - i,
{
    if i < e.len() {
        assert(e.subrange(0, i + 1).drop_last() =~= e.subrange(0, i));
        lemma_cache_map_prefix(e, i + 1, k);
    } else {
        assert(e.subrange(0, i) =~= e);
    }
}

impl ResolveCache {
    /// An empty memo.
    pub fn new() -> (c: ResolveCache)
        ensures
            c@ == Map::<Seq<char>, u64>::empty(),
    {
        ResolveCache { entries: Vec::new() }
    }

    /// The address memoised for `key`.
    pub fn get(&self, key: &str) -> (r: Option<u64>)
        ensures
            match r {
                Some(a) => self@.contains_key(key@) && self@[key@] == a,
                None => !self@.contains_key(key@),
            },
    {
        let kc = chars_of(key);
        let mut i: usize = self.entries.len();
        while i > 0
            invariant
                i <= self.entries@.len(),
                kc@ == key@,
                forall|t: int| i <= t < self.entries@.len() ==> (#[trigger] self.entries@[t]).0@ != key@,
            decreases i,
        {
            let k = chars_of(self.entries[i - 1].0.as_str());
            if chars_eq(k.as_slice(), kc.as_slice()) {
                proof {
                    lemma_cache_map_prefix(self.entries@, i as int, key@);
                    assert(self.entries@.subrange(0, i as int).drop_last() =~= self.entries@.subrange(0, i - 1));
                }
                return Some(self.entries[i - 1].1);
            }
            i = i - 1;
        }
        proof {
            lemma_cache_map_prefix(self.entries@, 0, key@);
        }
        None
    }

    /// Memoise `a` for `key`.
    pub fn insert(&mut self, key: String, a: u64)
        ensures
            final(self)@ == old(self)@.insert(key@, a),
    {
        let ghost e = self.entries@;
        self.entries.push((key, a));
        assert(self.entries@.drop_last() =~= e);
    }
}

/// A module's name without its extension: the part before the last `.`,
/// or the whole name when it has none.
pub open spec fn library_stem(name: Seq<char>) -> Seq<char> {
    if name.contains('.') {
        name.subrange(0, name.len() - after_last(name, '.').len() - 1)
    } else {
        name
    }
}

/// `lib!name`, for an export `name` of the module `module`.
pub open spec fn api_label(module: Seq<char>, name: Seq<char>) -> Seq<char> {
    library_stem(module) + seq!['!'] + name
}

proof fn lemma_after_last_shape(s: Seq<char>, sep: char)
    ensures
        after_last(s, sep).len() <= s.len(),
        after_last(s, sep) == s.subrange(s.len() - after_last(s, sep).len(), s.len() as int),
        s.contains(sep) ==> after_last(s, sep).len() < s.len() && s[s.len() - after_last(s, sep).len() - 1] == sep,
        !after_last(s, sep).contains(sep),
        !s.contains(sep) ==> after_last(s, sep) == s,
    decreases s.len(),
{
    if s.len() > 0 {
        lemma_after_last_shape(s.drop_last(), sep);
        if !s.contains(sep) {
            assert(!s.drop_last().contains(sep)) by {
                if s.drop_last().contains(sep) {
                    let i = choose|i: int| 0 <= i < s.drop_last().len() && s.drop_last()[i] == sep;
                    assert(s[i] == sep);
                }
            }
            assert(s.drop_last().push(s.last()) =~= s);
        }
        if s.last() != sep {
            if s.contains(sep) {
                let i = choose|i: int| 0 <= i < s.len() && s[i] == sep;
                assert(s.drop_last()[i] == sep);
            }
            let t = after_last(s.drop_last(), sep);
            assert(after_last(s, sep) =~= s.subrange(s.len() - after_last(s, sep).len(), s.len() as int));
            if after_last(s, sep).contains(sep) {
                let j = choose|j: int| 0 <= j < after_last(s, sep).len() && after_last(s, sep)[j] == sep;
                if j < t.len() {
                    assert(t[j] == sep);
                }
            }
        }
    }
}

/// The module name without its extension (see [`library_stem`]).
fn library_stem_of(name: &str) -> (r: Vec<char>)
    ensures
        r@ == library_stem(name@),
{
    let cs = chars_of(name);
    let tail = after_last_chars(cs.as_slice(), '.');
    proof {
        lemma_after_last_shape(name@, '.');
    }
    if tail.len() < cs.len() {
        let keep = cs.len() - tail.len() - 1;
        let mut out: Vec<char> = Vec::new();
        let mut i: usize = 0;
        while i < keep
            invariant
                i <= keep,
                keep < cs@.len(),
                out@ == cs@.subrange(0, i as int),
            decreases keep - i,
        {
            out.push(cs[i]);
            i = i + 1;
        }
        out
    } else {
        proof {
            if name@.contains('.') {
                assert(false);
            }
        }
        cs
    }
}

/// `lib!name` as a `String` (see [`api_label`]).
pub(crate) fn api_label_string(module: &str, name: &str) -> (r: String)
    ensures
        r@ == api_label(module@, name@),
{
    let mut out = library_stem_of(module);
    out.push('!');
    let nc = chars_of(name);
    let mut i: usize = 0;
    let ghost prefix = out@;
    while i < nc.len()
        invariant
            i <= nc@.len(),
            out@ == prefix + nc@.subrange(0, i as int),
        decreases nc@.len() - i,
    {
        out.push(nc[i]);
        i = i + 1;
    }
    assert(nc@.subrange(0, nc@.len() as int) =~= nc@);
    assert(out@ =~= api_label(module@, name@));
    string_from_chars(out.as_slice())
}

/// `kernel32` resolver: name the API at `addr` as `lib!name` (`lib` the
/// exporting module without its extension), from the first registered
/// module that exports `addr` directly; for an address no registered
/// module exports, `scan` names it (the search of the modules loaded in
/// the guest, empty when none does).
pub fn guess_api_name<F: FnMut(u64) -> String>(reg: &ExportIndexRegistry, addr: u64, scan: &mut F) -> (r: String)
    requires
        reg.wf(),
        forall|g: F, a: u64| call_requires(g, (a,)),
    ensures
        match reg.address_owner_named(addr, 0) {
            Some((m, n)) => r@ == api_label(m, n),
            None => call_ensures(*old(scan), (addr,), r),
        },
{
    match reg.resolve_address_named(addr) {
        Some((module, name)) => api_label_string(module.as_str(), name.as_str()),
        None => scan(addr),
    }
}

/// The name the registry gives `addr` (the first module in registration
/// order that exports it directly), or else what `scan` gave for it.
pub open spec fn named_or_scanned<F: FnMut(u64) -> String>(
    reg: ExportIndexRegistry,
    addr: u64,
    scan: F,
    r: String,
) -> bool {
    match reg.address_owner(addr, 0) {
        Some((_m, n)) => r@ == n,
        None => call_ensures(scan, (addr,), r),
    }
}

/// The export name at `addr`, with no memo (see [`named_or_scanned`]).
fn resolve_api_addr_to_name_uncached<F: FnMut(u64) -> String>(
    reg: &ExportIndexRegistry,
    addr: u64,
    scan: &mut F,
) -> (r: String)
    requires
        reg.wf(),
        forall|g: F, a: u64| call_requires(g, (a,)),
    ensures
        named_or_scanned(*reg, addr, *old(scan), r),
{
    match reg.resolve_address(addr) {
        Some((_m, n)) => n,
        None => scan(addr),
    }
}

/// What a call of [`resolve_api_addr_to_name`] on `o` leaves, `n`, and
/// gives, `r`: the name memoised for `addr` with nothing changed; else the
/// name of [`named_or_scanned`], memoised when not empty. Only the memo
/// changes.
pub open spec fn addr_name_outcome<F: FnMut(u64) -> String>(o: Emu, n: Emu, addr: u64, scan: F, r: String) -> bool {
    &&& n == (Emu { api_addr_name_cache: n.api_addr_name_cache, ..o })
    &&& o.api_addr_name_cache@.contains_key(addr) ==> r == o.api_addr_name_cache@[addr]
        && n.api_addr_name_cache@ == o.api_addr_name_cache@
    &&& !o.api_addr_name_cache@.contains_key(addr) ==> named_or_scanned(o.export_indexes, addr, scan, r)
        && n.api_addr_name_cache@ == (if r@.len() > 0 {
        o.api_addr_name_cache@.insert(addr, r)
    } else {
        o.api_addr_name_cache@
    })
}

/// `kernel32` resolver: the export name at `addr`. A name memoised for
/// `addr` is returned as it is; otherwise the registry names it, or `scan`
/// (the search of the modules loaded in the guest, empty when none
/// exports `addr`), and a non-empty name is memoised. Nothing else in
/// `emu` changes.
pub fn resolve_api_addr_to_name<F: FnMut(u64) -> String>(emu: &mut Emu, addr: u64, scan: &mut F) -> (r: String)
    requires
        old(emu).wf(),
        forall|g: F, a: u64| call_requires(g, (a,)),
    ensures
        final(emu).wf(),
        addr_name_outcome(*old(emu), *final(emu), addr, *old(scan), r),
{
    broadcast use vstd::std_specs::hash::group_hash_axioms;
    match emu.api_addr_name_cache.get(&addr) {
        Some(n) => {
            return n.clone();
        },
        None => {},
    }
    let name = resolve_api_addr_to_name_uncached(&emu.export_indexes, addr, scan);
    if !name.as_str().is_empty() {
        emu.api_addr_name_cache.insert(addr, name.clone());
    }
    name
}

/// The registry's address for `name` in any registered module (the first
/// in registration order that resolves it), or else what `scan` gave for
/// `name`.
pub open spec fn global_or_scanned<F: FnMut(&str) -> u64>(
    reg: ExportIndexRegistry,
    name: Seq<char>,
    scan: F,
    r: u64,
) -> bool {
    let g = reg.global_from(normalized_export(name), 0);
    if g != 0 {
        r == g
    } else {
        exists|s: &str| s@ == name && #[trigger] call_ensures(scan, (s,), r)
    }
}

/// `kernel32` resolver: the address of the export `name` in any module,
/// from the registry, or else from `scan` (the search of the modules
/// loaded in the guest, 0 when none exports it).
pub fn resolve_api_name<F: FnMut(&str) -> u64>(reg: &ExportIndexRegistry, name: &str, scan: &mut F) -> (r: u64)
    requires
        reg.wf(),
        forall|g: F, n: &str| call_requires(g, (n,)),
    ensures
        global_or_scanned(*reg, name@, *old(scan), r),
{
    let addr = reg.resolve_name_global(name);
    if addr != 0 {
        return addr;
    }
    scan(name)
}

/// `kernel32` resolver: the first export, in registration order and then
/// display order, whose name contains `name` and that the module exports
/// directly: `(address, module name, export name)`; when the registry has
/// none, what `scan` (the same search over the modules loaded in the
/// guest) gave.
pub fn search_api_name<F: FnMut(&str) -> (u64, String, String)>(
    reg: &ExportIndexRegistry,
    name: &str,
    scan: &mut F,
) -> (r: (u64, String, String))
    requires
        reg.wf(),
        forall|g: F, n: &str| call_requires(g, (n,)),
    ensures
        match reg.display_search(name@, 0) {
            Some((a, m, n)) => r.0 == a && r.1@ == m && r.2@ == n,
            None => exists|s: &str| s@ == name@ && #[trigger] call_ensures(*old(scan), (s,), r),
        },
{
    match reg.search_display_name(name) {
        Some(found) => found,
        None => scan(name),
    }
}

/// `kernel32` resolver: what the trace of a module's exports lists, for
/// every registered module whose normalised name contains `module`
/// lower-cased: the module's name and `(name, address)` for each export;
/// with no module registered, what `scan` (the same listing over the
/// modules loaded in the guest) gave for the lower-cased `module`.
pub fn dump_module_iat<F: FnMut(&str) -> Vec<(String, Vec<(String, u64)>)>>(
    reg: &ExportIndexRegistry,
    module: &str,
    scan: &mut F,
) -> (r: Vec<(String, Vec<(String, u64)>)>)
    requires
        reg.wf(),
        forall|g: F, n: &str| call_requires(g, (n,)),
    ensures
        reg.modules().len() == 0 ==> exists|s: &str|
            s@ == lower_seq(module@) && #[trigger] call_ensures(*old(scan), (s,), r),
        reg.modules().len() != 0 ==> listing_view(r@) == reg.exports_listing(lower_seq(module@), 0),
{
    let needle = lower_string(module);
    if reg.len() == 0 {
        return scan(needle.as_str());
    }
    reg.exports_matching(needle.as_str())
}

/// What the registry gives for the export `name` of module `m` (any case
/// or path form, forwarders followed); 0 when it has none.
pub open spec fn in_module(reg: ExportIndexRegistry, m: Seq<char>, name: Seq<char>) -> u64 {
    reg.name_res(
        normalized_module(m),
        normalized_export(name),
        Seq::empty(),
        MAX_FORWARDER_DEPTH as nat,
    )
}

/// The backing modules an API-set contract `m` (lower-cased) is tried in
/// after the contract itself, by the contract's family.
pub open spec fn api_set_fallbacks(m: Seq<char>) -> Seq<Seq<char>> {
    if has_prefix(m, "api-ms-win-crt-"@) {
        seq!["ucrtbase.dll"@, "msvcp_win.dll"@, "kernelbase.dll"@]
    } else if has_prefix(m, "api-ms-win-core-rtlsupport-"@) {
        seq!["ntdll.dll"@, "kernelbase.dll"@]
    } else if has_prefix(m, "api-ms-win-core-apiquery-"@) {
        seq!["ntdll.dll"@, "kernelbase.dll"@]
    } else if has_prefix(m, "api-ms-win-shcore-"@) {
        seq!["shcore.dll"@, "kernelbase.dll"@]
    } else if has_prefix(m, "api-ms-win-eventing-"@) {
        seq!["ntdll.dll"@, "kernelbase.dll"@, "advapi32.dll"@]
    } else if has_prefix(m, "api-ms-win-security-"@) {
        seq!["sechost.dll"@, "advapi32.dll"@, "kernelbase.dll"@]
    } else if has_prefix(m, "api-ms-win-service-"@) {
        seq!["sechost.dll"@, "kernelbase.dll"@]
    } else {
        seq!["kernelbase.dll"@, "kernel32.dll"@]
    }
}

/// The views of a list of names.
pub open spec fn strs_view(v: Seq<&str>) -> Seq<Seq<char>> {
    v.map_values(|s: &str| s@)
}

/// The modules a lookup in the (trimmed, lower-cased) module `m` tries, in
/// order: `m`, then, for an API-set contract, its backing modules.
pub open spec fn modules_tried(m: Seq<char>) -> Seq<Seq<char>> {
    if api_set_contract(m) {
        seq![m] + api_set_fallbacks(m)
    } else {
        seq![m]
    }
}

/// Trying `mods[i..]` in turn, each in the registry and then through
/// `answers` (what the search of the guest's modules gave for it): the
/// first non-zero address, 0 when none gives one.
pub open spec fn first_found(
    reg: ExportIndexRegistry,
    mods: Seq<Seq<char>>,
    name: Seq<char>,
    answers: Seq<u64>,
    i: int,
) -> u64
    decreases mods.len() - i,
{
    if i < 0 || i >= mods.len() {
        0
    } else if in_module(reg, mods[i], name) != 0 {
        in_module(reg, mods[i], name)
    } else if answers[i] != 0 {
        answers[i]
    } else {
        first_found(reg, mods, name, answers, i + 1)
    }
}

/// The lookup reached `mods[j]`: every module before it gave nothing.
pub open spec fn reached(
    reg: ExportIndexRegistry,
    mods: Seq<Seq<char>>,
    name: Seq<char>,
    answers: Seq<u64>,
    j: int,
) -> bool {
    forall|t: int|
        #![trigger answers[t]]
        #![trigger mods[t]]
        0 <= t < j ==> in_module(reg, mods[t], name) == 0 && answers[t] == 0
}

/// `answers[j]` is what `scan` gave for `(mods[j], name)`, wherever the
/// lookup reached `mods[j]` and the registry had nothing there.
pub open spec fn answered<F: FnMut(&str, &str) -> u64>(
    scan: F,
    reg: ExportIndexRegistry,
    mods: Seq<Seq<char>>,
    name: Seq<char>,
    answers: Seq<u64>,
) -> bool {
    &&& answers.len() == mods.len()
    &&& forall|j: int|
        0 <= j < mods.len() && #[trigger] reached(reg, mods, name, answers, j) && in_module(
            reg,
            mods[j],
            name,
        ) == 0 ==> exists|a: &str, b: &str|
            a@ == mods[j] && b@ == name && #[trigger] call_ensures(scan, (a, b), answers[j])
}

/// The outcome of a lookup of `name` in the trimmed, lower-cased module
/// `m`: the first address the modules tried give (see [`modules_tried`],
/// [`first_found`]), `scan_module` answering where the registry has
/// nothing; when none gives one and `m` is no API-set contract, the
/// lookup of `name` in any module (see [`global_or_scanned`]).
pub open spec fn in_module_result<FM: FnMut(&str, &str) -> u64, FG: FnMut(&str) -> u64>(
    reg: ExportIndexRegistry,
    m: Seq<char>,
    name: Seq<char>,
    scan_module: FM,
    scan_global: FG,
    r: u64,
) -> bool {
    exists|answers: Seq<u64>|
        #[trigger] answered(scan_module, reg, modules_tried(m), name, answers) && {
            let h = first_found(reg, modules_tried(m), name, answers, 0);
            if h != 0 || api_set_contract(m) {
                r == h
            } else {
                global_or_scanned(reg, name, scan_global, r)
            }
        }
}

/// The backing modules of an API-set contract (see [`api_set_fallbacks`]).
fn api_set_fallbacks_of(m: &[char]) -> (r: Vec<&'static str>)
    ensures
        strs_view(r@) == api_set_fallbacks(m@),
{
    let crt = chars_of("api-ms-win-crt-");
    let rtl = chars_of("api-ms-win-core-rtlsupport-");
    let query = chars_of("api-ms-win-core-apiquery-");
    let shcore = chars_of("api-ms-win-shcore-");
    let eventing = chars_of("api-ms-win-eventing-");
    let security = chars_of("api-ms-win-security-");
    let service = chars_of("api-ms-win-service-");
    let r = if starts_with_chars(m, crt.as_slice()) {
        vec!["ucrtbase.dll", "msvcp_win.dll", "kernelbase.dll"]
    } else if starts_with_chars(m, rtl.as_slice()) {
        vec!["ntdll.dll", "kernelbase.dll"]
    } else if starts_with_chars(m, query.as_slice()) {
        vec!["ntdll.dll", "kernelbase.dll"]
    } else if starts_with_chars(m, shcore.as_slice()) {
        vec!["shcore.dll", "kernelbase.dll"]
    } else if starts_with_chars(m, eventing.as_slice()) {
        vec!["ntdll.dll", "kernelbase.dll", "advapi32.dll"]
    } else if starts_with_chars(m, security.as_slice()) {
        vec!["sechost.dll", "advapi32.dll", "kernelbase.dll"]
    } else if starts_with_chars(m, service.as_slice()) {
        vec!["sechost.dll", "kernelbase.dll"]
    } else {
        vec!["kernelbase.dll", "kernel32.dll"]
    };
    assert(strs_view(r@) =~= api_set_fallbacks(m@));
    r
}

/// Lookups that all gave nothing before `i` leave the first hit where it
/// was.
proof fn lemma_first_found_reached(
    reg: ExportIndexRegistry,
    mods: Seq<Seq<char>>,
    name: Seq<char>,
    answers: Seq<u64>,
    i: int,
)
    requires
        0 <= i <= mods.len(),
        reached(reg, mods, name, answers, i),
    ensures
        first_found(reg, mods, name, answers, 0) == first_found(reg, mods, name, answers, i),
    decreases i,
{
    if i > 0 {
        assert(answers[i - 1] == 0);
        lemma_first_found_reached(reg, mods, name, answers, i - 1);
    }
}

/// Try each of `mods` in turn for `name`: in the registry, then through
/// `scan`; the first non-zero address, with what `scan` answered.
fn try_modules<F: FnMut(&str, &str) -> u64>(
    reg: &ExportIndexRegistry,
    mods: &Vec<&str>,
    name: &str,
    scan: &mut F,
) -> (r: (u64, Ghost<Seq<u64>>))
    requires
        reg.wf(),
        forall|g: F, a: &str, b: &str| call_requires(g, (a, b)),
    ensures
        answered(*old(scan), *reg, strs_view(mods@), name@, r.1@),
        r.0 == first_found(*reg, strs_view(mods@), name@, r.1@, 0),
{
    let ghost ms = strs_view(mods@);
    let ghost mut answers: Seq<u64> = Seq::new(mods@.len(), |k: int| 0u64);
    let mut i: usize = 0;
    while i < mods.len()
        invariant
            reg.wf(),
            forall|g: F, a: &str, b: &str| call_requires(g, (a, b)),
            *scan == *old(scan),
            ms == strs_view(mods@),
            i <= mods@.len(),
            answers.len() == mods@.len(),
            reached(*reg, ms, name@, answers, i as int),
            forall|j: int|
                0 <= j < i && in_module(*reg, ms[j], name@) == 0 ==> exists|a: &str, b: &str|
                    a@ == ms[j] && b@ == name@ && #[trigger] call_ensures(*old(scan), (a, b), answers[j]),
        decreases mods@.len() - i,
    {
        let m = mods[i];
        let a = reg.resolve_name_in_module(m, name);
        assert(ms[i as int] == m@);
        assert(in_module(*reg, ms[i as int], name@) == a);
        if a != 0 {
            proof {
                lemma_first_found_reached(*reg, ms, name@, answers, i as int);
                assert forall|j: int|
                    0 <= j < ms.len() && #[trigger] reached(*reg, ms, name@, answers, j) && in_module(
                        *reg,
                        ms[j],
                        name@,
                    ) == 0 implies exists|x: &str, y: &str|
                    x@ == ms[j] && y@ == name@ && #[trigger] call_ensures(*old(scan), (x, y), answers[j]) by {
                    if j > i {
                        assert(answers[i as int] == 0);
                    }
                }
            }
            return (a, Ghost(answers));
        }
        let v = scan(m, name);
        let ghost before = answers;
        proof {
            answers = answers.update(i as int, v);
            lemma_first_found_reached(*reg, ms, name@, answers, i as int);
        }
        if v != 0 {
            proof {
                assert forall|j: int|
                    0 <= j < ms.len() && #[trigger] reached(*reg, ms, name@, answers, j) && in_module(
                        *reg,
                        ms[j],
                        name@,
                    ) == 0 implies exists|x: &str, y: &str|
                    x@ == ms[j] && y@ == name@ && #[trigger] call_ensures(*old(scan), (x, y), answers[j]) by {
                    if j > i {
                        assert(answers[i as int] == v);
                    } else if j < i {
                        assert(answers[j] == before[j]);
                    } else {
                        assert(call_ensures(*old(scan), (m, name), answers[j]));
                    }
                }
            }
            return (v, Ghost(answers));
        }
        proof {
            assert forall|j: int|
                0 <= j < i + 1 && in_module(*reg, ms[j], name@) == 0 implies exists|x: &str, y: &str|
                x@ == ms[j] && y@ == name@ && #[trigger] call_ensures(*old(scan), (x, y), answers[j]) by {
                if j < i {
                    assert(answers[j] == before[j]);
                } else {
                    assert(call_ensures(*old(scan), (m, name), answers[j]));
                }
            }
        }
        i = i + 1;
    }
    proof {
        lemma_first_found_reached(*reg, ms, name@, answers, i as int);
    }
    (0, Ghost(answers))
}

/// A lookup of `name` in the trimmed, lower-cased module `module_lc`
/// (see [`in_module_result`]).
fn resolve_api_name_in_module_inner<FM: FnMut(&str, &str) -> u64, FG: FnMut(&str) -> u64>(
    reg: &ExportIndexRegistry,
    module_lc: &str,
    name: &str,
    scan_module: &mut FM,
    scan_global: &mut FG,
) -> (r: u64)
    requires
        reg.wf(),
        forall|g: FM, a: &str, b: &str| call_requires(g, (a, b)),
        forall|g: FG, a: &str| call_requires(g, (a,)),
    ensures
        in_module_result(*reg, module_lc@, name@, *old(scan_module), *old(scan_global), r),
{
    let api_set = is_api_set_contract(module_lc);
    let mut mods: Vec<&str> = Vec::new();
    mods.push(module_lc);
    if api_set {
        let mcs = chars_of(module_lc);
        let fb = api_set_fallbacks_of(mcs.as_slice());
        let mut k: usize = 0;
        while k < fb.len()
            invariant
                k <= fb@.len(),
                strs_view(fb@) == api_set_fallbacks(module_lc@),
                strs_view(mods@) == seq![module_lc@] + strs_view(fb@).subrange(0, k as int),
            decreases fb@.len() - k,
        {
            let ghost before = mods@;
            mods.push(fb[k]);
            assert(strs_view(mods@) =~= strs_view(before).push(fb@[k as int]@));
            assert(strs_view(fb@).subrange(0, k + 1) =~= strs_view(fb@).subrange(0, k as int).push(
                fb@[k as int]@,
            ));
            k = k + 1;
        }
        assert(strs_view(fb@).subrange(0, fb@.len() as int) =~= strs_view(fb@));
    } else {
        assert(strs_view(mods@) =~= seq![module_lc@]);
    }
    assert(strs_view(mods@) == modules_tried(module_lc@));
    let (h, Ghost(answers)) = try_modules(reg, &mods, name, scan_module);
    assert(answered(*old(scan_module), *reg, modules_tried(module_lc@), name@, answers));
    if h != 0 || api_set {
        return h;
    }
    resolve_api_name(reg, name, scan_global)
}

/// The memo key of a lookup by module and name: the trimmed, lower-cased
/// module, a `\x01` separator, and the name.
pub open spec fn resolve_key(module: Seq<char>, name: Seq<char>) -> Seq<char> {
    lower_seq(trim_seq(module)) + seq!['\u{1}'] + name
}

/// What a call of [`resolve_api_name_in_module`] on `o` leaves, `n`, and
/// gives, `r`: the address memoised for the pair (see [`resolve_key`])
/// with nothing changed; else the address of [`in_module_result`] for the
/// trimmed, lower-cased module, memoised when not 0. Only the memo changes.
pub open spec fn in_module_outcome<FM: FnMut(&str, &str) -> u64, FG: FnMut(&str) -> u64>(
    o: Emu,
    n: Emu,
    module: Seq<char>,
    name: Seq<char>,
    scan_module: FM,
    scan_global: FG,
    r: u64,
) -> bool {
    let key = resolve_key(module, name);
    &&& n == (Emu { api_resolve_cache: n.api_resolve_cache, ..o })
    &&& o.api_resolve_cache@.contains_key(key) ==> r == o.api_resolve_cache@[key]
        && n.api_resolve_cache@ == o.api_resolve_cache@
    &&& !o.api_resolve_cache@.contains_key(key) ==> in_module_result(
        o.export_indexes,
        lower_seq(trim_seq(module)),
        name,
        scan_module,
        scan_global,
        r,
    ) && n.api_resolve_cache@ == (if r != 0 {
        o.api_resolve_cache@.insert(key, r)
    } else {
        o.api_resolve_cache@
    })
}

/// `kernel32` resolver: the address of the export `name` preferring the
/// module `module` (trimmed, lower-cased). An address memoised for the
/// pair is returned as it is; otherwise the lookup of
/// [`in_module_result`] runs (`scan_module` searching one module loaded in
/// the guest, `scan_global` all of them, each 0 when not found), and a
/// non-zero address is memoised. Nothing else in `emu` changes.
pub fn resolve_api_name_in_module<FM: FnMut(&str, &str) -> u64, FG: FnMut(&str) -> u64>(
    emu: &mut Emu,
    module: &str,
    name: &str,
    scan_module: &mut FM,
    scan_global: &mut FG,
) -> (r: u64)
    requires
        old(emu).wf(),
        forall|g: FM, a: &str, b: &str| call_requires(g, (a, b)),
        forall|g: FG, a: &str| call_requires(g, (a,)),
    ensures
        final(emu).wf(),
        in_module_outcome(*old(emu), *final(emu), module@, name@, *old(scan_module), *old(scan_global), r),
{
    let mc = chars_of(module);
    let t = trim_chars(mc.as_slice());
    let l = lower_chars(t.as_slice());
    let module_lc = string_from_chars(l.as_slice());
    let mut kc = lower_chars(t.as_slice());
    kc.push('\u{1}');
    let nc = chars_of(name);
    let mut i: usize = 0;
    let ghost prefix = kc@;
    while i < nc.len()
        invariant
            i <= nc@.len(),
            kc@ == prefix + nc@.subrange(0, i as int),
        decreases nc@.len() - i,
    {
        kc.push(nc[i]);
        i = i + 1;
    }
    assert(nc@.subrange(0, nc@.len() as int) =~= nc@);
    assert(kc@ =~= resolve_key(module@, name@));
    let key = string_from_chars(kc.as_slice());
    match emu.api_resolve_cache.get(key.as_str()) {
        Some(a) => {
            return a;
        },
        None => {},
    }
    let resolved = resolve_api_name_in_module_inner(
        &emu.export_indexes,
        module_lc.as_str(),
        name,
        scan_module,
        scan_global,
    );
    if resolved != 0 {
        emu.api_resolve_cache.insert(key, resolved);
    }
    resolved
}

/// A name once found for an address stays: after a call of
/// [`resolve_api_addr_to_name`] that gave a non-empty name, a second call
/// for the same address gives that name again, whatever the search of the
/// guest's modules would answer, and leaves the state and the memo as
/// they were.
pub proof fn law_addr_name_memoised<F: FnMut(u64) -> String, G: FnMut(u64) -> String>(
    e0: Emu,
    e1: Emu,
    e2: Emu,
    addr: u64,
    scan1: F,
    scan2: G,
    r1: String,
    r2: String,
)
    requires
        addr_name_outcome(e0, e1, addr, scan1, r1),
        addr_name_outcome(e1, e2, addr, scan2, r2),
        r1@.len() > 0,
    ensures
        r2 == r1,
        e2 == (Emu { api_addr_name_cache: e2.api_addr_name_cache, ..e1 }),
        e2.api_addr_name_cache@ == e1.api_addr_name_cache@,
{
}

/// An address once found for a module and name stays: after a call of
/// [`resolve_api_name_in_module`] that gave a non-zero address, a second
/// call for the same pair gives that address again and leaves the state
/// and the memo as they were.
pub proof fn law_in_module_memoised<
    FM: FnMut(&str, &str) -> u64,
    FG: FnMut(&str) -> u64,
    GM: FnMut(&str, &str) -> u64,
    GG: FnMut(&str) -> u64,
>(
    e0: Emu,
    e1: Emu,
    e2: Emu,
    module: Seq<char>,
    name: Seq<char>,
    sm1: FM,
    sg1: FG,
    sm2: GM,
    sg2: GG,
    r1: u64,
    r2: u64,
)
    requires
        in_module_outcome(e0, e1, module, name, sm1, sg1, r1),
        in_module_outcome(e1, e2, module, name, sm2, sg2, r2),
        r1 != 0,
    ensures
        r2 == r1,
        e2 == (Emu { api_resolve_cache: e2.api_resolve_cache, ..e1 }),
        e2.api_resolve_cache@ == e1.api_resolve_cache@,
{
}


/// Deepest forwarder chain the guest-module search follows.
pub const FORWARDER_MAX_DEPTH: u32 = 8;

/// The DLL and symbol parts of a forwarder string `dll.symbol`: the trimmed
/// string split at its first `.`, each part trimmed; `None` when there is
/// no `.` or a part is empty.
pub open spec fn forwarder_parts(f: Seq<char>) -> Option<(Seq<char>, Seq<char>)> {
    match split_first(trim_seq(f), '.') {
        Some((d, sym)) => if trim_seq(d).len() == 0 || trim_seq(sym).len() == 0 {
            None
        } else {
            Some((trim_seq(d), trim_seq(sym)))
        },
        None => None,
    }
}

/// Split a forwarder string into its DLL and symbol parts (see
/// [`forwarder_parts`]).
pub fn split_forwarder(forwarder: &str) -> (r: Option<(String, String)>)
    ensures
        match r {
            Some((d, sym)) => forwarder_parts(forwarder@) == Some((d@, sym@)),
            None => forwarder_parts(forwarder@) is None,
        },
{
    let cs = chars_of(forwarder);
    let t = trim_chars(cs.as_slice());
    match split_first_chars(t.as_slice(), '.') {
        None => None,
        Some((d, sym)) => {
            let d2 = trim_chars(d.as_slice());
            let s2 = trim_chars(sym.as_slice());
            if d2.len() == 0 || s2.len() == 0 {
                None
            } else {
                Some((string_from_chars(d2.as_slice()), string_from_chars(s2.as_slice())))
            }
        },
    }
}

/// The module a forwarder's normalised DLL resolves in: API-set contracts
/// resolve in `kernelbase.dll`.
pub open spec fn forward_module(dll: Seq<char>) -> Seq<char> {
    if api_set_contract(dll) {
        "kernelbase.dll"@
    } else {
        dll
    }
}

/// What resolving the forwarder `f` at chain depth `depth` gives, the
/// library-name normaliser answering as `normalize`, the check that a
/// module is loaded in the guest as `loaded`, and the search of a loaded
/// module's exports as `search`: 0 past the depth limit, for a malformed
/// forwarder, for a DLL name that does not normalise or a module not
/// loaded; otherwise what the search of the module for the symbol gave.
pub open spec fn forwarded_result<
    N: FnMut(&str) -> Option<String>,
    B: FnMut(&str) -> bool,
    R: FnMut(&str, &str, u32) -> u64,
>(f: Seq<char>, depth: u32, normalize: N, loaded: B, search: R, r: u64) -> bool {
    if depth > FORWARDER_MAX_DEPTH {
        r == 0
    } else {
        match forwarder_parts(f) {
            None => r == 0,
            Some((d, sym)) => exists|n: &str, nd: Option<String>|
                n@ == d && #[trigger] call_ensures(normalize, (n,), nd) && match nd {
                    None => r == 0,
                    Some(x) => exists|mn: &str, is_loaded: bool|
                        mn@ == forward_module(x@) && #[trigger] call_ensures(loaded, (mn,), is_loaded) && if !is_loaded {
                            r == 0
                        } else {
                            exists|a: &str, b: &str|
                                a@ == forward_module(x@) && b@ == sym && #[trigger] call_ensures(search, (a, b, depth), r)
                        },
                },
        }
    }
}

/// Resolve an export forwarder string (`KERNELBASE.QueryPerformanceCounter`)
/// at chain depth `inner_depth` against the modules already loaded in the
/// guest (see [`forwarded_result`]).
pub fn resolve_forwarded_export_string_depth<
    N: FnMut(&str) -> Option<String>,
    B: FnMut(&str) -> bool,
    R: FnMut(&str, &str, u32) -> u64,
>(forwarder: &str, inner_depth: u32, normalize: &mut N, loaded: &mut B, search: &mut R) -> (r: u64)
    requires
        forall|g: N, n: &str| call_requires(g, (n,)),
        forall|g: B, n: &str| call_requires(g, (n,)),
        forall|g: R, a: &str, b: &str, d: u32| call_requires(g, (a, b, d)),
    ensures
        forwarded_result(forwarder@, inner_depth, *old(normalize), *old(loaded), *old(search), r),
{
    if inner_depth > FORWARDER_MAX_DEPTH {
        return 0;
    }
    let (dll_part, sym_part) = match split_forwarder(forwarder) {
        Some(p) => p,
        None => {
            return 0;
        },
    };
    let dn = dll_part.as_str();
    let nd = normalize(dn);
    let dll = match nd {
        Some(x) => x,
        None => {
            return 0;
        },
    };
    let mapped = if is_api_set_contract(dll.as_str()) {
        "kernelbase.dll".to_owned()
    } else {
        dll
    };
    let mn = mapped.as_str();
    let is_loaded = loaded(mn);
    if !is_loaded {
        return 0;
    }
    let sn = sym_part.as_str();
    search(mn, sn, inner_depth)
}

/// Resolve an export forwarder string from the top of a chain.
pub fn resolve_forwarded_export_string<
    N: FnMut(&str) -> Option<String>,
    B: FnMut(&str) -> bool,
    R: FnMut(&str, &str, u32) -> u64,
>(forwarder: &str, normalize: &mut N, loaded: &mut B, search: &mut R) -> (r: u64)
    requires
        forall|g: N, n: &str| call_requires(g, (n,)),
        forall|g: B, n: &str| call_requires(g, (n,)),
        forall|g: R, a: &str, b: &str, d: u32| call_requires(g, (a, b, d)),
    ensures
        forwarded_result(forwarder@, 0, *old(normalize), *old(loaded), *old(search), r),
{
    resolve_forwarded_export_string_depth(forwarder, 0, normalize, loaded, search)
}


/// A lookup in an `api-ms-win-core-rtlsupport-` contract (the `Rtl*`
/// routines of `ntdll`) falls back to `ntdll.dll` first: when the contract
/// itself gives nothing (not in the registry, and the search of the guest's
/// modules answers 0 for it) and `ntdll.dll` exports the name in the
/// registry, the lookup gives `ntdll`'s address.
pub proof fn law_rtlsupport_contract_falls_back_to_ntdll<FM: FnMut(&str, &str) -> u64, FG: FnMut(&str) -> u64>(
    reg: ExportIndexRegistry,
    m: Seq<char>,
    name: Seq<char>,
    scan_module: FM,
    scan_global: FG,
    r: u64,
)
    requires
        in_module_result(reg, m, name, scan_module, scan_global, r),
        lower_seq(trim_seq(m)) == m,
        has_prefix(m, "api-ms-win-core-rtlsupport-"@),
        in_module(reg, m, name) == 0,
        forall|a: &str, b: &str, x: u64| a@ == m && b@ == name && #[trigger] call_ensures(scan_module, (a, b), x) ==> x == 0,
        in_module(reg, "ntdll.dll"@, name) != 0,
    ensures
        r == in_module(reg, "ntdll.dll"@, name),
{
    reveal_strlit("api-ms-win-core-rtlsupport-");
    reveal_strlit("api-ms-win-crt-");
    reveal_strlit("ntdll.dll");
    reveal_strlit("kernelbase.dll");
    let pre = "api-ms-win-core-rtlsupport-"@;
    assert(m.subrange(0, pre.len() as int) == pre);
    assert forall|j: int| 0 <= j < 11 implies m[j] == api_ms_win_prefix()[j] by {
        assert(m[j] == m.subrange(0, pre.len() as int)[j]);
    }
    assert(m.subrange(0, 11) =~= api_ms_win_prefix());
    assert(api_set_contract(m));
    assert(m[12] == 'o') by {
        assert(m[12] == m.subrange(0, pre.len() as int)[12]);
    }
    assert(!has_prefix(m, "api-ms-win-crt-"@)) by {
        if has_prefix(m, "api-ms-win-crt-"@) {
            assert(m[12] == m.subrange(0, 15)[12]);
        }
    }
    let mods = modules_tried(m);
    assert(mods =~= seq![m, "ntdll.dll"@, "kernelbase.dll"@]);
    let answers = choose|answers: Seq<u64>|
        #[trigger] answered(scan_module, reg, modules_tried(m), name, answers) && {
            let h = first_found(reg, modules_tried(m), name, answers, 0);
            if h != 0 || api_set_contract(m) {
                r == h
            } else {
                global_or_scanned(reg, name, scan_global, r)
            }
        };
    assert(reached(reg, mods, name, answers, 0));
    assert(mods[0] == m);
    assert(answers[0] == 0);
    assert(mods[1] == "ntdll.dll"@);
    assert(first_found(reg, mods, name, answers, 1) == in_module(reg, "ntdll.dll"@, name));
}


/// A character of `m` under a prefix it has.
proof fn lemma_prefix_at(m: Seq<char>, q: Seq<char>, i: int)
    ensures
        has_prefix(m, q) && 0 <= i < q.len() ==> m[i] == q[i],
{
    if has_prefix(m, q) && 0 <= i < q.len() {
        assert(m.subrange(0, q.len() as int)[i] == m[i]);
    }
}

/// Which modules a lookup in an API-set contract tries, in order, by the
/// contract's family: the contract itself, then `ucrtbase.dll`,
/// `msvcp_win.dll` and `kernelbase.dll` for the C runtime; `ntdll.dll` and
/// `kernelbase.dll` for the `Rtl*` support and API-query families;
/// `shcore.dll` and `kernelbase.dll` for shcore; `ntdll.dll`,
/// `kernelbase.dll` and `advapi32.dll` for eventing; `sechost.dll`,
/// `advapi32.dll` and `kernelbase.dll` for security; `sechost.dll` and
/// `kernelbase.dll` for services; `kernelbase.dll` and `kernel32.dll` for
/// the other core and `ext-ms-` contracts. A module that is no contract is
/// tried alone.
pub proof fn law_api_set_modules_tried(m: Seq<char>)
    requires
        lower_seq(trim_seq(m)) == m,
    ensures
        has_prefix(m, "api-ms-win-crt-"@) ==> modules_tried(m) == seq![m, "ucrtbase.dll"@, "msvcp_win.dll"@, "kernelbase.dll"@],
        has_prefix(m, "api-ms-win-core-rtlsupport-"@) ==> modules_tried(m) == seq![m, "ntdll.dll"@, "kernelbase.dll"@],
        has_prefix(m, "api-ms-win-core-apiquery-"@) ==> modules_tried(m) == seq![m, "ntdll.dll"@, "kernelbase.dll"@],
        has_prefix(m, "api-ms-win-shcore-"@) ==> modules_tried(m) == seq![m, "shcore.dll"@, "kernelbase.dll"@],
        has_prefix(m, "api-ms-win-eventing-"@) ==> modules_tried(m) == seq![m, "ntdll.dll"@, "kernelbase.dll"@, "advapi32.dll"@],
        has_prefix(m, "api-ms-win-security-"@) ==> modules_tried(m) == seq![m, "sechost.dll"@, "advapi32.dll"@, "kernelbase.dll"@],
        has_prefix(m, "api-ms-win-service-"@) ==> modules_tried(m) == seq![m, "sechost.dll"@, "kernelbase.dll"@],
        has_prefix(m, "api-ms-win-core-"@) && !has_prefix(m, "api-ms-win-core-rtlsupport-"@) && !has_prefix(
            m,
            "api-ms-win-core-apiquery-"@,
        ) ==> modules_tried(m) == seq![m, "kernelbase.dll"@, "kernel32.dll"@],
        has_prefix(m, "ext-ms-"@) ==> modules_tried(m) == seq![m, "kernelbase.dll"@, "kernel32.dll"@],
        !has_prefix(m, "api-ms-win-"@) && !has_prefix(m, "ext-ms-"@) ==> modules_tried(m) == seq![m],
{
    reveal_strlit("api-ms-win-crt-");
    reveal_strlit("api-ms-win-core-rtlsupport-");
    reveal_strlit("api-ms-win-core-apiquery-");
    reveal_strlit("api-ms-win-shcore-");
    reveal_strlit("api-ms-win-eventing-");
    reveal_strlit("api-ms-win-security-");
    reveal_strlit("api-ms-win-service-");
    reveal_strlit("api-ms-win-core-");
    reveal_strlit("ext-ms-");
    reveal_strlit("api-ms-win-");
    reveal_strlit("ucrtbase.dll");
    reveal_strlit("msvcp_win.dll");
    reveal_strlit("kernelbase.dll");
    reveal_strlit("ntdll.dll");
    reveal_strlit("shcore.dll");
    reveal_strlit("advapi32.dll");
    reveal_strlit("sechost.dll");
    reveal_strlit("kernel32.dll");
    lemma_prefix_at(m, "api-ms-win-crt-"@, 0);
    lemma_prefix_at(m, "api-ms-win-crt-"@, 1);
    lemma_prefix_at(m, "api-ms-win-crt-"@, 2);
    lemma_prefix_at(m, "api-ms-win-crt-"@, 3);
    lemma_prefix_at(m, "api-ms-win-crt-"@, 4);
    lemma_prefix_at(m, "api-ms-win-crt-"@, 5);
    lemma_prefix_at(m, "api-ms-win-crt-"@, 6);
    lemma_prefix_at(m, "api-ms-win-crt-"@, 7);
    lemma_prefix_at(m, "api-ms-win-crt-"@, 8);
    lemma_prefix_at(m, "api-ms-win-crt-"@, 9);
    lemma_prefix_at(m, "api-ms-win-crt-"@, 10);
    lemma_prefix_at(m, "api-ms-win-crt-"@, 11);
    lemma_prefix_at(m, "api-ms-win-crt-"@, 12);
    lemma_prefix_at(m, "api-ms-win-crt-"@, 13);
    lemma_prefix_at(m, "api-ms-win-core-rtlsupport-"@, 0);
    lemma_prefix_at(m, "api-ms-win-core-rtlsupport-"@, 1);
    lemma_prefix_at(m, "api-ms-win-core-rtlsupport-"@, 2);
    lemma_prefix_at(m, "api-ms-win-core-rtlsupport-"@, 3);
    lemma_prefix_at(m, "api-ms-win-core-rtlsupport-"@, 4);
    lemma_prefix_at(m, "api-ms-win-core-rtlsupport-"@, 5);
    lemma_prefix_at(m, "api-ms-win-core-rtlsupport-"@, 6);
    lemma_prefix_at(m, "api-ms-win-core-rtlsupport-"@, 7);
    lemma_prefix_at(m, "api-ms-win-core-rtlsupport-"@, 8);
    lemma_prefix_at(m, "api-ms-win-core-rtlsupport-"@, 9);
    lemma_prefix_at(m, "api-ms-win-core-rtlsupport-"@, 10);
    lemma_prefix_at(m, "api-ms-win-core-rtlsupport-"@, 11);
    lemma_prefix_at(m, "api-ms-win-core-rtlsupport-"@, 12);
    lemma_prefix_at(m, "api-ms-win-core-rtlsupport-"@, 13);
    lemma_prefix_at(m, "api-ms-win-core-rtlsupport-"@, 16);
    lemma_prefix_at(m, "api-ms-win-core-apiquery-"@, 0);
    lemma_prefix_at(m, "api-ms-win-core-apiquery-"@, 1);
    lemma_prefix_at(m, "api-ms-win-core-apiquery-"@, 2);
    lemma_prefix_at(m, "api-ms-win-core-apiquery-"@, 3);
    lemma_prefix_at(m, "api-ms-win-core-apiquery-"@, 4);
    lemma_prefix_at(m, "api-ms-win-core-apiquery-"@, 5);
    lemma_prefix_at(m, "api-ms-win-core-apiquery-"@, 6);
    lemma_prefix_at(m, "api-ms-win-core-apiquery-"@, 7);
    lemma_prefix_at(m, "api-ms-win-core-apiquery-"@, 8);
    lemma_prefix_at(m, "api-ms-win-core-apiquery-"@, 9);
    lemma_prefix_at(m, "api-ms-win-core-apiquery-"@, 10);
    lemma_prefix_at(m, "api-ms-win-core-apiquery-"@, 11);
    lemma_prefix_at(m, "api-ms-win-core-apiquery-"@, 12);
    lemma_prefix_at(m, "api-ms-win-core-apiquery-"@, 13);
    lemma_prefix_at(m, "api-ms-win-core-apiquery-"@, 16);
    lemma_prefix_at(m, "api-ms-win-shcore-"@, 0);
    lemma_prefix_at(m, "api-ms-win-shcore-"@, 1);
    lemma_prefix_at(m, "api-ms-win-shcore-"@, 2);
    lemma_prefix_at(m, "api-ms-win-shcore-"@, 3);
    lemma_prefix_at(m, "api-ms-win-shcore-"@, 4);
    lemma_prefix_at(m, "api-ms-win-shcore-"@, 5);
    lemma_prefix_at(m, "api-ms-win-shcore-"@, 6);
    lemma_prefix_at(m, "api-ms-win-shcore-"@, 7);
    lemma_prefix_at(m, "api-ms-win-shcore-"@, 8);
    lemma_prefix_at(m, "api-ms-win-shcore-"@, 9);
    lemma_prefix_at(m, "api-ms-win-shcore-"@, 10);
    lemma_prefix_at(m, "api-ms-win-shcore-"@, 11);
    lemma_prefix_at(m, "api-ms-win-shcore-"@, 12);
    lemma_prefix_at(m, "api-ms-win-shcore-"@, 13);
    lemma_prefix_at(m, "api-ms-win-shcore-"@, 16);
    lemma_prefix_at(m, "api-ms-win-eventing-"@, 0);
    lemma_prefix_at(m, "api-ms-win-eventing-"@, 1);
    lemma_prefix_at(m, "api-ms-win-eventing-"@, 2);
    lemma_prefix_at(m, "api-ms-win-eventing-"@, 3);
    lemma_prefix_at(m, "api-ms-win-eventing-"@, 4);
    lemma_prefix_at(m, "api-ms-win-eventing-"@, 5);
    lemma_prefix_at(m, "api-ms-win-eventing-"@, 6);
    lemma_prefix_at(m, "api-ms-win-eventing-"@, 7);
    lemma_prefix_at(m, "api-ms-win-eventing-"@, 8);
    lemma_prefix_at(m, "api-ms-win-eventing-"@, 9);
    lemma_prefix_at(m, "api-ms-win-eventing-"@, 10);
    lemma_prefix_at(m, "api-ms-win-eventing-"@, 11);
    lemma_prefix_at(m, "api-ms-win-eventing-"@, 12);
    lemma_prefix_at(m, "api-ms-win-eventing-"@, 13);
    lemma_prefix_at(m, "api-ms-win-eventing-"@, 16);
    lemma_prefix_at(m, "api-ms-win-security-"@, 0);
    lemma_prefix_at(m, "api-ms-win-security-"@, 1);
    lemma_prefix_at(m, "api-ms-win-security-"@, 2);
    lemma_prefix_at(m, "api-ms-win-security-"@, 3);
    lemma_prefix_at(m, "api-ms-win-security-"@, 4);
    lemma_prefix_at(m, "api-ms-win-security-"@, 5);
    lemma_prefix_at(m, "api-ms-win-security-"@, 6);
    lemma_prefix_at(m, "api-ms-win-security-"@, 7);
    lemma_prefix_at(m, "api-ms-win-security-"@, 8);
    lemma_prefix_at(m, "api-ms-win-security-"@, 9);
    lemma_prefix_at(m, "api-ms-win-security-"@, 10);
    lemma_prefix_at(m, "api-ms-win-security-"@, 11);
    lemma_prefix_at(m, "api-ms-win-security-"@, 12);
    lemma_prefix_at(m, "api-ms-win-security-"@, 13);
    lemma_prefix_at(m, "api-ms-win-security-"@, 16);
    lemma_prefix_at(m, "api-ms-win-service-"@, 0);
    lemma_prefix_at(m, "api-ms-win-service-"@, 1);
    lemma_prefix_at(m, "api-ms-win-service-"@, 2);
    lemma_prefix_at(m, "api-ms-win-service-"@, 3);
    lemma_prefix_at(m, "api-ms-win-service-"@, 4);
    lemma_prefix_at(m, "api-ms-win-service-"@, 5);
    lemma_prefix_at(m, "api-ms-win-service-"@, 6);
    lemma_prefix_at(m, "api-ms-win-service-"@, 7);
    lemma_prefix_at(m, "api-ms-win-service-"@, 8);
    lemma_prefix_at(m, "api-ms-win-service-"@, 9);
    lemma_prefix_at(m, "api-ms-win-service-"@, 10);
    lemma_prefix_at(m, "api-ms-win-service-"@, 11);
    lemma_prefix_at(m, "api-ms-win-service-"@, 12);
    lemma_prefix_at(m, "api-ms-win-service-"@, 13);
    lemma_prefix_at(m, "api-ms-win-service-"@, 16);
    lemma_prefix_at(m, "api-ms-win-core-"@, 0);
    lemma_prefix_at(m, "api-ms-win-core-"@, 1);
    lemma_prefix_at(m, "api-ms-win-core-"@, 2);
    lemma_prefix_at(m, "api-ms-win-core-"@, 3);
    lemma_prefix_at(m, "api-ms-win-core-"@, 4);
    lemma_prefix_at(m, "api-ms-win-core-"@, 5);
    lemma_prefix_at(m, "api-ms-win-core-"@, 6);
    lemma_prefix_at(m, "api-ms-win-core-"@, 7);
    lemma_prefix_at(m, "api-ms-win-core-"@, 8);
    lemma_prefix_at(m, "api-ms-win-core-"@, 9);
    lemma_prefix_at(m, "api-ms-win-core-"@, 10);
    lemma_prefix_at(m, "api-ms-win-core-"@, 11);
    lemma_prefix_at(m, "api-ms-win-core-"@, 12);
    lemma_prefix_at(m, "api-ms-win-core-"@, 13);
    lemma_prefix_at(m, "ext-ms-"@, 0);
    lemma_prefix_at(m, "ext-ms-"@, 1);
    lemma_prefix_at(m, "ext-ms-"@, 2);
    lemma_prefix_at(m, "ext-ms-"@, 3);
    lemma_prefix_at(m, "ext-ms-"@, 4);
    lemma_prefix_at(m, "ext-ms-"@, 5);
    lemma_prefix_at(m, "ext-ms-"@, 6);
    assert("api-ms-win-"@ =~= api_ms_win_prefix());
    assert("ext-ms-"@ =~= crate::binding::ext_ms_prefix());
    if has_prefix(m, "api-ms-win-"@) || has_prefix(m, "ext-ms-"@) {
        if has_prefix(m, "api-ms-win-"@) {
            assert(m.subrange(0, 11) =~= api_ms_win_prefix());
        } else {
            assert(m.subrange(0, 7) =~= crate::binding::ext_ms_prefix());
        }
        assert(api_set_contract(m));
    } else {
        assert(!api_set_contract(m));
        assert(modules_tried(m) =~= seq![m]);
    }
    if has_prefix(m, "api-ms-win-crt-"@) {
        assert(m.subrange(0, 11) =~= api_ms_win_prefix());
        assert(api_set_fallbacks(m) =~= seq!["ucrtbase.dll"@, "msvcp_win.dll"@, "kernelbase.dll"@]);
        assert(modules_tried(m) =~= seq![m, "ucrtbase.dll"@, "msvcp_win.dll"@, "kernelbase.dll"@]);
    }
    if has_prefix(m, "api-ms-win-core-rtlsupport-"@) {
        assert(m.subrange(0, 11) =~= api_ms_win_prefix());
        assert(api_set_fallbacks(m) =~= seq!["ntdll.dll"@, "kernelbase.dll"@]);
        assert(modules_tried(m) =~= seq![m, "ntdll.dll"@, "kernelbase.dll"@]);
    }
    if has_prefix(m, "api-ms-win-core-apiquery-"@) {
        assert(m.subrange(0, 11) =~= api_ms_win_prefix());
        assert(api_set_fallbacks(m) =~= seq!["ntdll.dll"@, "kernelbase.dll"@]);
        assert(modules_tried(m) =~= seq![m, "ntdll.dll"@, "kernelbase.dll"@]);
    }
    if has_prefix(m, "api-ms-win-shcore-"@) {
        assert(m.subrange(0, 11) =~= api_ms_win_prefix());
        assert(api_set_fallbacks(m) =~= seq!["shcore.dll"@, "kernelbase.dll"@]);
        assert(modules_tried(m) =~= seq![m, "shcore.dll"@, "kernelbase.dll"@]);
    }
    if has_prefix(m, "api-ms-win-eventing-"@) {
        assert(m.subrange(0, 11) =~= api_ms_win_prefix());
        assert(api_set_fallbacks(m) =~= seq!["ntdll.dll"@, "kernelbase.dll"@, "advapi32.dll"@]);
        assert(modules_tried(m) =~= seq![m, "ntdll.dll"@, "kernelbase.dll"@, "advapi32.dll"@]);
    }
    if has_prefix(m, "api-ms-win-security-"@) {
        assert(m.subrange(0, 11) =~= api_ms_win_prefix());
        assert(api_set_fallbacks(m) =~= seq!["sechost.dll"@, "advapi32.dll"@, "kernelbase.dll"@]);
        assert(modules_tried(m) =~= seq![m, "sechost.dll"@, "advapi32.dll"@, "kernelbase.dll"@]);
    }
    if has_prefix(m, "api-ms-win-service-"@) {
        assert(m.subrange(0, 11) =~= api_ms_win_prefix());
        assert(api_set_fallbacks(m) =~= seq!["sechost.dll"@, "kernelbase.dll"@]);
        assert(modules_tried(m) =~= seq![m, "sechost.dll"@, "kernelbase.dll"@]);
    }
    if has_prefix(m, "api-ms-win-core-"@) && !has_prefix(m, "api-ms-win-core-rtlsupport-"@) && !has_prefix(
        m,
        "api-ms-win-core-apiquery-"@,
    ) {
        assert(m.subrange(0, 11) =~= api_ms_win_prefix());
        assert(api_set_fallbacks(m) =~= seq!["kernelbase.dll"@, "kernel32.dll"@]);
        assert(modules_tried(m) =~= seq![m, "kernelbase.dll"@, "kernel32.dll"@]);
    }
    if has_prefix(m, "ext-ms-"@) {
        assert(m.subrange(0, 7) =~= crate::binding::ext_ms_prefix());
        assert(api_set_fallbacks(m) =~= seq!["kernelbase.dll"@, "kernel32.dll"@]);
        assert(modules_tried(m) =~= seq![m, "kernelbase.dll"@, "kernel32.dll"@]);
    }
}

} // verus!

