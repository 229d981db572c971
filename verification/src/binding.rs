//! Import binding for 32-bit PE images: walking the import and delay-load
//! thunk tables, resolving each entry through a caller-supplied loader,
//! patching the resolved slots and recording which address names which
//! import, so that a later call through a slot can be named.

use std::collections::HashMap;
use vstd::prelude::*;
use crate::bytes::{c_string_at, le_u32, read_c_string, read_u32_le};
use crate::pe_section::{rva_to_offset, ImageSectionHeader};
use crate::text::{
    chars_of, decimal, has_prefix, lemma_first_index_unique, lemma_split_first, lower_chars, lower_seq, push_decimal,
    split_first, split_first_chars, starts_with_chars, str_eq, string_from_chars, trim_chars,
    trim_seq, to_lowercase_string, unicode_lowercase,
};

verus! {

broadcast use vstd::std_specs::hash::group_hash_axioms;

/// High bit of a 32-bit thunk: the entry imports by ordinal.
pub const IMAGE_ORDINAL_FLAG32: u32 = 0x8000_0000;

/// Low 16 bits of an ordinal thunk: the ordinal itself.
pub const IMAGE_ORDINAL_MASK32: u32 = 0x0000_FFFF;

/// Size in bytes of one 32-bit thunk (one hint/name table entry).
pub const THUNK_SIZE32: usize = 4;

/// One call made to a [`PeLoader`], with the answer binding reads from it.
pub ghost enum PeCall {
    WriteBytes { addr: u64, data: Seq<u8> },
    WriteDword { addr: u64, val: u32 },
    WriteQword { addr: u64, val: u64 },
    LoadLibrary { name: Seq<char>, base: u64 },
    ResolveName { name: Seq<char>, addr: u64 },
    ResolveInModule { module: Seq<char>, name: Seq<char>, addr: u64 },
    ResolveOrdinal { module: Seq<char>, ordinal: u16, addr: u64 },
    Search { name: Seq<char> },
}

/// What import binding needs from whoever hosts the image: loading
/// libraries, resolving exports and writing guest memory. Its model is the
/// log of the calls made to it: each call that changes the host or answers
/// a lookup appends its record, with what it returned.
pub trait PeLoader {
    /// The calls made to this loader so far, oldest first. A host that
    /// is not verified keeps this unmodelled default.
    closed spec fn calls(&self) -> Seq<PeCall> {
        Seq::empty()
    }

    fn is_mapped(&self, addr: u64) -> bool;

    fn write_bytes(&mut self, addr: u64, data: &[u8]) -> (ok: bool)
        ensures
            final(self).calls() == old(self).calls().push(PeCall::WriteBytes { addr, data: data@ }),
    ;

    fn write_dword(&mut self, addr: u64, val: u32) -> (ok: bool)
        ensures
            final(self).calls() == old(self).calls().push(PeCall::WriteDword { addr, val }),
    ;

    fn write_qword(&mut self, addr: u64, val: u64) -> (ok: bool)
        ensures
            final(self).calls() == old(self).calls().push(PeCall::WriteQword { addr, val }),
    ;

    /// Base of the loaded library, 0 when it cannot be loaded.
    fn load_library(&mut self, libname: &str) -> (base: u64)
        ensures
            final(self).calls() == old(self).calls().push(PeCall::LoadLibrary { name: libname@, base }),
    ;

    /// Address of an export searched in every loaded module, 0 if none.
    fn resolve_api_name(&mut self, name: &str) -> (addr: u64)
        ensures
            final(self).calls() == old(self).calls().push(PeCall::ResolveName { name: name@, addr }),
    ;

    /// Address of `name` exported by `module`, 0 if none.
    fn resolve_api_name_in_module(&mut self, module: &str, name: &str) -> (addr: u64)
        ensures
            final(self).calls() == old(self).calls().push(
                PeCall::ResolveInModule { module: module@, name: name@, addr },
            ),
    ;

    /// Address of the export with `ordinal` in `module`, 0 if none.
    fn resolve_api_ordinal_in_module(&mut self, module: &str, ordinal: u16) -> (addr: u64)
        ensures
            final(self).calls() == old(self).calls().push(
                PeCall::ResolveOrdinal { module: module@, ordinal, addr },
            ),
    ;

    fn search_api_name(&mut self, name: &str) -> (r: (u64, String, String))
        ensures
            final(self).calls() == old(self).calls().push(PeCall::Search { name: name@ }),
    ;
}

/// One `IMAGE_IMPORT_DESCRIPTOR`, with the DLL name it points at.
#[derive(Clone, Debug)]
pub struct ImageImportDescriptor {
    pub original_first_thunk: u32,
    pub time_date_stamp: u32,
    pub forwarder_chain: u32,
    pub name_ptr: u32,
    pub first_thunk: u32,
    pub name: String,
}

/// One delay-load directory entry, with the DLL name it points at.
#[derive(Clone, Debug)]
pub struct DelayLoadDirectory {
    pub attributes: u32,
    pub name_ptr: u32,
    pub handle: u32,
    pub address_table: u32,
    pub name_table: u32,
    pub bound_delay_import_table: u32,
    pub unload_delay_import_table: u32,
    pub tstamp: u32,
    pub name: String,
}

/// The parts of a parsed 32-bit PE image that import binding reads and
/// fills: its sections, import descriptors, delay-load directories and the
/// address-to-name table of bound imports (`"dll!function"` or `"dll!#7"`).
pub struct PE32 {
    pub sect_hdr: Vec<ImageSectionHeader>,
    pub image_import_descriptor: Vec<ImageImportDescriptor>,
    pub delay_load_dir: Vec<DelayLoadDirectory>,
    pub iat_names: HashMap<u32, String>,
}

/// File offset of `vaddr` as a 32-bit value, 0 when it is not backed by
/// section data (0 is never a section-data offset in a valid image).
pub open spec fn pe32_offset(sections: Seq<ImageSectionHeader>, vaddr: u32) -> u32 {
    match rva_to_offset(sections, vaddr) {
        Some(o) => if o <= u32::MAX {
            o as u32
        } else {
            0
        },
        None => 0,
    }
}

/// The `(slot rva, thunk)` pairs of a thunk table read from file offset
/// `off`, the slots starting at `rva`: it stops at a zero thunk, at the end
/// of the image, or where the offset or the slot rva would overflow.
pub open spec fn thunk_walk(raw: Seq<u8>, off: int, rva: u32) -> Seq<(u32, u32)>
    decreases raw.len() - off,
{
    if off + 4 > usize::MAX || rva + 4 > u32::MAX || raw.len() < off + 4 || le_u32(raw, off)
        == 0 {
        Seq::empty()
    } else {
        seq![(rva, le_u32(raw, off))].add(thunk_walk(raw, off + 4, (rva + 4) as u32))
    }
}

pub open spec fn is_ordinal_thunk(thunk: u32) -> bool {
    thunk & IMAGE_ORDINAL_FLAG32 != 0
}

pub open spec fn thunk_ordinal(thunk: u32) -> u16 {
    (thunk & IMAGE_ORDINAL_MASK32) as u16
}

/// `#` and the ordinal in decimal.
pub open spec fn ordinal_label(ordinal: u16) -> Seq<char> {
    seq!['#'] + decimal(ordinal as nat)
}

/// `dll!label`.
pub open spec fn qualified(dll: Seq<char>, label: Seq<char>) -> Seq<char> {
    dll + seq!['!'] + label
}

/// File offset of the hint/name entry a by-name thunk points at, when it is
/// backed by section data and its two hint bytes lie in the image.
pub open spec fn hint_name_offset(raw: Seq<u8>, sections: Seq<ImageSectionHeader>, thunk: u32) -> Option<int> {
    let off = pe32_offset(sections, thunk) as int;
    if off + 2 > usize::MAX || off == 0 || raw.len() < off + 2 {
        None
    } else {
        Some(off)
    }
}

/// What a binding run has built so far: the address-to-name table and the
/// per-run resolution cache (key and address, in insertion order).
pub ghost struct BindState {
    pub names: Map<u32, Seq<char>>,
    pub cache: Seq<(Seq<char>, u64)>,
}

/// The cached address of `key`, if the cache holds it.
pub open spec fn cache_find(cache: Seq<(Seq<char>, u64)>, key: Seq<char>) -> Option<u64>
    decreases cache.len(),
{
    if cache.len() == 0 {
        None
    } else if cache[0].0 == key {
        Some(cache[0].1)
    } else {
        cache_find(cache.drop_first(), key)
    }
}

/// Resolution through the cache: a cached key keeps its address; a new key
/// takes `answer` (what the loader returned) and is remembered.
pub open spec fn resolve_cached(cache: Seq<(Seq<char>, u64)>, key: Seq<char>, answer: u64) -> (u64, Seq<(Seq<char>, u64)>) {
    match cache_find(cache, key) {
        Some(a) => (a, cache),
        None => (answer, cache.push((key, answer))),
    }
}

/// Record a bound import: a resolved one under its address (low 32 bits),
/// an unresolved one under the thunk value its slot keeps.
pub open spec fn record_import(names: Map<u32, Seq<char>>, addr: u64, thunk: u32, name: Seq<char>) -> Map<u32, Seq<char>> {
    names.insert(
        if addr != 0 {
            addr as u32
        } else {
            thunk
        },
        name,
    )
}

/// The address a thunk's lookups gave: the first answer (by ordinal, or by
/// name in the DLL), or, when that is 0, the second (the global lookup of
/// a name).
pub open spec fn pick(a: (u64, u64)) -> u64 {
    if a.0 != 0 {
        a.0
    } else {
        a.1
    }
}

/// Binding one ordinal thunk; the cache key is the recorded name itself.
pub open spec fn ordinal_step(st: BindState, dll: Seq<char>, ordinal: u16, thunk: u32, answer: u64) -> BindState {
    let name = qualified(dll, ordinal_label(ordinal));
    let (addr, cache) = resolve_cached(st.cache, name, answer);
    BindState { names: record_import(st.names, addr, thunk, name), cache }
}

/// Binding one thunk of `dll`'s table. A by-name thunk whose hint/name
/// entry is out of reach is skipped; otherwise its cache key is the
/// Unicode-lower-cased `dll!function`.
pub open spec fn entry_step(
    st: BindState,
    raw: Seq<u8>,
    sections: Seq<ImageSectionHeader>,
    dll: Seq<char>,
    thunk: u32,
    answer: (u64, u64),
) -> BindState {
    if is_ordinal_thunk(thunk) {
        ordinal_step(st, dll, thunk_ordinal(thunk), thunk, answer.0)
    } else {
        match hint_name_offset(raw, sections, thunk) {
            None => st,
            Some(off) => {
                let func = c_string_at(raw, off + 2);
                let key = qualified(unicode_lowercase(dll), unicode_lowercase(func));
                let (addr, cache) = resolve_cached(st.cache, key, pick(answer));
                BindState { names: record_import(st.names, addr, thunk, qualified(dll, func)), cache }
            },
        }
    }
}

/// Binding the thunks `entries` in order, the i-th resolved by `answers[i]`.
pub open spec fn run_entries(
    st: BindState,
    raw: Seq<u8>,
    sections: Seq<ImageSectionHeader>,
    dll: Seq<char>,
    entries: Seq<(u32, u32)>,
    answers: Seq<(u64, u64)>,
) -> BindState
    decreases entries.len(),
{
    if entries.len() == 0 {
        st
    } else {
        entry_step(
            run_entries(st, raw, sections, dll, entries.drop_last(), answers.drop_last()),
            raw,
            sections,
            dll,
            entries.last().1,
            answers.last(),
        )
    }
}

/// One import table to bind: the DLL, the rva of the table that is walked
/// and the rva of the slots that are patched.
pub ghost struct ImportGroup {
    pub name: Seq<char>,
    pub table: u32,
    pub slots: u32,
}

pub open spec fn import_group(name: Seq<char>, table: u32, slots: u32) -> ImportGroup {
    ImportGroup { name, table, slots }
}

/// The `api-ms-win-` prefix of API-set contract names.
pub open spec fn api_ms_win_prefix() -> Seq<char> {
    seq!['a', 'p', 'i', '-', 'm', 's', '-', 'w', 'i', 'n', '-']
}

/// The `ext-ms-` prefix of API-set extension contract names.
pub open spec fn ext_ms_prefix() -> Seq<char> {
    seq!['e', 'x', 't', '-', 'm', 's', '-']
}

/// API-set contract DLL names (`api-ms-win-*`, `ext-ms-*`, trimmed, any
/// ASCII case) are virtual: they resolve through backing DLLs.
pub open spec fn api_set_contract(module: Seq<char>) -> bool {
    let m = lower_seq(trim_seq(module));
    has_prefix(m, api_ms_win_prefix()) || has_prefix(m, ext_ms_prefix())
}

/// A table is walked when its DLL has a name, loaded (its base is not 0)
/// or is an API-set contract, and both the walked table and the slots are
/// backed by data.
pub open spec fn group_walked(sections: Seq<ImageSectionHeader>, g: ImportGroup, loaded: u64) -> bool {
    &&& g.name.len() > 0
    &&& loaded != 0 || api_set_contract(g.name)
    &&& pe32_offset(sections, g.slots) != 0
    &&& pe32_offset(sections, g.table) != 0
}

pub open spec fn group_entries(
    raw: Seq<u8>,
    sections: Seq<ImageSectionHeader>,
    g: ImportGroup,
    loaded: u64,
) -> Seq<(u32, u32)> {
    if group_walked(sections, g, loaded) {
        thunk_walk(raw, pe32_offset(sections, g.table) as int, g.slots)
    } else {
        Seq::empty()
    }
}

/// Binding the tables `groups` in order; `loaded[i]` is the base the
/// loader gave the i-th DLL and `answers[i]` its answers for its thunks.
pub open spec fn run_groups(
    st: BindState,
    raw: Seq<u8>,
    sections: Seq<ImageSectionHeader>,
    groups: Seq<ImportGroup>,
    loaded: Seq<u64>,
    answers: Seq<Seq<(u64, u64)>>,
) -> BindState
    decreases groups.len(),
{
    if groups.len() == 0 {
        st
    } else {
        let g = groups.last();
        run_entries(
            run_groups(st, raw, sections, groups.drop_last(), loaded.drop_last(), answers.drop_last()),
            raw,
            sections,
            g.name,
            group_entries(raw, sections, g, loaded.last()),
            answers.last(),
        )
    }
}

/// The patch of the slot at `rva` with a resolved address: none when the
/// address is 0.
pub open spec fn slot_patch(base_addr: u32, rva: u32, addr: u64) -> Seq<PeCall> {
    if addr != 0 {
        seq![PeCall::WriteDword { addr: (base_addr as u64 + rva as u64) as u64, val: addr as u32 }]
    } else {
        Seq::empty()
    }
}

/// The loader calls binding one thunk makes, its slot at `rva`, the
/// lookups answering `answer` (see [`pick`]): a key already cached is not
/// looked up again; an ordinal is looked up in the DLL; a name in the DLL
/// and, when that gives 0, globally; a resolved slot is patched with the
/// address.
pub open spec fn entry_calls(
    st: BindState,
    raw: Seq<u8>,
    sections: Seq<ImageSectionHeader>,
    dll: Seq<char>,
    rva: u32,
    thunk: u32,
    answer: (u64, u64),
    base_addr: u32,
) -> Seq<PeCall> {
    if is_ordinal_thunk(thunk) {
        let ordinal = thunk_ordinal(thunk);
        let key = qualified(dll, ordinal_label(ordinal));
        let lookups = if cache_find(st.cache, key) is Some {
            Seq::empty()
        } else {
            seq![PeCall::ResolveOrdinal { module: dll, ordinal, addr: answer.0 }]
        };
        lookups + slot_patch(base_addr, rva, resolve_cached(st.cache, key, answer.0).0)
    } else {
        match hint_name_offset(raw, sections, thunk) {
            None => Seq::empty(),
            Some(off) => {
                let func = c_string_at(raw, off + 2);
                let key = qualified(unicode_lowercase(dll), unicode_lowercase(func));
                let lookups = if cache_find(st.cache, key) is Some {
                    Seq::empty()
                } else if answer.0 != 0 {
                    seq![PeCall::ResolveInModule { module: dll, name: func, addr: answer.0 }]
                } else {
                    seq![
                        PeCall::ResolveInModule { module: dll, name: func, addr: 0 },
                        PeCall::ResolveName { name: func, addr: answer.1 },
                    ]
                };
                lookups + slot_patch(base_addr, rva, resolve_cached(st.cache, key, pick(answer)).0)
            },
        }
    }
}

/// The loader calls binding the thunks `entries` in order makes.
pub open spec fn run_entries_calls(
    st: BindState,
    raw: Seq<u8>,
    sections: Seq<ImageSectionHeader>,
    dll: Seq<char>,
    entries: Seq<(u32, u32)>,
    answers: Seq<(u64, u64)>,
    base_addr: u32,
) -> Seq<PeCall>
    decreases entries.len(),
{
    if entries.len() == 0 {
        Seq::empty()
    } else {
        run_entries_calls(st, raw, sections, dll, entries.drop_last(), answers.drop_last(), base_addr)
            + entry_calls(
            run_entries(st, raw, sections, dll, entries.drop_last(), answers.drop_last()),
            raw,
            sections,
            dll,
            entries.last().0,
            entries.last().1,
            answers.last(),
            base_addr,
        )
    }
}

/// The loader calls binding one table makes: a DLL with a name is loaded
/// (giving `loaded`), then its walked thunks are bound.
pub open spec fn group_calls(
    st: BindState,
    raw: Seq<u8>,
    sections: Seq<ImageSectionHeader>,
    g: ImportGroup,
    loaded: u64,
    answers: Seq<(u64, u64)>,
    base_addr: u32,
) -> Seq<PeCall> {
    if g.name.len() == 0 {
        Seq::empty()
    } else {
        seq![PeCall::LoadLibrary { name: g.name, base: loaded }] + run_entries_calls(
            st,
            raw,
            sections,
            g.name,
            group_entries(raw, sections, g, loaded),
            answers,
            base_addr,
        )
    }
}

/// The loader calls binding the tables `groups` in order makes.
pub open spec fn run_groups_calls(
    st: BindState,
    raw: Seq<u8>,
    sections: Seq<ImageSectionHeader>,
    groups: Seq<ImportGroup>,
    loaded: Seq<u64>,
    answers: Seq<Seq<(u64, u64)>>,
    base_addr: u32,
) -> Seq<PeCall>
    decreases groups.len(),
{
    if groups.len() == 0 {
        Seq::empty()
    } else {
        run_groups_calls(st, raw, sections, groups.drop_last(), loaded.drop_last(), answers.drop_last(), base_addr)
            + group_calls(
            run_groups(st, raw, sections, groups.drop_last(), loaded.drop_last(), answers.drop_last()),
            raw,
            sections,
            groups.last(),
            loaded.last(),
            answers.last(),
            base_addr,
        )
    }
}

/// What binding the tables `groups` of an image does, from the names
/// `names0`: the names it records and, appended to the loader's log, the
/// calls it makes, for the bases and answers the loader gave.
pub open spec fn binding_outcome(
    names0: Map<u32, Seq<char>>,
    names: Map<u32, Seq<char>>,
    calls0: Seq<PeCall>,
    calls: Seq<PeCall>,
    raw: Seq<u8>,
    sections: Seq<ImageSectionHeader>,
    groups: Seq<ImportGroup>,
    base_addr: u32,
) -> bool {
    let st0 = BindState { names: names0, cache: Seq::empty() };
    exists|loaded: Seq<u64>, answers: Seq<Seq<(u64, u64)>>|
        names == #[trigger] run_groups(st0, raw, sections, groups, loaded, answers).names && calls == calls0
            + run_groups_calls(st0, raw, sections, groups, loaded, answers, base_addr)
}

/// The import descriptors as tables: the lookup table (the IAT itself
/// when there is none) is walked, the IAT is patched.
pub open spec fn iat_groups(descs: Seq<ImageImportDescriptor>) -> Seq<ImportGroup> {
    descs.map_values(
        |d: ImageImportDescriptor|
            import_group(
                d.name@,
                if d.original_first_thunk != 0 {
                    d.original_first_thunk
                } else {
                    d.first_thunk
                },
                d.first_thunk,
            ),
    )
}

/// The delay-load directories as tables: the name table is walked, the
/// address table is patched.
pub open spec fn delay_groups(dirs: Seq<DelayLoadDirectory>) -> Seq<ImportGroup> {
    dirs.map_values(
        |d: DelayLoadDirectory| import_group(d.name@, d.name_table, d.address_table),
    )
}

/// The address-to-name table with its names as character sequences.
pub open spec fn names_view(m: Map<u32, String>) -> Map<u32, Seq<char>> {
    Map::new(|k: u32| m.dom().contains(k), |k: u32| m[k]@)
}

pub open spec fn cache_view(c: Seq<(String, u64)>) -> Seq<(Seq<char>, u64)> {
    c.map_values(|p: (String, u64)| (p.0@, p.1))
}

pub open spec fn bind_state(names: Map<u32, String>, cache: Seq<(String, u64)>) -> BindState {
    BindState { names: names_view(names), cache: cache_view(cache) }
}

/// Binding leaves the image's sections and import directories as they were.
pub open spec fn same_tables(a: PE32, b: PE32) -> bool {
    &&& a.sect_hdr@ == b.sect_hdr@
    &&& a.image_import_descriptor@ == b.image_import_descriptor@
    &&& a.delay_load_dir@ == b.delay_load_dir@
}

/// The function part of the name recorded for `addr` (after the first
/// `!`), empty when nothing is recorded or the name has no `!`.
pub open spec fn import_name_of(names: Map<u32, Seq<char>>, addr: u32) -> Seq<char> {
    if names.contains_key(addr) {
        match split_first(names[addr], '!') {
            Some((_, f)) => f,
            None => Seq::empty(),
        }
    } else {
        Seq::empty()
    }
}

/// The whole name recorded for `addr`, empty when nothing is recorded.
pub open spec fn import_dll_and_name_of(names: Map<u32, Seq<char>>, addr: u32) -> Seq<char> {
    if names.contains_key(addr) {
        names[addr]
    } else {
        Seq::empty()
    }
}

proof fn lemma_names_view_insert(m: Map<u32, String>, k: u32, v: String)
    ensures
        names_view(m.insert(k, v)) == names_view(m).insert(k, v@),
{
    assert(names_view(m.insert(k, v)) =~= names_view(m).insert(k, v@));
}

proof fn lemma_cache_view_push(c: Seq<(String, u64)>, key: String, a: u64)
    ensures
        cache_view(c.push((key, a))) == cache_view(c).push((key@, a)),
{
    assert(cache_view(c.push((key, a))) =~= cache_view(c).push((key@, a)));
}

/// True for API-set contract names (`api-ms-win-*`, `ext-ms-*`), which
/// resolve through backing DLLs, so a missing file does not skip them.
pub fn is_api_set_contract(module: &str) -> (r: bool)
    ensures
        r == api_set_contract(module@),
{
    let cs = chars_of(module);
    let t = trim_chars(cs.as_slice());
    let m = lower_chars(t.as_slice());
    let p1 = vec!['a', 'p', 'i', '-', 'm', 's', '-', 'w', 'i', 'n', '-'];
    let p2 = vec!['e', 'x', 't', '-', 'm', 's', '-'];
    assert(p1@ =~= api_ms_win_prefix());
    assert(p2@ =~= ext_ms_prefix());
    starts_with_chars(m.as_slice(), p1.as_slice()) || starts_with_chars(m.as_slice(), p2.as_slice())
}

/// `dll!label` as a `String`.
fn qualified_string(dll: &str, label: &[char]) -> (s: String)
    ensures
        s@ == qualified(dll@, label@),
{
    let mut v = chars_of(dll);
    v.push('!');
    let mut i: usize = 0;
    let ghost start = v@;
    while i < label.len()
        invariant
            i <= label@.len(),
            v@ == start + label@.subrange(0, i as int),
        decreases label@.len() - i,
    {
        v.push(label[i]);
        i = i + 1;
    }
    assert(v@ =~= qualified(dll@, label@));
    string_from_chars(v.as_slice())
}

/// The cached address of `key`, if any.
fn cache_lookup(cache: &Vec<(String, u64)>, key: &str) -> (r: Option<u64>)
    ensures
        r == cache_find(cache_view(cache@), key@),
{
    let ghost cv = cache_view(cache@);
    let mut i: usize = 0;
    assert(cv.subrange(0, cv.len() as int) =~= cv);
    while i < cache.len()
        invariant
            cv == cache_view(cache@),
            i <= cache@.len(),
            cache_find(cv, key@) == cache_find(cv.subrange(i as int, cv.len() as int), key@),
        decreases cache@.len() - i,
    {
        let ghost rest = cv.subrange(i as int, cv.len() as int);
        assert(rest[0] == (cache@[i as int].0@, cache@[i as int].1));
        if str_eq(cache[i].0.as_str(), key) {
            return Some(cache[i].1);
        }
        assert(rest.drop_first() =~= cv.subrange(i + 1, cv.len() as int));
        i = i + 1;
    }
    assert(cv.subrange(i as int, cv.len() as int) =~= Seq::<(Seq<char>, u64)>::empty());
    None
}

impl PE32 {
    /// File offset of `vaddr`, 0 when no section data backs it.
    pub fn vaddr_to_off(sections: &[ImageSectionHeader], vaddr: u32) -> (r: u32)
        ensures
            r == pe32_offset(sections@, vaddr),
    {
        match crate::pe_section::vaddr_to_off(sections, vaddr) {
            Some(o) => if o <= 0xFFFF_FFFFusize {
                o as u32
            } else {
                0
            },
            None => 0,
        }
    }

    /// The NUL-terminated string at `off` (lossy UTF-8).
    pub fn read_string(raw: &[u8], off: usize) -> (s: String)
        ensures
            s@ == c_string_at(raw@, off as int),
    {
        read_c_string(raw, off)
    }

    /// Bind the delay-load import tables through `loader`. Each directory
    /// whose DLL loads (or is an API-set contract) has its name table
    /// walked; every thunk is resolved (by ordinal, or by name in the DLL
    /// and then globally), cached per run by key, its slot in the address
    /// table patched when resolved, and its name recorded in `iat_names`
    /// (see [`binding_outcome`]).
    pub fn delay_load_binding<L: PeLoader>(&mut self, raw: &[u8], loader: &mut L, base_addr: u32)
        ensures
            same_tables(*final(self), *old(self)),
            binding_outcome(
                names_view(old(self).iat_names@),
                names_view(final(self).iat_names@),
                old(loader).calls(),
                final(loader).calls(),
                raw@,
                old(self).sect_hdr@,
                delay_groups(old(self).delay_load_dir@),
                base_addr,
            ),
    {
        let mut resolved_cache: Vec<(String, u64)> = Vec::new();
        let ghost groups = delay_groups(self.delay_load_dir@);
        let ghost st0 = bind_state(self.iat_names@, Seq::empty());
        let ghost mut loaded: Seq<u64> = Seq::empty();
        let ghost mut answers: Seq<Seq<(u64, u64)>> = Seq::empty();
        assert(cache_view(resolved_cache@) =~= Seq::<(Seq<char>, u64)>::empty());
        assert(old(loader).calls() =~= old(loader).calls() + run_groups_calls(
            st0, raw@, old(self).sect_hdr@, groups.take(0), loaded, answers, base_addr));
        let n = self.delay_load_dir.len();
        let mut i: usize = 0;
        while i < n
            invariant
                n == self.delay_load_dir@.len(),
                i <= n,
                same_tables(*self, *old(self)),
                groups == delay_groups(old(self).delay_load_dir@),
                st0 == bind_state(old(self).iat_names@, Seq::empty()),
                loaded.len() == i,
                answers.len() == i,
                bind_state(self.iat_names@, resolved_cache@) == run_groups(
                    st0,
                    raw@,
                    old(self).sect_hdr@,
                    groups.take(i as int),
                    loaded,
                    answers,
                ),
                loader.calls() == old(loader).calls() + run_groups_calls(
                    st0,
                    raw@,
                    old(self).sect_hdr@,
                    groups.take(i as int),
                    loaded,
                    answers,
                    base_addr,
                ),
            decreases n - i,
        {
            let name = self.delay_load_dir[i].name.clone();
            let name_table = self.delay_load_dir[i].name_table;
            let address_table = self.delay_load_dir[i].address_table;
            let ghost calls_before = loader.calls();
            let g = self.bind_group(raw, loader, base_addr, name.as_str(), name_table, address_table, &mut resolved_cache);
            proof {
                assert(groups[i as int] == import_group(name@, name_table, address_table));
                let l2 = loaded.push(g@.0);
                let a2 = answers.push(g@.1);
                assert(groups.take(i + 1).drop_last() =~= groups.take(i as int));
                assert(l2.drop_last() =~= loaded);
                assert(a2.drop_last() =~= answers);
                loaded = l2;
                answers = a2;
                assert(loader.calls() =~= old(loader).calls() + run_groups_calls(
                    st0, raw@, old(self).sect_hdr@, groups.take(i + 1), loaded, answers, base_addr));
            }
            i = i + 1;
        }
        assert(groups.take(n as int) =~= groups);
        assert(st0 == BindState { names: names_view(old(self).iat_names@), cache: Seq::empty() });
        assert(names_view(self.iat_names@) == run_groups(st0, raw@, old(self).sect_hdr@, groups, loaded, answers).names);
    }

    /// Bind the import address table through `loader`. Each descriptor
    /// whose DLL loads (or is an API-set contract) has its lookup table
    /// (the IAT itself when there is none) walked; every thunk is resolved
    /// (by ordinal, or by name in the DLL and then globally), cached per
    /// run by key, its IAT slot patched when resolved, and its name
    /// recorded in `iat_names`: under the resolved address, or under the
    /// thunk value the slot keeps when unresolved (see [`binding_outcome`]).
    pub fn iat_binding<L: PeLoader>(&mut self, raw: &[u8], loader: &mut L, base_addr: u32)
        ensures
            same_tables(*final(self), *old(self)),
            binding_outcome(
                names_view(old(self).iat_names@),
                names_view(final(self).iat_names@),
                old(loader).calls(),
                final(loader).calls(),
                raw@,
                old(self).sect_hdr@,
                iat_groups(old(self).image_import_descriptor@),
                base_addr,
            ),
    {
        let mut resolved_cache: Vec<(String, u64)> = Vec::new();
        let ghost groups = iat_groups(self.image_import_descriptor@);
        let ghost st0 = bind_state(self.iat_names@, Seq::empty());
        let ghost mut loaded: Seq<u64> = Seq::empty();
        let ghost mut answers: Seq<Seq<(u64, u64)>> = Seq::empty();
        assert(cache_view(resolved_cache@) =~= Seq::<(Seq<char>, u64)>::empty());
        assert(old(loader).calls() =~= old(loader).calls() + run_groups_calls(
            st0, raw@, old(self).sect_hdr@, groups.take(0), loaded, answers, base_addr));
        let n = self.image_import_descriptor.len();
        let mut i: usize = 0;
        while i < n
            invariant
                n == self.image_import_descriptor@.len(),
                i <= n,
                same_tables(*self, *old(self)),
                groups == iat_groups(old(self).image_import_descriptor@),
                st0 == bind_state(old(self).iat_names@, Seq::empty()),
                loaded.len() == i,
                answers.len() == i,
                bind_state(self.iat_names@, resolved_cache@) == run_groups(
                    st0,
                    raw@,
                    old(self).sect_hdr@,
                    groups.take(i as int),
                    loaded,
                    answers,
                ),
                loader.calls() == old(loader).calls() + run_groups_calls(
                    st0,
                    raw@,
                    old(self).sect_hdr@,
                    groups.take(i as int),
                    loaded,
                    answers,
                    base_addr,
                ),
            decreases n - i,
        {
            let iim_name = self.image_import_descriptor[i].name.clone();
            let original_first_thunk = self.image_import_descriptor[i].original_first_thunk;
            let first_thunk = self.image_import_descriptor[i].first_thunk;
            let walk_thunk = if original_first_thunk != 0 {
                original_first_thunk
            } else {
                first_thunk
            };
            let g = self.bind_group(raw, loader, base_addr, iim_name.as_str(), walk_thunk, first_thunk, &mut resolved_cache);
            proof {
                assert(groups[i as int] == import_group(iim_name@, walk_thunk, first_thunk));
                let l2 = loaded.push(g@.0);
                let a2 = answers.push(g@.1);
                assert(groups.take(i + 1).drop_last() =~= groups.take(i as int));
                assert(l2.drop_last() =~= loaded);
                assert(a2.drop_last() =~= answers);
                loaded = l2;
                answers = a2;
                assert(loader.calls() =~= old(loader).calls() + run_groups_calls(
                    st0, raw@, old(self).sect_hdr@, groups.take(i + 1), loaded, answers, base_addr));
            }
            i = i + 1;
        }
        assert(groups.take(n as int) =~= groups);
        assert(st0 == BindState { names: names_view(old(self).iat_names@), cache: Seq::empty() });
        assert(names_view(self.iat_names@) == run_groups(st0, raw@, old(self).sect_hdr@, groups, loaded, answers).names);
    }

    /// Walk one import table of `dll`, binding each thunk. Returns the base
    /// the loader gave the library and its answers for each walked thunk.
    fn bind_group<L: PeLoader>(
        &mut self,
        raw: &[u8],
        loader: &mut L,
        base_addr: u32,
        dll: &str,
        table: u32,
        slots: u32,
        resolved_cache: &mut Vec<(String, u64)>,
    ) -> (g: Ghost<(u64, Seq<(u64, u64)>)>)
        ensures
            same_tables(*final(self), *old(self)),
            bind_state(final(self).iat_names@, final(resolved_cache)@) == run_entries(
                bind_state(old(self).iat_names@, old(resolved_cache)@),
                raw@,
                old(self).sect_hdr@,
                dll@,
                group_entries(raw@, old(self).sect_hdr@, import_group(dll@, table, slots), g@.0),
                g@.1,
            ),
            final(loader).calls() == old(loader).calls() + group_calls(
                bind_state(old(self).iat_names@, old(resolved_cache)@),
                raw@,
                old(self).sect_hdr@,
                import_group(dll@, table, slots),
                g@.0,
                g@.1,
                base_addr,
            ),
    {
        let ghost sects = self.sect_hdr@;
        let ghost grp = import_group(dll@, table, slots);
        let ghost calls0 = loader.calls();
        if dll.is_empty() {
            assert(old(loader).calls() =~= old(loader).calls() + Seq::<PeCall>::empty());
            return Ghost((0, Seq::empty()));
        }
        let lib = loader.load_library(dll);
        let loaded = lib != 0;
        let ghost calls1 = loader.calls();
        assert(calls1 == calls0 + seq![PeCall::LoadLibrary { name: dll@, base: lib }]);
        if !loaded && !is_api_set_contract(dll) {
            assert(group_entries(raw@, sects, grp, lib) =~= Seq::<(u32, u32)>::empty());
            assert(calls1 =~= calls0 + (seq![PeCall::LoadLibrary { name: dll@, base: lib }] + Seq::<PeCall>::empty()));
            return Ghost((lib, Seq::empty()));
        }
        let slot_off = PE32::vaddr_to_off(self.sect_hdr.as_slice(), slots);
        let table_off = PE32::vaddr_to_off(self.sect_hdr.as_slice(), table);
        if slot_off == 0 || table_off == 0 {
            assert(group_entries(raw@, sects, grp, lib) =~= Seq::<(u32, u32)>::empty());
            assert(calls1 =~= calls0 + (seq![PeCall::LoadLibrary { name: dll@, base: lib }] + Seq::<PeCall>::empty()));
            return Ghost((lib, Seq::empty()));
        }
        assert(group_walked(sects, grp, lib));
        let ghost st0 = bind_state(self.iat_names@, resolved_cache@);
        let ghost mut done: Seq<(u32, u32)> = Seq::empty();
        let ghost mut answers: Seq<(u64, u64)> = Seq::empty();
        let mut off_name: usize = table_off as usize;
        let mut rva: u32 = slots;
        assert(thunk_walk(raw@, table_off as int, slots) =~= done + thunk_walk(
            raw@,
            off_name as int,
            rva,
        ));
        assert(calls1 =~= calls1 + run_entries_calls(st0, raw@, sects, dll@, done, answers, base_addr));
        loop
            invariant
                sects == old(self).sect_hdr@,
                grp == import_group(dll@, table, slots),
                group_walked(sects, grp, lib),
                table_off == pe32_offset(sects, table),
                same_tables(*self, *old(self)),
                st0 == bind_state(old(self).iat_names@, old(resolved_cache)@),
                thunk_walk(raw@, table_off as int, slots) == done + thunk_walk(
                    raw@,
                    off_name as int,
                    rva,
                ),
                answers.len() == done.len(),
                bind_state(self.iat_names@, resolved_cache@) == run_entries(
                    st0,
                    raw@,
                    sects,
                    dll@,
                    done,
                    answers,
                ),
                calls1 == old(loader).calls() + seq![PeCall::LoadLibrary { name: dll@, base: lib }],
                loader.calls() == calls1 + run_entries_calls(st0, raw@, sects, dll@, done, answers, base_addr),
            decreases raw@.len() - off_name,
        {
            let next_off_name = match off_name.checked_add(THUNK_SIZE32) {
                Some(v) => v,
                None => {
                    assert(done + thunk_walk(raw@, off_name as int, rva) =~= done);
                    assert(loader.calls() =~= old(loader).calls() + group_calls(st0, raw@, sects, grp, lib, answers, base_addr));
                    return Ghost((lib, answers));
                },
            };
            let next_rva = match rva.checked_add(4) {
                Some(v) => v,
                None => {
                    assert(done + thunk_walk(raw@, off_name as int, rva) =~= done);
                    assert(loader.calls() =~= old(loader).calls() + group_calls(st0, raw@, sects, grp, lib, answers, base_addr));
                    return Ghost((lib, answers));
                },
            };
            if raw.len() < next_off_name {
                assert(done + thunk_walk(raw@, off_name as int, rva) =~= done);
                assert(loader.calls() =~= old(loader).calls() + group_calls(st0, raw@, sects, grp, lib, answers, base_addr));
                return Ghost((lib, answers));
            }
            let thunk = read_u32_le(raw, off_name);
            if thunk == 0 {
                assert(done + thunk_walk(raw@, off_name as int, rva) =~= done);
                assert(loader.calls() =~= old(loader).calls() + group_calls(st0, raw@, sects, grp, lib, answers, base_addr));
                return Ghost((lib, answers));
            }
            let ghost before_calls = loader.calls();
            let ghost before_state = bind_state(self.iat_names@, resolved_cache@);
            let a = self.bind_thunk(raw, loader, base_addr, rva, dll, thunk, resolved_cache);
            proof {
                let d2 = done.push((rva, thunk));
                let a2 = answers.push(a@);
                assert(thunk_walk(raw@, off_name as int, rva) == seq![(rva, thunk)].add(
                    thunk_walk(raw@, next_off_name as int, next_rva),
                ));
                assert(done + thunk_walk(raw@, off_name as int, rva) =~= d2 + thunk_walk(
                    raw@,
                    next_off_name as int,
                    next_rva,
                ));
                assert(d2.drop_last() =~= done);
                assert(a2.drop_last() =~= answers);
                assert(loader.calls() =~= calls1 + run_entries_calls(st0, raw@, sects, dll@, d2, a2, base_addr));
                done = d2;
                answers = a2;
            }
            off_name = next_off_name;
            rva = next_rva;
        }
    }

    /// Bind one thunk of `dll`'s table whose slot is at `rva`. Returns the
    /// loader's answers (see [`pick`]; nothing asked when the key was
    /// cached).
    fn bind_thunk<L: PeLoader>(
        &mut self,
        raw: &[u8],
        loader: &mut L,
        base_addr: u32,
        rva: u32,
        dll: &str,
        thunk: u32,
        resolved_cache: &mut Vec<(String, u64)>,
    ) -> (answer: Ghost<(u64, u64)>)
        ensures
            same_tables(*final(self), *old(self)),
            bind_state(final(self).iat_names@, final(resolved_cache)@) == entry_step(
                bind_state(old(self).iat_names@, old(resolved_cache)@),
                raw@,
                old(self).sect_hdr@,
                dll@,
                thunk,
                answer@,
            ),
            final(loader).calls() == old(loader).calls() + entry_calls(
                bind_state(old(self).iat_names@, old(resolved_cache)@),
                raw@,
                old(self).sect_hdr@,
                dll@,
                rva,
                thunk,
                answer@,
                base_addr,
            ),
    {
        if thunk & IMAGE_ORDINAL_FLAG32 != 0 {
            let ordinal = (thunk & IMAGE_ORDINAL_MASK32) as u16;
            let a = self.bind_ordinal_thunk(loader, base_addr, rva, dll, ordinal, thunk, resolved_cache);
            return Ghost((a@, 0));
        }
        let off2 = PE32::vaddr_to_off(self.sect_hdr.as_slice(), thunk) as usize;
        let name_end = match off2.checked_add(2) {
            Some(e) => e,
            None => {
                assert(old(loader).calls() =~= old(loader).calls() + Seq::<PeCall>::empty());
                return Ghost((0, 0));
            },
        };
        if off2 == 0 || raw.len() < name_end {
            assert(old(loader).calls() =~= old(loader).calls() + Seq::<PeCall>::empty());
            return Ghost((0, 0));
        }
        let ghost calls0 = loader.calls();
        let ghost st = bind_state(self.iat_names@, resolved_cache@);
        let func_name = PE32::read_string(raw, off2 + 2);
        let lower_dll = to_lowercase_string(dll);
        let lower_func = to_lowercase_string(func_name.as_str());
        let lower_func_chars = chars_of(lower_func.as_str());
        let cache_key = qualified_string(lower_dll.as_str(), lower_func_chars.as_slice());
        let ghost mut ans: (u64, u64) = (0, 0);
        let ghost mut lookups: Seq<PeCall> = Seq::empty();
        let real_addr = match cache_lookup(resolved_cache, cache_key.as_str()) {
            Some(cached) => cached,
            None => {
                let first = loader.resolve_api_name_in_module(dll, func_name.as_str());
                let mut resolved = first;
                if first == 0 {
                    // API-set contract DLLs have no export table of their
                    // own; only the global lookup finds their functions.
                    resolved = loader.resolve_api_name(func_name.as_str());
                    proof {
                        ans = (0, resolved);
                        lookups = seq![
                            PeCall::ResolveInModule { module: dll@, name: func_name@, addr: 0 },
                            PeCall::ResolveName { name: func_name@, addr: resolved },
                        ];
                    }
                } else {
                    proof {
                        ans = (first, 0);
                        lookups = seq![PeCall::ResolveInModule { module: dll@, name: func_name@, addr: first }];
                    }
                }
                proof {
                    lemma_cache_view_push(resolved_cache@, cache_key, resolved);
                }
                resolved_cache.push((cache_key.clone(), resolved));
                resolved
            },
        };
        assert(loader.calls() =~= calls0 + lookups);
        let func_chars = chars_of(func_name.as_str());
        let full = qualified_string(dll, func_chars.as_slice());
        proof {
            lemma_names_view_insert(
                self.iat_names@,
                if real_addr != 0 {
                    real_addr as u32
                } else {
                    thunk
                },
                full,
            );
        }
        if real_addr != 0 {
            let patch_addr = base_addr as u64 + rva as u64;
            let _ = loader.write_dword(patch_addr, real_addr as u32);
            self.iat_names.insert(real_addr as u32, full);
        } else {
            // Unresolved: the slot keeps its on-disk value (the hint/name
            // rva), so that value names the import.
            self.iat_names.insert(thunk, full);
        }
        assert(loader.calls() =~= calls0 + (lookups + slot_patch(base_addr, rva, real_addr)));
        Ghost(ans)
    }

    /// Resolve and patch one ordinal thunk: shared by both walkers, so
    /// caching and naming stay identical. An unresolved entry is recorded
    /// under the encoded thunk (high flag set) that its slot keeps.
    fn bind_ordinal_thunk<L: PeLoader>(
        &mut self,
        loader: &mut L,
        base_addr: u32,
        rva: u32,
        import_dll: &str,
        ordinal: u16,
        encoded_thunk: u32,
        resolved_cache: &mut Vec<(String, u64)>,
    ) -> (answer: Ghost<u64>)
        ensures
            same_tables(*final(self), *old(self)),
            bind_state(final(self).iat_names@, final(resolved_cache)@) == ordinal_step(
                bind_state(old(self).iat_names@, old(resolved_cache)@),
                import_dll@,
                ordinal,
                encoded_thunk,
                answer@,
            ),
            ({
                let key = qualified(import_dll@, ordinal_label(ordinal));
                let st = bind_state(old(self).iat_names@, old(resolved_cache)@);
                let lookups = if cache_find(st.cache, key) is Some {
                    Seq::empty()
                } else {
                    seq![PeCall::ResolveOrdinal { module: import_dll@, ordinal, addr: answer@ }]
                };
                final(loader).calls() == old(loader).calls() + lookups + slot_patch(
                    base_addr,
                    rva,
                    resolve_cached(st.cache, key, answer@).0,
                )
            }),
    {
        let ghost calls0 = loader.calls();
        let mut label: Vec<char> = vec!['#'];
        push_decimal(ordinal as u64, &mut label);
        assert(label@ =~= ordinal_label(ordinal));
        let cache_key = qualified_string(import_dll, label.as_slice());
        let ghost mut ans: u64 = 0;
        let real_addr = match cache_lookup(resolved_cache, cache_key.as_str()) {
            Some(cached) => cached,
            None => {
                let resolved = loader.resolve_api_ordinal_in_module(import_dll, ordinal);
                proof {
                    ans = resolved;
                    lemma_cache_view_push(resolved_cache@, cache_key, resolved);
                }
                resolved_cache.push((cache_key.clone(), resolved));
                resolved
            },
        };
        proof {
            lemma_names_view_insert(
                self.iat_names@,
                if real_addr != 0 {
                    real_addr as u32
                } else {
                    encoded_thunk
                },
                cache_key,
            );
        }
        if real_addr != 0 {
            let patch_addr = base_addr as u64 + rva as u64;
            let _ = loader.write_dword(patch_addr, real_addr as u32);
            self.iat_names.insert(real_addr as u32, cache_key);
        } else {
            self.iat_names.insert(encoded_thunk, cache_key);
        }
        Ghost(ans)
    }

    /// The function part (after the first `!`) of the import recorded for
    /// `paddr`; empty when none is recorded.
    pub fn import_addr_to_name(&self, paddr: u32) -> (r: String)
        ensures
            r@ == import_name_of(names_view(self.iat_names@), paddr),
    {
        match self.iat_names.get(&paddr) {
            Some(s) => {
                let cs = chars_of(s.as_str());
                match split_first_chars(cs.as_slice(), '!') {
                    Some((_, f)) => string_from_chars(f.as_slice()),
                    None => String::new(),
                }
            },
            None => String::new(),
        }
    }

    /// The whole `"dll!name"` recorded for `paddr`; empty when none is.
    pub fn import_addr_to_dll_and_name(&self, paddr: u32) -> (r: String)
        ensures
            r@ == import_dll_and_name_of(names_view(self.iat_names@), paddr),
    {
        match self.iat_names.get(&paddr) {
            Some(s) => s.clone(),
            None => String::new(),
        }
    }
}

/// Every name of the table has a `!` between its DLL and its label.
pub open spec fn all_qualified(names: Map<u32, Seq<char>>) -> bool {
    forall|a: u32| names.contains_key(a) ==> #[trigger] names[a].contains('!')
}

proof fn lemma_qualified_has_bang(dll: Seq<char>, label: Seq<char>)
    ensures
        qualified(dll, label).contains('!'),
{
    assert(qualified(dll, label)[dll.len() as int] == '!');
}

proof fn lemma_entry_step_qualified(
    st: BindState,
    raw: Seq<u8>,
    sections: Seq<ImageSectionHeader>,
    dll: Seq<char>,
    thunk: u32,
    answer: (u64, u64),
)
    requires
        all_qualified(st.names),
    ensures
        all_qualified(entry_step(st, raw, sections, dll, thunk, answer).names),
{
    if is_ordinal_thunk(thunk) {
        lemma_qualified_has_bang(dll, ordinal_label(thunk_ordinal(thunk)));
    } else {
        match hint_name_offset(raw, sections, thunk) {
            None => {},
            Some(off) => {
                lemma_qualified_has_bang(dll, c_string_at(raw, off + 2));
            },
        }
    }
}

proof fn lemma_run_entries_qualified(
    st: BindState,
    raw: Seq<u8>,
    sections: Seq<ImageSectionHeader>,
    dll: Seq<char>,
    entries: Seq<(u32, u32)>,
    answers: Seq<(u64, u64)>,
)
    requires
        all_qualified(st.names),
    ensures
        all_qualified(run_entries(st, raw, sections, dll, entries, answers).names),
    decreases entries.len(),
{
    if entries.len() > 0 {
        lemma_run_entries_qualified(st, raw, sections, dll, entries.drop_last(), answers.drop_last());
        lemma_entry_step_qualified(
            run_entries(st, raw, sections, dll, entries.drop_last(), answers.drop_last()),
            raw,
            sections,
            dll,
            entries.last().1,
            answers.last(),
        );
    }
}

proof fn lemma_run_groups_qualified(
    st: BindState,
    raw: Seq<u8>,
    sections: Seq<ImageSectionHeader>,
    groups: Seq<ImportGroup>,
    loaded: Seq<u64>,
    answers: Seq<Seq<(u64, u64)>>,
)
    requires
        all_qualified(st.names),
    ensures
        all_qualified(run_groups(st, raw, sections, groups, loaded, answers).names),
    decreases groups.len(),
{
    if groups.len() > 0 {
        lemma_run_groups_qualified(st, raw, sections, groups.drop_last(), loaded.drop_last(), answers.drop_last());
        let g = groups.last();
        lemma_run_entries_qualified(
            run_groups(st, raw, sections, groups.drop_last(), loaded.drop_last(), answers.drop_last()),
            raw,
            sections,
            g.name,
            group_entries(raw, sections, g, loaded.last()),
            answers.last(),
        );
    }
}

/// Binding records every import as `dll!label`: when each name of the
/// table before holds a `!`, so does each name after.
pub proof fn law_recorded_names_qualified(
    names0: Map<u32, Seq<char>>,
    names: Map<u32, Seq<char>>,
    calls0: Seq<PeCall>,
    calls: Seq<PeCall>,
    raw: Seq<u8>,
    sections: Seq<ImageSectionHeader>,
    groups: Seq<ImportGroup>,
    base_addr: u32,
)
    requires
        binding_outcome(names0, names, calls0, calls, raw, sections, groups, base_addr),
        all_qualified(names0),
    ensures
        all_qualified(names),
{
    let st0 = BindState { names: names0, cache: Seq::empty() };
    let (loaded, answers) = choose|loaded: Seq<u64>, answers: Seq<Seq<(u64, u64)>>|
        names == #[trigger] run_groups(st0, raw, sections, groups, loaded, answers).names && calls == calls0
            + run_groups_calls(st0, raw, sections, groups, loaded, answers, base_addr);
    lemma_run_groups_qualified(st0, raw, sections, groups, loaded, answers);
}

/// The low 32 bits of an address, as a slot of a 32-bit image holds it.
pub open spec fn low32(r: u64) -> u32 {
    r as u32
}

/// The slots a table's walk patches: the `(slot rva, thunk)` pairs read
/// from its walked table.
pub open spec fn group_walk(raw: Seq<u8>, sections: Seq<ImageSectionHeader>, g: ImportGroup) -> Seq<(u32, u32)> {
    thunk_walk(raw, pe32_offset(sections, g.table) as int, g.slots)
}

/// A call, if it is a `write_dword`, patches the slot of one of `entries`
/// (at `base_addr` plus its rva) with the low 32 bits of a non-zero
/// address.
pub open spec fn patches_slot_of(c: PeCall, base_addr: u32, entries: Seq<(u32, u32)>) -> bool {
    match c {
        PeCall::WriteDword { addr, val } => exists|k: int, r: u64|
            #![trigger entries[k], low32(r)]
            0 <= k < entries.len() && addr == (base_addr as u64 + entries[k].0 as u64) as u64 && r != 0 && val
                == low32(r),
        _ => true,
    }
}

/// A call, if it is a `write_dword`, patches a slot of one of the tables
/// `groups`, a named one whose slots are backed by the image.
pub open spec fn patch_in_tables(
    c: PeCall,
    raw: Seq<u8>,
    sections: Seq<ImageSectionHeader>,
    groups: Seq<ImportGroup>,
    base_addr: u32,
) -> bool {
    c is WriteDword ==> exists|gi: int|
        0 <= gi < groups.len() && groups[gi].name.len() > 0 && pe32_offset(sections, groups[gi].slots) != 0
            && #[trigger] patches_slot_of(c, base_addr, group_walk(raw, sections, groups[gi]))
}

proof fn lemma_patches_prefix(c: PeCall, base_addr: u32, e: Seq<(u32, u32)>)
    requires
        e.len() > 0,
        patches_slot_of(c, base_addr, e.drop_last()),
    ensures
        patches_slot_of(c, base_addr, e),
{
    if let PeCall::WriteDword { addr, val } = c {
        let (k, r) = choose|k: int, r: u64|
            #![trigger e.drop_last()[k], low32(r)]
            0 <= k < e.drop_last().len() && addr == (base_addr as u64 + e.drop_last()[k].0 as u64) as u64 && r != 0
                && val == low32(r);
        assert(e[k] == e.drop_last()[k]);
    }
}

proof fn lemma_entry_calls_patch(
    st: BindState,
    raw: Seq<u8>,
    sections: Seq<ImageSectionHeader>,
    dll: Seq<char>,
    entries: Seq<(u32, u32)>,
    k: int,
    answer: (u64, u64),
    base_addr: u32,
)
    requires
        0 <= k < entries.len(),
    ensures
        forall|j: int|
            0 <= j < entry_calls(st, raw, sections, dll, entries[k].0, entries[k].1, answer, base_addr).len()
                ==> patches_slot_of(
                #[trigger] entry_calls(st, raw, sections, dll, entries[k].0, entries[k].1, answer, base_addr)[j],
                base_addr,
                entries,
            ),
{
    let ec = entry_calls(st, raw, sections, dll, entries[k].0, entries[k].1, answer, base_addr);
    assert forall|j: int| 0 <= j < ec.len() implies patches_slot_of(#[trigger] ec[j], base_addr, entries) by {
        if let PeCall::WriteDword { addr, val } = ec[j] {
            let thunk = entries[k].1;
            let a: u64 = if is_ordinal_thunk(thunk) {
                resolve_cached(
                    st.cache,
                    qualified(dll, ordinal_label(thunk_ordinal(thunk))),
                    answer.0,
                ).0
            } else {
                match hint_name_offset(raw, sections, thunk) {
                    None => 0,
                    Some(off) => resolve_cached(
                        st.cache,
                        qualified(unicode_lowercase(dll), unicode_lowercase(c_string_at(raw, off + 2))),
                        pick(answer),
                    ).0,
                }
            };
            assert(low32(a) == a as u32);
        }
    }
}

proof fn lemma_run_entries_patch(
    st: BindState,
    raw: Seq<u8>,
    sections: Seq<ImageSectionHeader>,
    dll: Seq<char>,
    entries: Seq<(u32, u32)>,
    answers: Seq<(u64, u64)>,
    base_addr: u32,
)
    ensures
        forall|j: int|
            0 <= j < run_entries_calls(st, raw, sections, dll, entries, answers, base_addr).len() ==> patches_slot_of(
                #[trigger] run_entries_calls(st, raw, sections, dll, entries, answers, base_addr)[j],
                base_addr,
                entries,
            ),
    decreases entries.len(),
{
    if entries.len() > 0 {
        let prev = run_entries_calls(st, raw, sections, dll, entries.drop_last(), answers.drop_last(), base_addr);
        let k = entries.len() - 1;
        lemma_run_entries_patch(st, raw, sections, dll, entries.drop_last(), answers.drop_last(), base_addr);
        lemma_entry_calls_patch(
            run_entries(st, raw, sections, dll, entries.drop_last(), answers.drop_last()),
            raw,
            sections,
            dll,
            entries,
            k,
            answers.last(),
            base_addr,
        );
        let rc = run_entries_calls(st, raw, sections, dll, entries, answers, base_addr);
        let ec = entry_calls(
            run_entries(st, raw, sections, dll, entries.drop_last(), answers.drop_last()),
            raw,
            sections,
            dll,
            entries[k].0,
            entries[k].1,
            answers.last(),
            base_addr,
        );
        assert(rc == prev + ec);
        assert forall|j: int| 0 <= j < rc.len() implies patches_slot_of(#[trigger] rc[j], base_addr, entries) by {
            if j < prev.len() {
                assert(rc[j] == prev[j]);
                lemma_patches_prefix(prev[j], base_addr, entries);
            } else {
                assert(rc[j] == ec[j - prev.len()]);
            }
        }
    }
}

proof fn lemma_run_groups_patch(
    st: BindState,
    raw: Seq<u8>,
    sections: Seq<ImageSectionHeader>,
    groups: Seq<ImportGroup>,
    loaded: Seq<u64>,
    answers: Seq<Seq<(u64, u64)>>,
    base_addr: u32,
)
    ensures
        forall|j: int|
            0 <= j < run_groups_calls(st, raw, sections, groups, loaded, answers, base_addr).len() ==> patch_in_tables(
                #[trigger] run_groups_calls(st, raw, sections, groups, loaded, answers, base_addr)[j],
                raw,
                sections,
                groups,
                base_addr,
            ),
    decreases groups.len(),
{
    if groups.len() > 0 {
        let gi = groups.len() - 1;
        let g = groups.last();
        let st1 = run_groups(st, raw, sections, groups.drop_last(), loaded.drop_last(), answers.drop_last());
        let prev = run_groups_calls(st, raw, sections, groups.drop_last(), loaded.drop_last(), answers.drop_last(), base_addr);
        lemma_run_groups_patch(st, raw, sections, groups.drop_last(), loaded.drop_last(), answers.drop_last(), base_addr);
        let entries = group_entries(raw, sections, g, loaded.last());
        lemma_run_entries_patch(st1, raw, sections, g.name, entries, answers.last(), base_addr);
        let gc = group_calls(st1, raw, sections, g, loaded.last(), answers.last(), base_addr);
        let rc = run_groups_calls(st, raw, sections, groups, loaded, answers, base_addr);
        assert(rc == prev + gc);
        assert forall|j: int| 0 <= j < rc.len() implies patch_in_tables(#[trigger] rc[j], raw, sections, groups, base_addr) by {
            if j < prev.len() {
                assert(rc[j] == prev[j]);
                assert(patch_in_tables(prev[j], raw, sections, groups.drop_last(), base_addr));
                if prev[j] is WriteDword {
                    let gj = choose|gj: int|
                        0 <= gj < groups.drop_last().len() && groups.drop_last()[gj].name.len() > 0 && pe32_offset(
                            sections,
                            groups.drop_last()[gj].slots,
                        ) != 0 && #[trigger] patches_slot_of(prev[j], base_addr, group_walk(raw, sections, groups.drop_last()[gj]));
                    assert(groups.drop_last()[gj] == groups[gj]);
                }
            } else {
                let c = rc[j];
                let q = j - prev.len();
                assert(c == gc[q]);
                if c is WriteDword {
                    assert(g.name.len() > 0);
                    let rec = run_entries_calls(st1, raw, sections, g.name, entries, answers.last(), base_addr);
                    assert(gc == seq![PeCall::LoadLibrary { name: g.name, base: loaded.last() }] + rec);
                    assert(q >= 1);
                    assert(c == rec[q - 1]);
                    assert(patches_slot_of(c, base_addr, entries));
                    assert(entries.len() > 0);
                    assert(group_walked(sections, g, loaded.last()));
                    assert(entries == group_walk(raw, sections, g));
                    assert(groups[gi] == g);
                }
            }
        }
    }
}

/// The slots of a table's walk lie four bytes apart from its first slot.
pub proof fn lemma_walk_slots(raw: Seq<u8>, off: int, rva: u32)
    ensures
        forall|k: int| 0 <= k < thunk_walk(raw, off, rva).len() ==> #[trigger] thunk_walk(raw, off, rva)[k].0 == rva + 4 * k,
    decreases raw.len() - off,
{
    if !(off + 4 > usize::MAX || rva + 4 > u32::MAX || raw.len() < off + 4 || le_u32(raw, off) == 0) {
        lemma_walk_slots(raw, off + 4, (rva + 4) as u32);
        let w = thunk_walk(raw, off, rva);
        let rest = thunk_walk(raw, off + 4, (rva + 4) as u32);
        assert forall|k: int| 0 <= k < w.len() implies #[trigger] w[k].0 == rva + 4 * k by {
            if k > 0 {
                assert(w[k] == rest[k - 1]);
            }
        }
    }
}

/// Every slot binding patches is the slot of a thunk of a named table
/// whose slots the image backs, at `base_addr` plus the slot's rva, the
/// `k`-th slot lying `4 * k` past the table's first; and the value written
/// is the low 32 bits of a non-zero resolved address.
pub proof fn law_binding_patches(
    names0: Map<u32, Seq<char>>,
    names: Map<u32, Seq<char>>,
    calls0: Seq<PeCall>,
    calls: Seq<PeCall>,
    raw: Seq<u8>,
    sections: Seq<ImageSectionHeader>,
    groups: Seq<ImportGroup>,
    base_addr: u32,
)
    requires
        binding_outcome(names0, names, calls0, calls, raw, sections, groups, base_addr),
    ensures
        forall|j: int| calls0.len() <= j < calls.len() ==> patch_in_tables(#[trigger] calls[j], raw, sections, groups, base_addr),
        forall|g: ImportGroup, k: int|
            0 <= k < group_walk(raw, sections, g).len() ==> #[trigger] group_walk(raw, sections, g)[k].0 == g.slots + 4 * k,
{
    let st0 = BindState { names: names0, cache: Seq::empty() };
    let (loaded, answers) = choose|loaded: Seq<u64>, answers: Seq<Seq<(u64, u64)>>|
        names == #[trigger] run_groups(st0, raw, sections, groups, loaded, answers).names && calls == calls0
            + run_groups_calls(st0, raw, sections, groups, loaded, answers, base_addr);
    let rc = run_groups_calls(st0, raw, sections, groups, loaded, answers, base_addr);
    lemma_run_groups_patch(st0, raw, sections, groups, loaded, answers, base_addr);
    assert forall|j: int| calls0.len() <= j < calls.len() implies patch_in_tables(#[trigger] calls[j], raw, sections, groups, base_addr) by {
        assert(calls[j] == rc[j - calls0.len()]);
    }
    assert forall|g: ImportGroup, k: int| 0 <= k < group_walk(raw, sections, g).len() implies #[trigger] group_walk(raw, sections, g)[k].0 == g.slots + 4 * k by {
        lemma_walk_slots(raw, pe32_offset(sections, g.table) as int, g.slots);
    }
}

/// After binding, every name recorded is read back by address: the full
/// lookup gives the whole `dll!label`, the name lookup what follows its
/// first `!`; an address with nothing recorded gives empty names.
pub proof fn law_recorded_names_read_back(
    names0: Map<u32, Seq<char>>,
    names: Map<u32, Seq<char>>,
    calls0: Seq<PeCall>,
    calls: Seq<PeCall>,
    raw: Seq<u8>,
    sections: Seq<ImageSectionHeader>,
    groups: Seq<ImportGroup>,
    base_addr: u32,
    addr: u32,
)
    requires
        binding_outcome(names0, names, calls0, calls, raw, sections, groups, base_addr),
        all_qualified(names0),
    ensures
        names.contains_key(addr) ==> {
            &&& import_dll_and_name_of(names, addr) == names[addr]
            &&& split_first(names[addr], '!') is Some
            &&& import_name_of(names, addr) == (split_first(names[addr], '!')->0).1
        },
        !names.contains_key(addr) ==> import_dll_and_name_of(names, addr) == Seq::<char>::empty()
            && import_name_of(names, addr) == Seq::<char>::empty(),
{
    law_recorded_names_qualified(names0, names, calls0, calls, raw, sections, groups, base_addr);
    if names.contains_key(addr) {
        lemma_split_first(names[addr], '!');
    }
}

/// Every name binding records has the shape `dll!label`; when the DLL
/// name holds no `!`, the name lookup by address gives back exactly the
/// label, and the full lookup the whole `dll!label`.
pub proof fn law_import_name_roundtrip(names: Map<u32, Seq<char>>, addr: u32, dll: Seq<char>, label: Seq<char>)
    requires
        names.contains_key(addr),
        names[addr] == qualified(dll, label),
        !dll.contains('!'),
    ensures
        import_name_of(names, addr) == label,
        import_dll_and_name_of(names, addr) == qualified(dll, label),
{
    let s = qualified(dll, label);
    let i = dll.len() as int;
    assert(s[i] == '!');
    assert forall|j: int| 0 <= j < i implies s[j] != '!' by {
        assert(s[j] == dll[j]);
        if dll[j] == '!' {
            assert(dll.contains('!'));
        }
    }
    lemma_first_index_unique(s, '!', i);
    assert(s.subrange(i + 1, s.len() as int) =~= label);
}

} // verus!
