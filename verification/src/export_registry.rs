//! Host-side runtime export-name registry.
//!
//! Each mapped PE image registers its parsed export directory once. Named,
//! ordinal and address lookups then run against hash maps instead of
//! rescanning export tables in guest memory. Forwarders (`dll.symbol`,
//! `dll.#N`) are followed through registered modules with a depth limit and
//! a cycle guard.

use vstd::prelude::*;
use ahash::AHashMap;
use crate::ahash_maps::{
    address_names, address_names_clear, address_names_get, address_names_insert,
    address_names_new, address_names_remove, name_slots, name_slots_get, name_slots_insert,
    name_slots_new, no_addresses, no_names,
};
use crate::export_index::{ExportIndexData, ExportTarget, NamedExport, TargetModel, slot_view};
use crate::text::{
    chars_of, contains_chars, contains_seq, decimal, lower_seq, lower_string, normalize_export_name, normalize_module_name,
    normalized_export, normalized_module, parse_u32_decimal, parse_u32_spec, push_decimal,
    split_first, split_first_chars, str_eq, string_from_chars, lemma_first_index_unique,
};

verus! {

/// Maximum forwarder-chain depth followed during resolution.
pub const MAX_FORWARDER_DEPTH: usize = 8;

/// One entry of the runtime index: a rebased absolute address, or the
/// forwarder string, kept for resolution at lookup time.
#[derive(Debug, Clone, PartialEq, Eq)]
pub enum IndexedExport {
    Direct { address: u64 },
    Forwarder { value: String },
}

/// Mathematical value of an [`IndexedExport`].
pub ghost enum IndexedModel {
    Direct { address: u64 },
    Forwarder { value: Seq<char> },
}

impl View for IndexedExport {
    type V = IndexedModel;

    open spec fn view(&self) -> IndexedModel {
        match self {
            IndexedExport::Direct { address } => IndexedModel::Direct { address: *address },
            IndexedExport::Forwarder { value } => IndexedModel::Forwarder { value: value@ },
        }
    }
}

pub open spec fn islot(s: Option<IndexedExport>) -> Option<IndexedModel> {
    match s {
        Some(e) => Some(e@),
        None => None,
    }
}

impl IndexedExport {
    /// True if this is a direct export (not a forwarder).
    pub fn is_direct(&self) -> (r: bool)
        ensures
            r == (self@ is Direct),
    {
        match self {
            IndexedExport::Direct { .. } => true,
            IndexedExport::Forwarder { .. } => false,
        }
    }

    /// The address if direct, otherwise `None`.
    pub fn direct_address(&self) -> (r: Option<u64>)
        ensures
            r == (match self@ {
                IndexedModel::Direct { address } => Some(address),
                IndexedModel::Forwarder { .. } => None,
            }),
    {
        match self {
            IndexedExport::Direct { address } => Some(*address),
            IndexedExport::Forwarder { .. } => None,
        }
    }
}

/// `a + b` modulo 2^64.
pub open spec fn add_wrap(a: u64, b: u64) -> u64 {
    vstd::wrapping::u64_specs::wrapping_add(a, b)
}

/// `a - b` modulo 2^64.
pub open spec fn sub_wrap(a: u64, b: u64) -> u64 {
    vstd::wrapping::u64_specs::wrapping_sub(a, b)
}

/// A parsed function-table slot placed at image base `base`.
pub open spec fn placed_slot(t: Option<TargetModel>, base: u64) -> Option<IndexedModel> {
    match t {
        None => None,
        Some(TargetModel::Direct { rva }) => Some(
            IndexedModel::Direct { address: add_wrap(base, rva as u64) },
        ),
        Some(TargetModel::Forwarder { value }) => Some(IndexedModel::Forwarder { value }),
    }
}

/// A runtime slot with its direct address moved by `delta` (mod 2^64).
pub open spec fn shifted_slot(s: Option<IndexedModel>, delta: u64) -> Option<IndexedModel> {
    match s {
        Some(IndexedModel::Direct { address }) => Some(
            IndexedModel::Direct { address: add_wrap(address, delta) },
        ),
        other => other,
    }
}

/// `b` is the index `a` moved to image base `new_base`: every direct
/// address shifted by the distance between the bases (mod 2^64), the
/// address table rebuilt from the display names, everything else kept.
pub open spec fn rebased(a: ModuleModel, b: ModuleModel, new_base: u64) -> bool {
    &&& b == (ModuleModel {
        base: new_base,
        by_ordinal: a.by_ordinal.map_values(|s: Option<IndexedModel>| shifted_slot(s, sub_wrap(new_base, a.base))),
        by_address: b.by_address,
        ..a
    })
    &&& b.by_address == addr_map(a.display_names, b.by_ordinal)
}

proof fn lemma_shift_back(x: u64, base: u64, new_base: u64)
    ensures
        add_wrap(add_wrap(x, sub_wrap(new_base, base)), sub_wrap(base, new_base)) == x,
{
}

/// Moving an index to another base and back restores it exactly, its
/// addresses and its address table included.
pub proof fn law_rebase_round_trip(a: ModuleModel, b: ModuleModel, c: ModuleModel, new_base: u64)
    requires
        a.by_address == addr_map(a.display_names, a.by_ordinal),
        rebased(a, b, new_base),
        rebased(b, c, a.base),
    ensures
        c == a,
{
    assert forall|i: int| 0 <= i < a.by_ordinal.len() implies #[trigger] c.by_ordinal[i] == a.by_ordinal[i] by {
        match a.by_ordinal[i] {
            Some(IndexedModel::Direct { address }) => {
                lemma_shift_back(address, a.base, new_base);
            },
            _ => {},
        }
    }
    assert(c.by_ordinal =~= a.by_ordinal);
}

/// Lower-cased name -> function index, later names overriding earlier ones.
pub open spec fn names_map(d: Seq<(u32, Seq<char>)>) -> Map<Seq<char>, u32>
    decreases d.len(),
{
    if d.len() == 0 {
        Map::empty()
    } else {
        names_map(d.drop_last()).insert(lower_seq(d.last().1), d.last().0)
    }
}

/// The direct address in slot `idx`, if there is one.
pub open spec fn direct_at(slots: Seq<Option<IndexedModel>>, idx: u32) -> Option<u64> {
    if (idx as int) < slots.len() {
        match slots[idx as int] {
            Some(IndexedModel::Direct { address }) => Some(address),
            _ => None,
        }
    } else {
        None
    }
}

/// Direct address -> original-case name; the first name seen for an
/// address keeps it.
pub open spec fn addr_map(d: Seq<(u32, Seq<char>)>, slots: Seq<Option<IndexedModel>>) -> Map<
    u64,
    Seq<char>,
>
    decreases d.len(),
{
    if d.len() == 0 {
        Map::empty()
    } else {
        let m = addr_map(d.drop_last(), slots);
        match direct_at(slots, d.last().0) {
            Some(a) => if m.contains_key(a) {
                m
            } else {
                m.insert(a, d.last().1)
            },
            None => m,
        }
    }
}

/// Mathematical value of a [`ModuleExportIndex`].
pub ghost struct ModuleModel {
    pub module_name: Seq<char>,
    pub normalized_name: Seq<char>,
    pub base: u64,
    pub export_base: u32,
    pub by_name: Map<Seq<char>, u32>,
    pub by_ordinal: Seq<Option<IndexedModel>>,
    pub by_address: Map<u64, Seq<char>>,
    /// `(function index, original-case name)` in registration order.
    pub display_names: Seq<(u32, Seq<char>)>,
}

impl ModuleModel {
    /// Export looked up by lower-cased name, forwarders not followed.
    pub open spec fn lookup_name(self, name_lc: Seq<char>) -> Option<IndexedModel> {
        if self.by_name.contains_key(name_lc) && (self.by_name[name_lc] as int)
            < self.by_ordinal.len() {
            self.by_ordinal[self.by_name[name_lc] as int]
        } else {
            None
        }
    }

    /// Export looked up by ordinal (`export_base + index`).
    pub open spec fn lookup_ordinal(self, ordinal: u32) -> Option<IndexedModel> {
        if ordinal < self.export_base || ordinal - self.export_base >= self.by_ordinal.len() {
            None
        } else {
            self.by_ordinal[ordinal - self.export_base]
        }
    }

    /// The first display name, from position `i` on, that contains
    /// `needle` and whose slot is a direct export: `(address, name)`.
    pub open spec fn search_display(self, needle: Seq<char>, i: int) -> Option<(u64, Seq<char>)>
        decreases self.display_names.len() - i,
    {
        if i < 0 || i >= self.display_names.len() {
            None
        } else if contains_seq(self.display_names[i].1, needle) && direct_at(
            self.by_ordinal,
            self.display_names[i].0,
        ) is Some {
            Some((direct_at(self.by_ordinal, self.display_names[i].0)->0, self.display_names[i].1))
        } else {
            self.search_display(needle, i + 1)
        }
    }

    /// The name and direct address listed for each display name (0 for a
    /// forwarder or an empty slot).
    pub open spec fn dump_entry(self, i: int) -> (Seq<char>, u64) {
        (
            self.display_names[i].1,
            match direct_at(self.by_ordinal, self.display_names[i].0) {
                Some(a) => a,
                None => 0,
            },
        )
    }
}

/// The runtime export index of one mapped PE module.
#[derive(Debug)]
pub struct ModuleExportIndex {
    /// Original module name as known to the loader.
    pub module_name: String,
    /// Registry key (see [`normalize_module_name`]).
    pub normalized_name: String,
    /// Current image base.
    pub base: u64,
    /// `IMAGE_EXPORT_DIRECTORY.Base`.
    pub export_base: u32,
    /// Lower-cased export name -> function index.
    pub by_name: AHashMap<String, u32>,
    /// One slot per function-table entry; slot `i` is ordinal `export_base + i`.
    pub by_ordinal: Vec<Option<IndexedExport>>,
    /// Direct-export address -> original-case name.
    pub by_address: AHashMap<u64, String>,
    /// `(function index, original-case name)` pairs, kept so that a rebase
    /// can rebuild `by_address` without the raw image.
    display_names: Vec<(u32, String)>,
}

impl View for ModuleExportIndex {
    type V = ModuleModel;

    closed spec fn view(&self) -> ModuleModel {
        ModuleModel {
            module_name: self.module_name@,
            normalized_name: self.normalized_name@,
            base: self.base,
            export_base: self.export_base,
            by_name: name_slots(self.by_name),
            by_ordinal: self.by_ordinal@.map_values(|s: Option<IndexedExport>| islot(s)),
            by_address: address_names(self.by_address),
            display_names: self.display_names@.map_values(|p: (u32, String)| (p.0, p.1@)),
        }
    }
}

pub open spec fn display_view(d: Seq<(u32, String)>) -> Seq<(u32, Seq<char>)> {
    d.map_values(|p: (u32, String)| (p.0, p.1@))
}

impl ModuleExportIndex {
    /// The name and address tables agree with the display names and slots.
    pub open spec fn wf(&self) -> bool {
        &&& self@.by_name == names_map(self@.display_names)
        &&& self@.by_address == addr_map(self@.display_names, self@.by_ordinal)
    }

    /// Build the runtime index from a parsed export directory placed at
    /// `base`: direct slots become `base + rva` (mod 2^64), forwarders keep
    /// their strings, and the name / address tables follow the named
    /// exports (later names win in the name table, the first name of an
    /// address wins in the address table).
    pub fn from_parsed(
        module_name: String,
        normalized_name: String,
        base: u64,
        parsed: &ExportIndexData,
    ) -> (r: Self)
        ensures
            r.wf(),
            r@.module_name == module_name@,
            r@.normalized_name == normalized_name@,
            r@.base == base,
            r@.export_base == parsed@.export_base,
            r@.by_ordinal == parsed@.ordinal_targets.map_values(
                |t: Option<TargetModel>| placed_slot(t, base),
            ),
            r@.display_names == parsed@.named_exports.map_values(
                |e: (Seq<char>, u32)| (e.1, e.0),
            ),
    {
        let mut by_ordinal: Vec<Option<IndexedExport>> = Vec::new();
        let mut i: usize = 0;
        while i < parsed.ordinal_targets.len()
            invariant
                i <= parsed.ordinal_targets@.len(),
                by_ordinal@.map_values(|s: Option<IndexedExport>| islot(s)) =~= parsed@.ordinal_targets.subrange(0, i as int).map_values(
                    |t: Option<TargetModel>| placed_slot(t, base),
                ),
            decreases parsed.ordinal_targets@.len() - i,
        {
            let resolved = match &parsed.ordinal_targets[i] {
                None => None,
                Some(ExportTarget::Direct { rva }) => Some(
                    IndexedExport::Direct { address: base.wrapping_add(*rva as u64) },
                ),
                Some(ExportTarget::Forwarder { value }) => Some(
                    IndexedExport::Forwarder { value: value.clone() },
                ),
            };
            let ghost prev = by_ordinal@;
            by_ordinal.push(resolved);
            assert(by_ordinal@.map_values(|s: Option<IndexedExport>| islot(s)) =~= prev.map_values(
                |s: Option<IndexedExport>| islot(s),
            ).push(islot(resolved)));
            assert(parsed@.ordinal_targets.subrange(0, i + 1) =~= parsed@.ordinal_targets.subrange(
                0,
                i as int,
            ).push(parsed@.ordinal_targets[i as int]));
            i = i + 1;
        }
        assert(parsed@.ordinal_targets.subrange(0, i as int) =~= parsed@.ordinal_targets);
        let mut r = ModuleExportIndex {
            module_name,
            normalized_name,
            base,
            export_base: parsed.export_base,
            by_name: name_slots_new(),
            by_ordinal,
            by_address: address_names_new(),
            display_names: Vec::new(),
        };
        let mut j: usize = 0;
        while j < parsed.named_exports.len()
            invariant
                j <= parsed.named_exports@.len(),
                r.wf(),
                r@.module_name == module_name@,
                r@.normalized_name == normalized_name@,
                r@.base == base,
                r@.export_base == parsed@.export_base,
                r@.by_ordinal == parsed@.ordinal_targets.map_values(
                    |t: Option<TargetModel>| placed_slot(t, base),
                ),
                r@.display_names =~= parsed@.named_exports.subrange(0, j as int).map_values(
                    |e: (Seq<char>, u32)| (e.1, e.0),
                ),
            decreases parsed.named_exports@.len() - j,
        {
            let e = &parsed.named_exports[j];
            r.add_display_name(e.ordinal_index, &e.name);
            assert(parsed@.named_exports.subrange(0, j + 1) =~= parsed@.named_exports.subrange(
                0,
                j as int,
            ).push(parsed@.named_exports[j as int]));
            j = j + 1;
        }
        assert(parsed@.named_exports.subrange(0, j as int) =~= parsed@.named_exports);
        r
    }

    /// Append one display name and update the name and address tables.
    fn add_display_name(&mut self, ordinal_index: u32, name: &String)
        requires
            old(self).wf(),
        ensures
            final(self).wf(),
            final(self)@ == (ModuleModel {
                display_names: old(self)@.display_names.push((ordinal_index, name@)),
                by_name: final(self)@.by_name,
                by_address: final(self)@.by_address,
                ..old(self)@
            }),
    {
        let ghost d_old = self@.display_names;
        let lc = lower_string(name.as_str());
        name_slots_insert(&mut self.by_name, lc, ordinal_index);
        let idx = ordinal_index as usize;
        if idx < self.by_ordinal.len() {
            match &self.by_ordinal[idx] {
                Some(IndexedExport::Direct { address }) => {
                    let a = *address;
                    if address_names_get(&self.by_address, a).is_none() {
                        address_names_insert(&mut self.by_address, a, name.clone());
                    }
                },
                _ => {},
            }
        }
        self.display_names.push((ordinal_index, name.clone()));
        assert(self@.display_names =~= d_old.push((ordinal_index, name@)));
        assert(self@.display_names.drop_last() =~= d_old);
    }

    /// Move every direct address to the new module base (forwarders stay)
    /// and rebuild the address table from the preserved display names.
    pub fn rebase(&mut self, new_base: u64)
        requires
            old(self).wf(),
        ensures
            final(self).wf(),
            final(self)@ == (ModuleModel {
                base: new_base,
                by_ordinal: old(self)@.by_ordinal.map_values(
                    |s: Option<IndexedModel>| shifted_slot(s, sub_wrap(new_base, old(self)@.base)),
                ),
                by_address: final(self)@.by_address,
                ..old(self)@
            }),
            final(self)@.by_address == addr_map(old(self)@.display_names, final(self)@.by_ordinal),
            rebased(old(self)@, final(self)@, new_base),
    {
        if self.base == new_base {
            proof {
                assert(self@.by_ordinal =~= self@.by_ordinal.map_values(
                    |s: Option<IndexedModel>| shifted_slot(s, sub_wrap(new_base, self@.base)),
                ));
            }
            return;
        }
        let ghost old_self = self@;
        address_names_clear(&mut self.by_address);
        let delta = new_base.wrapping_sub(self.base);
        let mut i: usize = 0;
        while i < self.by_ordinal.len()
            invariant
                i <= self.by_ordinal@.len() == old_self.by_ordinal.len(),
                delta == sub_wrap(new_base, old_self.base),
                forall|k: int|
                    0 <= k < i ==> #[trigger] islot(self.by_ordinal@[k]) == shifted_slot(
                        old_self.by_ordinal[k],
                        delta,
                    ),
                forall|k: int|
                    i <= k < self.by_ordinal@.len() ==> #[trigger] islot(self.by_ordinal@[k])
                        == old_self.by_ordinal[k],
                self.module_name@ == old_self.module_name,
                self.normalized_name@ == old_self.normalized_name,
                self.base == old_self.base,
                self.export_base == old_self.export_base,
                name_slots(self.by_name) == old_self.by_name,
                display_view(self.display_names@) == old_self.display_names,
                address_names(self.by_address) == no_addresses(),
            decreases self.by_ordinal@.len() - i,
        {
            assert(islot(self.by_ordinal@[i as int]) == old_self.by_ordinal[i as int]);
            let slot = match &self.by_ordinal[i] {
                Some(IndexedExport::Direct { address }) => Some(
                    IndexedExport::Direct { address: address.wrapping_add(delta) },
                ),
                Some(IndexedExport::Forwarder { value }) => Some(
                    IndexedExport::Forwarder { value: value.clone() },
                ),
                None => None,
            };
            assert(islot(slot) == shifted_slot(old_self.by_ordinal[i as int], delta));
            let ghost before = self.by_ordinal@;
            self.by_ordinal.set(i, slot);
            assert(forall|k: int|
                0 <= k < self.by_ordinal@.len() && k != i ==> self.by_ordinal@[k] == before[k]);
            i = i + 1;
        }
        self.base = new_base;
        let mut names: Vec<(u32, String)> = Vec::new();
        std::mem::swap(&mut names, &mut self.display_names);
        self.by_name = name_slots_new();
        assert(self@.display_names =~= Seq::<(u32, Seq<char>)>::empty());
        assert(self@.by_ordinal =~= old_self.by_ordinal.map_values(
            |s: Option<IndexedModel>| shifted_slot(s, delta),
        ));
        let mut j: usize = 0;
        while j < names.len()
            invariant
                j <= names@.len(),
                display_view(names@) == old_self.display_names,
                self.wf(),
                self@.display_names =~= display_view(names@).subrange(0, j as int),
                self@.by_ordinal == old_self.by_ordinal.map_values(
                    |s: Option<IndexedModel>| shifted_slot(s, delta),
                ),
                self.module_name@ == old_self.module_name,
                self.normalized_name@ == old_self.normalized_name,
                self.base == new_base,
                self.export_base == old_self.export_base,
            decreases names@.len() - j,
        {
            self.add_display_name(names[j].0, &names[j].1);
            assert(display_view(names@).subrange(0, j + 1) =~= display_view(names@).subrange(
                0,
                j as int,
            ).push(display_view(names@)[j as int]));
            j = j + 1;
        }
        assert(display_view(names@).subrange(0, j as int) =~= old_self.display_names);
        assert(self@.by_name == names_map(old_self.display_names));
    }
}


impl ModuleExportIndex {
    /// The export for a lower-cased name, forwarders not followed.
    pub fn resolve_name(&self, name_lc: &str) -> (r: Option<&IndexedExport>)
        ensures
            match r {
                Some(e) => self@.lookup_name(name_lc@) == Some(e@),
                None => self@.lookup_name(name_lc@) is None,
            },
    {
        match name_slots_get(&self.by_name, name_lc) {
            None => None,
            Some(idx) => {
                let i = idx as usize;
                if i < self.by_ordinal.len() {
                    assert(islot(self.by_ordinal@[i as int]) == self@.by_ordinal[i as int]);
                    match &self.by_ordinal[i] {
                        Some(e) => Some(e),
                        None => None,
                    }
                } else {
                    None
                }
            },
        }
    }

    /// The export for an ordinal (`export_base + function index`).
    pub fn resolve_ordinal(&self, ordinal: u32) -> (r: Option<&IndexedExport>)
        ensures
            match r {
                Some(e) => self@.lookup_ordinal(ordinal) == Some(e@),
                None => self@.lookup_ordinal(ordinal) is None,
            },
    {
        if ordinal < self.export_base {
            return None;
        }
        let idx = (ordinal - self.export_base) as usize;
        if idx < self.by_ordinal.len() {
            assert(islot(self.by_ordinal@[idx as int]) == self@.by_ordinal[idx as int]);
            match &self.by_ordinal[idx] {
                Some(e) => Some(e),
                None => None,
            }
        } else {
            None
        }
    }

    /// The name of the direct export at `addr`, if this module has one.
    pub fn resolve_address(&self, addr: u64) -> (r: Option<&str>)
        ensures
            match r {
                Some(s) => self@.by_address.contains_key(addr) && s@ == self@.by_address[addr],
                None => !self@.by_address.contains_key(addr),
            },
    {
        match address_names_get(&self.by_address, addr) {
            Some(s) => Some(s.as_str()),
            None => None,
        }
    }

    /// The module's name as the loader knows it.
    pub fn name(&self) -> (r: String)
        ensures
            r@ == self@.module_name,
    {
        self.module_name.clone()
    }

    /// `(display name, function index)` pairs in registration order.
    pub fn display_names_for_iter(&self) -> (r: Vec<(String, u32)>)
        ensures
            r@.len() == self@.display_names.len(),
            forall|i: int|
                0 <= i < r@.len() ==> (#[trigger] r@[i]).0@ == self@.display_names[i].1 && r@[i].1
                    == self@.display_names[i].0,
    {
        let mut r: Vec<(String, u32)> = Vec::new();
        let mut i: usize = 0;
        while i < self.display_names.len()
            invariant
                i <= self.display_names@.len(),
                self@.display_names == display_view(self.display_names@),
                r@.len() == i,
                forall|k: int|
                    0 <= k < i ==> (#[trigger] r@[k]).0@ == self@.display_names[k].1 && r@[k].1
                        == self@.display_names[k].0,
            decreases self.display_names@.len() - i,
        {
            let (idx, name) = &self.display_names[i];
            r.push((name.clone(), *idx));
            i = i + 1;
        }
        r
    }

    /// `(display name, direct address or 0)` pairs in registration order;
    /// forwarders and empty slots list address 0.
    pub fn iter_for_dump(&self) -> (r: Vec<(String, u64)>)
        ensures
            r@.len() == self@.display_names.len(),
            forall|i: int|
                0 <= i < r@.len() ==> ((#[trigger] r@[i]).0@, r@[i].1) == self@.dump_entry(i),
    {
        let mut r: Vec<(String, u64)> = Vec::new();
        let mut i: usize = 0;
        while i < self.display_names.len()
            invariant
                i <= self.display_names@.len(),
                self@.display_names == display_view(self.display_names@),
                self@.by_ordinal == self.by_ordinal@.map_values(
                    |s: Option<IndexedExport>| islot(s),
                ),
                r@.len() == i,
                forall|k: int| 0 <= k < i ==> ((#[trigger] r@[k]).0@, r@[k].1) == self@.dump_entry(k),
            decreases self.display_names@.len() - i,
        {
            let (idx, name) = &self.display_names[i];
            let j = *idx as usize;
            let va = if j < self.by_ordinal.len() {
                assert(islot(self.by_ordinal@[j as int]) == self@.by_ordinal[j as int]);
                match &self.by_ordinal[j] {
                    Some(IndexedExport::Direct { address }) => *address,
                    _ => 0,
                }
            } else {
                0
            };
            r.push((name.clone(), va));
            i = i + 1;
        }
        r
    }
}

impl ModuleExportIndex {
    /// The first display name containing `needle` whose slot is a direct
    /// export (see [`ModuleModel::search_display`]).
    pub fn search_display_name(&self, needle: &str) -> (r: Option<(u64, String)>)
        ensures
            match r {
                Some((a, n)) => self@.search_display(needle@, 0) == Some((a, n@)),
                None => self@.search_display(needle@, 0) is None,
            },
    {
        let nc = chars_of(needle);
        let mut i: usize = 0;
        while i < self.display_names.len()
            invariant
                i <= self.display_names@.len(),
                nc@ == needle@,
                self@.display_names == display_view(self.display_names@),
                self@.by_ordinal == self.by_ordinal@.map_values(
                    |s: Option<IndexedExport>| islot(s),
                ),
                self@.search_display(needle@, 0) == self@.search_display(needle@, i as int),
            decreases self.display_names@.len() - i,
        {
            let (idx, name) = &self.display_names[i];
            let hc = chars_of(name.as_str());
            if contains_chars(hc.as_slice(), nc.as_slice()) {
                let j = *idx as usize;
                if j < self.by_ordinal.len() {
                    assert(islot(self.by_ordinal@[j as int]) == self@.by_ordinal[j as int]);
                    match &self.by_ordinal[j] {
                        Some(IndexedExport::Direct { address }) => {
                            return Some((*address, name.clone()));
                        },
                        _ => {},
                    }
                }
            }
            i = i + 1;
        }
        None
    }
}

/// What the registry's module table holds: normalised name -> index.
pub uninterp spec fn module_table(m: AHashMap<String, ModuleExportIndex>) -> Map<
    Seq<char>,
    ModuleExportIndex,
>;

/// The empty module table.
pub open spec fn no_modules() -> Map<Seq<char>, ModuleExportIndex> {
    Map::empty()
}

/// `AHashMap::new` for the module table: an empty map.
#[verifier::external_body]
fn module_table_new() -> (m: AHashMap<String, ModuleExportIndex>)
    ensures
        module_table(m) == no_modules(),
{
    AHashMap::new()
}

/// `AHashMap::insert` for the module table: `k` now maps to `v`.
#[verifier::external_body]
fn module_table_insert(m: &mut AHashMap<String, ModuleExportIndex>, k: String, v: ModuleExportIndex)
    ensures
        module_table(*final(m)) == module_table(*old(m)).insert(k@, v),
{
    m.insert(k, v);
}

/// `AHashMap::get` for the module table.
#[verifier::external_body]
fn module_table_get<'a>(m: &'a AHashMap<String, ModuleExportIndex>, k: &str) -> (r: Option<
    &'a ModuleExportIndex,
>)
    ensures
        match r {
            Some(x) => module_table(*m).contains_key(k@) && *x == module_table(*m)[k@],
            None => !module_table(*m).contains_key(k@),
        },
{
    m.get(k)
}

/// `AHashMap::remove` for the module table: returns the entry of `k`, if
/// any, and drops it.
#[verifier::external_body]
fn module_table_remove(m: &mut AHashMap<String, ModuleExportIndex>, k: &str) -> (r: Option<
    ModuleExportIndex,
>)
    ensures
        module_table(*final(m)) == module_table(*old(m)).remove(k@),
        match r {
            Some(x) => module_table(*old(m)).contains_key(k@) && x == module_table(*old(m))[k@],
            None => !module_table(*old(m)).contains_key(k@),
        },
{
    m.remove(k)
}

/// `HashMap::len` (through `AHashMap`'s `Deref`): the number of entries of
/// the module table.
#[verifier::external_body]
fn module_table_len(m: &AHashMap<String, ModuleExportIndex>) -> (r: usize)
    ensures
        r == module_table(*m).len(),
{
    m.len()
}

/// Visited `(module, symbol)` pairs of a forwarder chain.
pub open spec fn visited_view(v: Seq<(String, String)>) -> Seq<(Seq<char>, Seq<char>)> {
    v.map_values(|p: (String, String)| (p.0@, p.1@))
}

/// The key an ordinal forwarder is guarded by: `#` and the decimal ordinal.
pub open spec fn ordinal_key(ordinal: u32) -> Seq<char> {
    seq!['#'] + decimal(ordinal as nat)
}

/// The value of a listing of module exports: `(module name, [(name,
/// address)])` per module.
pub open spec fn listing_view(v: Seq<(String, Vec<(String, u64)>)>) -> Seq<(Seq<char>, Seq<(Seq<char>, u64)>)> {
    v.map_values(|p: (String, Vec<(String, u64)>)| (p.0@, p.1@.map_values(|q: (String, u64)| (q.0@, q.1))))
}

/// The registry of per-module export indexes: a table by normalised name,
/// a table by image base, and the registration order (kept across
/// replacement) that global scans follow.
#[derive(Debug)]
pub struct ExportIndexRegistry {
    by_name: AHashMap<String, ModuleExportIndex>,
    by_base: AHashMap<u64, String>,
    order: Vec<String>,
}

impl ExportIndexRegistry {
    /// Registered modules by normalised name.
    pub closed spec fn modules(&self) -> Map<Seq<char>, ModuleExportIndex> {
        module_table(self.by_name)
    }

    /// Image base -> normalised name.
    pub closed spec fn bases(&self) -> Map<u64, Seq<char>> {
        address_names(self.by_base)
    }

    /// Normalised names in registration order.
    pub closed spec fn order(&self) -> Seq<Seq<char>> {
        self.order@.map_values(|s: String| s@)
    }

    /// The registry's invariant: the order lists each registered name once;
    /// every module is stored under its own normalised name and is itself
    /// well formed; every base entry names a module at that base.
    pub open spec fn wf(&self) -> bool {
        &&& self.modules().dom().finite()
        &&& self.order().no_duplicates()
        &&& forall|k: Seq<char>| self.modules().contains_key(k) <==> self.order().contains(k)
        &&& forall|k: Seq<char>|
            #[trigger] self.modules().contains_key(k) ==> self.modules()[k]@.normalized_name == k
                && self.modules()[k].wf()
        &&& forall|b: u64|
            #[trigger] self.bases().contains_key(b) ==> self.modules().contains_key(self.bases()[b])
                && self.modules()[self.bases()[b]]@.base == b
    }

    /// The module registered under `key`, if any.
    pub open spec fn module_at(&self, key: Seq<char>) -> Option<ModuleExportIndex> {
        if self.modules().contains_key(key) {
            Some(self.modules()[key])
        } else {
            None
        }
    }

    /// The module whose handle (image base) is `base`, if any.
    pub open spec fn module_by_base(&self, base: u64) -> Option<ModuleExportIndex> {
        if self.bases().contains_key(base) {
            Some(self.modules()[self.bases()[base]])
        } else {
            None
        }
    }

    /// Create an empty registry.
    pub fn new() -> (r: Self)
        ensures
            r.wf(),
            r.modules() == no_modules(),
            r.order() == Seq::<Seq<char>>::empty(),
    {
        let r = ExportIndexRegistry {
            by_name: module_table_new(),
            by_base: address_names_new(),
            order: Vec::new(),
        };
        assert(r.order() =~= Seq::<Seq<char>>::empty());
        r
    }

    /// Number of registered modules.
    pub fn len(&self) -> (r: usize)
        requires
            self.wf(),
        ensures
            r == self.modules().len(),
    {
        module_table_len(&self.by_name)
    }

    /// True if no modules are registered.
    pub fn is_empty(&self) -> (r: bool)
        requires
            self.wf(),
        ensures
            r == (self.modules().len() == 0),
    {
        module_table_len(&self.by_name) == 0
    }
}

/// What `register(index)` does to the registry `o`, giving `n`: the index
/// is stored under its key (replacing an earlier one), a new key joins the
/// end of the registration order, and the base table drops the replaced
/// index's base and maps the new base to the key.
pub open spec fn registered(o: ExportIndexRegistry, n: ExportIndexRegistry, index: ModuleExportIndex) -> bool {
    &&& n.modules() == o.modules().insert(index@.normalized_name, index)
    &&& n.order() == (if o.modules().contains_key(index@.normalized_name) {
        o.order()
    } else {
        o.order().push(index@.normalized_name)
    })
    &&& n.bases() == (if o.modules().contains_key(index@.normalized_name) {
        o.bases().remove(o.modules()[index@.normalized_name]@.base)
    } else {
        o.bases()
    }).insert(index@.base, index@.normalized_name)
}

impl ExportIndexRegistry {
    /// Register an index under its normalised name. An index already
    /// registered under that name is replaced: its base entry is dropped
    /// and its place in the registration order is kept.
    pub fn register(&mut self, index: ModuleExportIndex)
        requires
            old(self).wf(),
            index.wf(),
        ensures
            final(self).wf(),
            registered(*old(self), *final(self), index),
    {
        let ghost key_v = index@.normalized_name;
        let ghost old_order = self.order();
        let key = index.normalized_name.clone();
        match module_table_get(&self.by_name, key.as_str()) {
            Some(existing) => {
                let b = existing.base;
                address_names_remove(&mut self.by_base, b);
            },
            None => {
                self.order.push(key.clone());
                assert(self.order() =~= old_order.push(key_v));
            },
        }
        let base = index.base;
        address_names_insert(&mut self.by_base, base, key.clone());
        module_table_insert(&mut self.by_name, key, index);
        proof {
            assert forall|k: Seq<char>| self.modules().contains_key(k) <==> self.order().contains(
                k,
            ) by {
                assert(self.modules() == old(self).modules().insert(key_v, index));
                assert(old(self).modules().contains_key(k) <==> old_order.contains(k));
                if old(self).modules().contains_key(key_v) {
                    assert(self.order() == old_order);
                    assert(old_order.contains(key_v));
                } else {
                    assert(self.order() == old_order.push(key_v));
                    if k == key_v {
                        assert(self.order()[old_order.len() as int] == key_v);
                    } else {
                        if self.order().contains(k) {
                            let i = choose|i: int| 0 <= i < self.order().len() && self.order()[i] == k;
                            assert(i < old_order.len());
                            assert(old_order[i] == k);
                        }
                        if old(self).modules().contains_key(k) {
                            assert(old_order.contains(k));
                            let j = choose|j: int| 0 <= j < old_order.len() && old_order[j] == k;
                            assert(self.order()[j] == k);
                        }
                    }
                }
            }
            if !old(self).modules().contains_key(key_v) {
                assert(!old_order.contains(key_v));
                assert forall|i: int, j: int|
                    0 <= i < self.order().len() && 0 <= j < self.order().len() && i != j
                        implies self.order()[i] != self.order()[j] by {
                    if i == old_order.len() as int {
                        assert(old_order[j] == self.order()[j]);
                    }
                    if j == old_order.len() as int {
                        assert(old_order[i] == self.order()[i]);
                    }
                }
            }
            assert forall|b: u64| #[trigger] self.bases().contains_key(b) implies self.modules().contains_key(
                self.bases()[b],
            ) && self.modules()[self.bases()[b]]@.base == b by {
                if b != base {
                    let n = old(self).bases()[b];
                    assert(old(self).bases().contains_key(b));
                    if n == key_v {
                        assert(old(self).modules()[key_v]@.base == b);
                    }
                }
            }
        }
    }

    /// Remove a module by name (any case or path form). Returns whether a
    /// module was registered under that name.
    pub fn remove(&mut self, module: &str) -> (r: bool)
        requires
            old(self).wf(),
        ensures
            final(self).wf(),
            r == old(self).modules().contains_key(normalized_module(module@)),
            final(self).modules() == old(self).modules().remove(normalized_module(module@)),
            r ==> exists|i: int|
                0 <= i < old(self).order().len() && old(self).order()[i] == normalized_module(
                    module@,
                ) && final(self).order() == old(self).order().remove(i),
            !r ==> final(self).order() == old(self).order() && final(self).bases() == old(self).bases(),
            r ==> final(self).bases() == old(self).bases().remove(
                old(self).modules()[normalized_module(module@)]@.base,
            ),
    {
        let key = normalize_module_name(module);
        let ghost kv = key@;
        let ghost old_order = self.order();
        let index = match module_table_remove(&mut self.by_name, key.as_str()) {
            Some(i) => i,
            None => {
                assert(self.modules() =~= old(self).modules());
                assert(self.order() == old(self).order());
                assert(self.bases() == old(self).bases());
                assert(forall|k: Seq<char>|
                    #[trigger] self.modules().contains_key(k) ==> self.modules()[k]
                        == old(self).modules()[k]);
                return false;
            },
        };
        address_names_remove(&mut self.by_base, index.base);
        assert(old_order.contains(kv));
        let mut pos: usize = 0;
        let mut found = false;
        while pos < self.order.len() && !found
            invariant
                self.order() == old_order,
                key@ == kv,
                self.order@.len() == old_order.len(),
                pos <= old_order.len(),
                found ==> pos < old_order.len() && old_order[pos as int] == kv,
                forall|j: int| 0 <= j < pos ==> old_order[j] != kv,
            decreases old_order.len() - pos + (if found {
                0int
            } else {
                1int
            }),
        {
            assert(self.order()[pos as int] == self.order@[pos as int]@);
            if str_eq(self.order[pos].as_str(), key.as_str()) {
                found = true;
            } else {
                pos = pos + 1;
            }
        }
        proof {
            if !found {
                let w = choose|w: int| 0 <= w < old_order.len() && old_order[w] == kv;
                assert(old_order[w] != kv);
            }
        }
        assert(pos < old_order.len() && old_order[pos as int] == kv);
        self.order.remove(pos);
        assert(self.order() =~= old_order.remove(pos as int));
        proof {
            let no = self.order();
            assert forall|i: int, j: int|
                0 <= i < no.len() && 0 <= j < no.len() && i != j implies no[i] != no[j] by {
                let oi = if i < pos {
                    i
                } else {
                    i + 1
                };
                let oj = if j < pos {
                    j
                } else {
                    j + 1
                };
                assert(no[i] == old_order[oi] && no[j] == old_order[oj]);
            }
            assert(self.modules() == old(self).modules().remove(kv));
            assert forall|k: Seq<char>| self.modules().contains_key(k) <==> no.contains(k) by {
                assert(old(self).modules().contains_key(k) <==> old_order.contains(k));
                if no.contains(k) {
                    let i = choose|i: int| 0 <= i < no.len() && no[i] == k;
                    let oi = if i < pos {
                        i
                    } else {
                        i + 1
                    };
                    assert(old_order[oi] == k);
                    assert(oi != pos);
                }
                if self.modules().contains_key(k) {
                    assert(old_order.contains(k));
                    let oi = choose|oi: int| 0 <= oi < old_order.len() && old_order[oi] == k;
                    assert(oi != pos);
                    if oi < pos {
                        assert(no[oi] == k);
                    } else {
                        assert(no[oi - 1] == k);
                    }
                }
            }
            assert forall|b: u64| #[trigger] self.bases().contains_key(b) implies self.modules().contains_key(
                self.bases()[b],
            ) && self.modules()[self.bases()[b]]@.base == b by {
                assert(old(self).bases().contains_key(b));
            }
        }
        true
    }

    /// The index registered under `module` (any case or path form).
    pub fn get_by_name(&self, module: &str) -> (r: Option<&ModuleExportIndex>)
        ensures
            match r {
                Some(m) => self.module_at(normalized_module(module@)) == Some(*m),
                None => self.module_at(normalized_module(module@)) is None,
            },
    {
        let key = normalize_module_name(module);
        module_table_get(&self.by_name, key.as_str())
    }

    /// The index whose image base is `base` (a module handle).
    pub fn get_by_base(&self, base: u64) -> (r: Option<&ModuleExportIndex>)
        requires
            self.wf(),
        ensures
            match r {
                Some(m) => self.module_by_base(base) == Some(*m),
                None => self.module_by_base(base) is None,
            },
    {
        match address_names_get(&self.by_base, base) {
            Some(n) => module_table_get(&self.by_name, n.as_str()),
            None => None,
        }
    }

    /// The registered indexes in registration order.
    pub fn iter_ordered(&self) -> (r: Vec<&ModuleExportIndex>)
        requires
            self.wf(),
        ensures
            r@.len() == self.order().len(),
            forall|i: int| 0 <= i < r@.len() ==> *(#[trigger] r@[i]) == self.modules()[self.order()[i]],
    {
        let mut r: Vec<&ModuleExportIndex> = Vec::new();
        let mut i: usize = 0;
        while i < self.order.len()
            invariant
                self.wf(),
                i <= self.order@.len(),
                r@.len() == i,
                forall|k: int| 0 <= k < i ==> *(#[trigger] r@[k]) == self.modules()[self.order()[k]],
            decreases self.order@.len() - i,
        {
            assert(self.order().contains(self.order()[i as int]));
            match module_table_get(&self.by_name, self.order[i].as_str()) {
                Some(m) => {
                    r.push(m);
                },
                None => {
                    assert(false);
                },
            }
            i = i + 1;
        }
        r
    }

    /// `(module name, dump entries)` for each registered module, in
    /// registration order from position `k` on, whose normalised name
    /// contains `needle`.
    pub open spec fn exports_listing(&self, needle: Seq<char>, k: int) -> Seq<
        (Seq<char>, Seq<(Seq<char>, u64)>),
    >
        decreases self.order().len() - k,
    {
        if k < 0 || k >= self.order().len() {
            Seq::empty()
        } else {
            let m = self.modules()[self.order()[k]]@;
            let rest = self.exports_listing(needle, k + 1);
            if contains_seq(m.normalized_name, needle) {
                seq![(m.module_name, Seq::new(m.display_names.len(), |i: int| m.dump_entry(i)))] + rest
            } else {
                rest
            }
        }
    }

    /// The exports of every registered module whose normalised name
    /// contains `needle`, in registration order (see [`Self::exports_listing`]).
    pub fn exports_matching(&self, needle: &str) -> (r: Vec<(String, Vec<(String, u64)>)>)
        requires
            self.wf(),
        ensures
            listing_view(r@) == self.exports_listing(needle@, 0),
    {
        let nc = chars_of(needle);
        let mods = self.iter_ordered();
        let mut out: Vec<(String, Vec<(String, u64)>)> = Vec::new();
        let mut i: usize = 0;
        while i < mods.len()
            invariant
                self.wf(),
                nc@ == needle@,
                i <= mods@.len() == self.order().len(),
                forall|k: int| 0 <= k < mods@.len() ==> *(#[trigger] mods@[k]) == self.modules()[self.order()[k]],
                listing_view(out@) + self.exports_listing(needle@, i as int) == self.exports_listing(needle@, 0),
            decreases mods@.len() - i,
        {
            let m = mods[i];
            assert(*m == self.modules()[self.order()[i as int]]);
            let hc = chars_of(m.normalized_name.as_str());
            let ghost before = out@;
            if contains_chars(hc.as_slice(), nc.as_slice()) {
                let entries = m.iter_for_dump();
                let ghost mm = m@;
                assert(entries@.map_values(|q: (String, u64)| (q.0@, q.1)) =~= Seq::new(
                    mm.display_names.len(),
                    |k: int| mm.dump_entry(k),
                ));
                out.push((m.name(), entries));
                assert(listing_view(out@) =~= listing_view(before).push(
                    (mm.module_name, Seq::new(mm.display_names.len(), |k: int| mm.dump_entry(k))),
                ));
                assert(listing_view(out@) + self.exports_listing(needle@, i + 1) =~= listing_view(before)
                    + self.exports_listing(needle@, i as int));
            }
            i = i + 1;
        }
        assert(self.exports_listing(needle@, i as int) =~= Seq::empty());
        assert(listing_view(out@) =~= listing_view(out@) + Seq::<(Seq<char>, Seq<(Seq<char>, u64)>)>::empty());
        out
    }

    /// The first module in registration order, from position `k` on, with
    /// a display name containing `needle` on a direct export:
    /// `(address, module name, display name)`.
    pub open spec fn display_search(&self, needle: Seq<char>, k: int) -> Option<(u64, Seq<char>, Seq<char>)>
        decreases self.order().len() - k,
    {
        if k < 0 || k >= self.order().len() {
            None
        } else {
            match self.modules()[self.order()[k]]@.search_display(needle, 0) {
                Some((a, n)) => Some((a, self.modules()[self.order()[k]]@.module_name, n)),
                None => self.display_search(needle, k + 1),
            }
        }
    }

    /// Search the display names of the registered modules, in registration
    /// order, for one containing `needle` on a direct export.
    pub fn search_display_name(&self, needle: &str) -> (r: Option<(u64, String, String)>)
        requires
            self.wf(),
        ensures
            match r {
                Some((a, m, n)) => self.display_search(needle@, 0) == Some((a, m@, n@)),
                None => self.display_search(needle@, 0) is None,
            },
    {
        let mods = self.iter_ordered();
        let mut i: usize = 0;
        while i < mods.len()
            invariant
                self.wf(),
                i <= mods@.len() == self.order().len(),
                forall|k: int| 0 <= k < mods@.len() ==> *(#[trigger] mods@[k]) == self.modules()[self.order()[k]],
                self.display_search(needle@, 0) == self.display_search(needle@, i as int),
            decreases mods@.len() - i,
        {
            let m = mods[i];
            assert(*m == self.modules()[self.order()[i as int]]);
            match m.search_display_name(needle) {
                Some((a, n)) => {
                    return Some((a, m.name(), n));
                },
                None => {},
            }
            i = i + 1;
        }
        None
    }

    /// The first module in registration order, from position `k` on, whose
    /// address table lists `addr`: `(normalised module name, export name)`.
    pub open spec fn address_owner(&self, addr: u64, k: int) -> Option<(Seq<char>, Seq<char>)>
        decreases self.order().len() - k,
    {
        if k < 0 || k >= self.order().len() {
            None
        } else if self.modules()[self.order()[k]]@.by_address.contains_key(addr) {
            Some(
                (
                    self.modules()[self.order()[k]]@.normalized_name,
                    self.modules()[self.order()[k]]@.by_address[addr],
                ),
            )
        } else {
            self.address_owner(addr, k + 1)
        }
    }

    /// The first module in registration order, from position `k` on, whose
    /// address table lists `addr`: `(module name, export name)`.
    pub open spec fn address_owner_named(&self, addr: u64, k: int) -> Option<(Seq<char>, Seq<char>)>
        decreases self.order().len() - k,
    {
        if k < 0 || k >= self.order().len() {
            None
        } else if self.modules()[self.order()[k]]@.by_address.contains_key(addr) {
            Some(
                (
                    self.modules()[self.order()[k]]@.module_name,
                    self.modules()[self.order()[k]]@.by_address[addr],
                ),
            )
        } else {
            self.address_owner_named(addr, k + 1)
        }
    }

    /// Resolve an address to `(module name, export name)`: the first module
    /// in registration order that exports it directly.
    pub fn resolve_address_named(&self, addr: u64) -> (r: Option<(String, String)>)
        requires
            self.wf(),
        ensures
            match r {
                Some((m, n)) => self.address_owner_named(addr, 0) == Some((m@, n@)),
                None => self.address_owner_named(addr, 0) is None,
            },
    {
        let mods = self.iter_ordered();
        let mut i: usize = 0;
        while i < mods.len()
            invariant
                self.wf(),
                i <= mods@.len() == self.order().len(),
                forall|k: int| 0 <= k < mods@.len() ==> *(#[trigger] mods@[k]) == self.modules()[self.order()[k]],
                self.address_owner_named(addr, 0) == self.address_owner_named(addr, i as int),
            decreases mods@.len() - i,
        {
            let m = mods[i];
            match m.resolve_address(addr) {
                Some(name) => {
                    let a = m.module_name.clone();
                    let b = name.to_owned();
                    return Some((a, b));
                },
                None => {},
            }
            i = i + 1;
        }
        None
    }

    /// Resolve an address to `(normalised module name, export name)`: the
    /// first module in registration order that exports it directly.
    pub fn resolve_address(&self, addr: u64) -> (r: Option<(String, String)>)
        requires
            self.wf(),
        ensures
            match r {
                Some((m, n)) => self.address_owner(addr, 0) == Some((m@, n@)),
                None => self.address_owner(addr, 0) is None,
            },
    {
        let mods = self.iter_ordered();
        let mut i: usize = 0;
        while i < mods.len()
            invariant
                self.wf(),
                i <= mods@.len() == self.order().len(),
                forall|k: int| 0 <= k < mods@.len() ==> *(#[trigger] mods@[k]) == self.modules()[self.order()[k]],
                self.address_owner(addr, 0) == self.address_owner(addr, i as int),
            decreases mods@.len() - i,
        {
            let m = mods[i];
            match m.resolve_address(addr) {
                Some(name) => {
                    let a = m.normalized_name.clone();
                    let b = name.to_owned();
                    return Some((a, b));
                },
                None => {},
            }
            i = i + 1;
        }
        None
    }
}

/// True when `visited` already holds `(a, b)`.
fn visited_contains(visited: &Vec<(String, String)>, a: &str, b: &str) -> (r: bool)
    ensures
        r == visited_view(visited@).contains((a@, b@)),
{
    let mut i: usize = 0;
    while i < visited.len()
        invariant
            i <= visited@.len(),
            forall|k: int| 0 <= k < i ==> visited_view(visited@)[k] != (a@, b@),
        decreases visited@.len() - i,
    {
        let (x, y) = &visited[i];
        if str_eq(x.as_str(), a) && str_eq(y.as_str(), b) {
            assert(visited_view(visited@)[i as int] == (a@, b@));
            return true;
        }
        i = i + 1;
    }
    false
}

/// `s` without its first character.
fn drop_first_char(s: &[char]) -> (r: Vec<char>)
    requires
        s@.len() > 0,
    ensures
        r@ == s@.drop_first(),
{
    let mut r: Vec<char> = Vec::new();
    let mut i: usize = 1;
    while i < s.len()
        invariant
            1 <= i <= s@.len(),
            r@ == s@.subrange(1, i as int),
        decreases s@.len() - i,
    {
        r.push(s[i]);
        i = i + 1;
    }
    r
}

impl ExportIndexRegistry {
    /// Address of the export `name` (lower-cased) of module `module`
    /// (normalised), following forwarders; 0 when the chain breaks, loops
    /// back to a visited `(module, symbol)` pair, or exceeds `depth`.
    pub open spec fn name_res(
        &self,
        module: Seq<char>,
        name: Seq<char>,
        visited: Seq<(Seq<char>, Seq<char>)>,
        depth: nat,
    ) -> u64
        decreases depth, 0nat,
    {
        if depth == 0 || !self.modules().contains_key(module) {
            0
        } else {
            match self.modules()[module]@.lookup_name(name) {
                None => 0,
                Some(IndexedModel::Direct { address }) => address,
                Some(IndexedModel::Forwarder { value }) => if visited.contains((module, name)) {
                    0
                } else {
                    self.fwd_res(value, visited.push((module, name)), (depth - 1) as nat)
                },
            }
        }
    }

    /// Address a forwarder string `dll.symbol` or `dll.#N` resolves to
    /// through the registered modules; 0 when it cannot be resolved.
    pub open spec fn fwd_res(
        &self,
        value: Seq<char>,
        visited: Seq<(Seq<char>, Seq<char>)>,
        depth: nat,
    ) -> u64
        decreases depth, 1nat,
    {
        if depth == 0 {
            0
        } else {
            match split_first(value, '.') {
                None => 0,
                Some((dll, sym)) => {
                    let nd = normalized_module(dll);
                    if sym.len() > 0 && sym[0] == '#' {
                        match parse_u32_spec(sym.drop_first()) {
                            None => 0,
                            Some(ord) => if !self.modules().contains_key(nd) {
                                0
                            } else {
                                match self.modules()[nd]@.lookup_ordinal(ord) {
                                    None => 0,
                                    Some(IndexedModel::Direct { address }) => address,
                                    Some(IndexedModel::Forwarder { value: fv }) => if visited.contains(
                                        (nd, ordinal_key(ord)),
                                    ) {
                                        0
                                    } else {
                                        self.fwd_res(
                                            fv,
                                            visited.push((nd, ordinal_key(ord))),
                                            (depth - 1) as nat,
                                        )
                                    },
                                }
                            },
                        }
                    } else {
                        self.name_res(nd, lower_seq(sym), visited, depth)
                    }
                },
            }
        }
    }

    /// Address an index slot stands for: a direct address, a forwarder
    /// followed from scratch, or 0 for an empty slot.
    pub open spec fn target_addr(&self, t: Option<IndexedModel>) -> u64 {
        match t {
            None => 0,
            Some(IndexedModel::Direct { address }) => address,
            Some(IndexedModel::Forwarder { value }) => self.fwd_res(
                value,
                Seq::empty(),
                MAX_FORWARDER_DEPTH as nat,
            ),
        }
    }

    /// First non-zero resolution of `name` (lower-cased) over the modules
    /// from registration position `k` on.
    pub open spec fn global_from(&self, name: Seq<char>, k: int) -> u64
        decreases self.order().len() - k,
    {
        if k < 0 || k >= self.order().len() {
            0
        } else {
            let a = self.target_addr(self.modules()[self.order()[k]]@.lookup_name(name));
            if a != 0 {
                a
            } else {
                self.global_from(name, k + 1)
            }
        }
    }

    fn resolve_name_in_module_inner(
        &self,
        normalized_module: &str,
        name_lc: &str,
        visited: &mut Vec<(String, String)>,
        depth: usize,
    ) -> (r: u64)
        requires
            self.wf(),
        ensures
            r == self.name_res(normalized_module@, name_lc@, visited_view(old(visited)@), depth as nat),
        decreases depth, 0nat,
    {
        if depth == 0 {
            return 0;
        }
        let module = match module_table_get(&self.by_name, normalized_module) {
            Some(m) => m,
            None => {
                return 0;
            },
        };
        let target = match module.resolve_name(name_lc) {
            Some(t) => t,
            None => {
                return 0;
            },
        };
        match target {
            IndexedExport::Direct { address } => *address,
            IndexedExport::Forwarder { value } => {
                if visited_contains(visited, normalized_module, name_lc) {
                    return 0;
                }
                let ghost before = visited_view(visited@);
                visited.push((normalized_module.to_owned(), name_lc.to_owned()));
                assert(visited_view(visited@) =~= before.push((normalized_module@, name_lc@)));
                self.parse_forwarder_and_resolve(value.as_str(), visited, depth - 1)
            },
        }
    }

    fn parse_forwarder_and_resolve(
        &self,
        value: &str,
        visited: &mut Vec<(String, String)>,
        depth: usize,
    ) -> (r: u64)
        requires
            self.wf(),
        ensures
            r == self.fwd_res(value@, visited_view(old(visited)@), depth as nat),
        decreases depth, 1nat,
    {
        if depth == 0 {
            return 0;
        }
        let cs = chars_of(value);
        let (dll_part, sym_part) = match split_first_chars(cs.as_slice(), '.') {
            Some(p) => p,
            None => {
                return 0;
            },
        };
        let dll = string_from_chars(dll_part.as_slice());
        let normalized_dll = normalize_module_name(dll.as_str());
        if sym_part.len() > 0 && sym_part[0] == '#' {
            let digits = drop_first_char(sym_part.as_slice());
            let ordinal = match parse_u32_decimal(digits.as_slice()) {
                Some(o) => o,
                None => {
                    return 0;
                },
            };
            let module = match module_table_get(&self.by_name, normalized_dll.as_str()) {
                Some(m) => m,
                None => {
                    return 0;
                },
            };
            match module.resolve_ordinal(ordinal) {
                None => 0,
                Some(IndexedExport::Direct { address }) => *address,
                Some(IndexedExport::Forwarder { value: fwd_value }) => {
                    let mut key_chars: Vec<char> = vec!['#'];
                    push_decimal(ordinal as u64, &mut key_chars);
                    let key = string_from_chars(key_chars.as_slice());
                    assert(key@ == ordinal_key(ordinal));
                    if visited_contains(visited, normalized_dll.as_str(), key.as_str()) {
                        return 0;
                    }
                    let ghost before = visited_view(visited@);
                    visited.push((normalized_dll.clone(), key));
                    assert(visited_view(visited@) =~= before.push(
                        (normalized_dll@, ordinal_key(ordinal)),
                    ));
                    self.parse_forwarder_and_resolve(fwd_value.as_str(), visited, depth - 1)
                },
            }
        } else {
            let lowered = string_from_chars(crate::text::lower_chars(sym_part.as_slice()).as_slice());
            self.resolve_name_in_module_inner(
                normalized_dll.as_str(),
                lowered.as_str(),
                visited,
                depth,
            )
        }
    }

    /// Address of the export `name` in `module` (any case or path form),
    /// following forwarders through registered modules up to
    /// [`MAX_FORWARDER_DEPTH`] links; 0 when it cannot be resolved.
    pub fn resolve_name_in_module(&self, module: &str, name: &str) -> (r: u64)
        requires
            self.wf(),
        ensures
            r == self.name_res(
                normalized_module(module@),
                normalized_export(name@),
                Seq::empty(),
                MAX_FORWARDER_DEPTH as nat,
            ),
    {
        let normalized = normalize_module_name(module);
        let name_lc = normalize_export_name(name);
        let mut visited: Vec<(String, String)> = Vec::new();
        assert(visited_view(visited@) =~= Seq::<(Seq<char>, Seq<char>)>::empty());
        self.resolve_name_in_module_inner(
            normalized.as_str(),
            name_lc.as_str(),
            &mut visited,
            MAX_FORWARDER_DEPTH,
        )
    }

    fn target_address(&self, t: &IndexedExport) -> (r: u64)
        requires
            self.wf(),
        ensures
            r == self.target_addr(Some(t@)),
    {
        match t {
            IndexedExport::Direct { address } => *address,
            IndexedExport::Forwarder { value } => {
                let mut visited: Vec<(String, String)> = Vec::new();
                assert(visited_view(visited@) =~= Seq::<(Seq<char>, Seq<char>)>::empty());
                self.parse_forwarder_and_resolve(value.as_str(), &mut visited, MAX_FORWARDER_DEPTH)
            },
        }
    }

    /// Resolve `name` in every registered module in registration order;
    /// the first non-zero address wins, 0 when none resolves.
    pub fn resolve_name_global(&self, name: &str) -> (r: u64)
        requires
            self.wf(),
        ensures
            r == self.global_from(normalized_export(name@), 0),
    {
        let name_lc = normalize_export_name(name);
        let mods = self.iter_ordered();
        let mut i: usize = 0;
        while i < mods.len()
            invariant
                self.wf(),
                i <= mods@.len() == self.order().len(),
                forall|k: int| 0 <= k < mods@.len() ==> *(#[trigger] mods@[k]) == self.modules()[self.order()[k]],
                self.global_from(name_lc@, 0) == self.global_from(name_lc@, i as int),
                name_lc@ == normalized_export(name@),
            decreases mods@.len() - i,
        {
            let m = mods[i];
            let addr = match m.resolve_name(name_lc.as_str()) {
                Some(t) => self.target_address(t),
                None => 0,
            };
            assert(*m == self.modules()[self.order()[i as int]]);
            if addr != 0 {
                return addr;
            }
            i = i + 1;
        }
        0
    }

    /// Resolve an ordinal in the module whose image base is `base`
    /// (`GetProcAddress` by ordinal); 0 when unknown.
    pub fn resolve_ordinal_by_base(&self, base: u64, ordinal: u32) -> (r: u64)
        requires
            self.wf(),
        ensures
            r == match self.module_by_base(base) {
                None => 0,
                Some(m) => self.target_addr(m@.lookup_ordinal(ordinal)),
            },
    {
        let module = match self.get_by_base(base) {
            Some(m) => m,
            None => {
                return 0;
            },
        };
        match module.resolve_ordinal(ordinal) {
            Some(t) => self.target_address(t),
            None => 0,
        }
    }

    /// Resolve a name in the module whose image base is `base`
    /// (`GetProcAddress` by name); 0 when unknown.
    pub fn resolve_name_by_base(&self, base: u64, name: &str) -> (r: u64)
        requires
            self.wf(),
        ensures
            r == match self.module_by_base(base) {
                None => 0,
                Some(m) => self.target_addr(m@.lookup_name(normalized_export(name@))),
            },
    {
        let module = match self.get_by_base(base) {
            Some(m) => m,
            None => {
                return 0;
            },
        };
        let name_lc = normalize_export_name(name);
        match module.resolve_name(name_lc.as_str()) {
            Some(t) => self.target_address(t),
            None => 0,
        }
    }
}

impl Default for ExportIndexRegistry {
    fn default() -> (r: Self)
        ensures
            r.wf(),
            r.modules() == no_modules(),
            r.order() == Seq::<Seq<char>>::empty(),
    {
        ExportIndexRegistry::new()
    }
}

/// After `register(index)` the module is found under every spelling of its
/// name that normalises to its key (any case, path or `.dll` form) and
/// under its image base.
pub proof fn law_register_then_lookup(
    before: ExportIndexRegistry,
    after: ExportIndexRegistry,
    index: ModuleExportIndex,
    name: Seq<char>,
)
    requires
        registered(before, after, index),
        normalized_module(name) == index@.normalized_name,
    ensures
        after.module_at(normalized_module(name)) == Some(index),
        after.module_by_base(index@.base) == Some(index),
{
}

/// Registering a module name again replaces the earlier index: as many
/// modules as before, the registration order unchanged, and the earlier
/// image base (when it differs) no longer names a module.
pub proof fn law_register_replaces(
    before: ExportIndexRegistry,
    after: ExportIndexRegistry,
    index: ModuleExportIndex,
)
    requires
        before.wf(),
        registered(before, after, index),
        before.modules().contains_key(index@.normalized_name),
    ensures
        after.modules().len() == before.modules().len(),
        after.order() == before.order(),
        before.modules()[index@.normalized_name]@.base != index@.base ==> after.module_by_base(
            before.modules()[index@.normalized_name]@.base,
        ) is None,
{
    assert(after.modules().dom() =~= before.modules().dom());
}

/// `remove(module)` of a registered module drops it from every table: its
/// key and its image base name no module, and one module fewer remains.
pub proof fn law_remove_drops_module(before: ExportIndexRegistry, after: ExportIndexRegistry, module: Seq<char>)
    requires
        before.wf(),
        before.modules().contains_key(normalized_module(module)),
        after.modules() == before.modules().remove(normalized_module(module)),
        after.bases() == before.bases().remove(before.modules()[normalized_module(module)]@.base),
    ensures
        after.module_at(normalized_module(module)) is None,
        after.module_by_base(before.modules()[normalized_module(module)]@.base) is None,
        after.modules().len() == before.modules().len() - 1,
{
}

/// Named resolution ignores the case and surrounding blanks of the export
/// name: names with the same normalised form resolve to the same address.
pub proof fn law_named_resolution_case_insensitive(
    reg: ExportIndexRegistry,
    module: Seq<char>,
    name1: Seq<char>,
    name2: Seq<char>,
)
    requires
        normalized_export(name1) == normalized_export(name2),
    ensures
        reg.name_res(normalized_module(module), normalized_export(name1), Seq::empty(), MAX_FORWARDER_DEPTH as nat)
            == reg.name_res(normalized_module(module), normalized_export(name2), Seq::empty(), MAX_FORWARDER_DEPTH as nat),
{
}

/// Rebasing moves the direct exports exactly as placing the parsed
/// directory at the new base does: the slots of `from_parsed(b1)` after
/// `rebase(b2)` are those of `from_parsed(b2)`; forwarders are untouched.
pub proof fn law_rebase_matches_fresh_placement(targets: Seq<Option<TargetModel>>, b1: u64, b2: u64)
    ensures
        targets.map_values(|t: Option<TargetModel>| placed_slot(t, b1)).map_values(
            |s: Option<IndexedModel>| shifted_slot(s, sub_wrap(b2, b1)),
        ) == targets.map_values(|t: Option<TargetModel>| placed_slot(t, b2)),
{
    let lhs = targets.map_values(|t: Option<TargetModel>| placed_slot(t, b1)).map_values(
        |s: Option<IndexedModel>| shifted_slot(s, sub_wrap(b2, b1)),
    );
    let rhs = targets.map_values(|t: Option<TargetModel>| placed_slot(t, b2));
    assert forall|i: int| 0 <= i < targets.len() implies lhs[i] == rhs[i] by {
        match targets[i] {
            Some(TargetModel::Direct { rva }) => {
                assert(add_wrap(add_wrap(b1, rva as u64), sub_wrap(b2, b1)) == add_wrap(b2, rva as u64));
            },
            _ => {},
        }
    }
    assert(lhs =~= rhs);
}

/// An ordinal below the module's export base names no export: resolving it
/// through the module's handle gives 0.
pub proof fn law_ordinal_below_export_base(reg: ExportIndexRegistry, base: u64, ordinal: u32)
    requires
        reg.module_by_base(base) is Some,
        ordinal < reg.module_by_base(base)->0@.export_base,
    ensures
        (match reg.module_by_base(base) {
            None => 0,
            Some(m) => reg.target_addr(m@.lookup_ordinal(ordinal)),
        }) == 0,
{
}

/// Index of the first display name, from `start` on, of function `idx`.
pub open spec fn display_at(names: Seq<(u32, Seq<char>)>, idx: u32, start: int) -> Option<int>
    decreases names.len() - start,
{
    if start < 0 || start >= names.len() {
        None
    } else if names[start].0 == idx {
        Some(start)
    } else {
        display_at(names, idx, start + 1)
    }
}

/// The first display name of function `idx`.
pub open spec fn display_name_of(m: ModuleModel, idx: u32) -> Option<Seq<char>> {
    match display_at(m.display_names, idx, 0) {
        Some(i) => Some(m.display_names[i].1),
        None => None,
    }
}

/// The first display name of function `idx` of `module`.
fn display_name_of_index(module: &ModuleExportIndex, idx: u32) -> (r: Option<String>)
    ensures
        match display_name_of(module@, idx) {
            Some(n) => r is Some && r->0@ == n,
            None => r is None,
        },
{
    let names = module.display_names_for_iter();
    let mut i: usize = 0;
    while i < names.len()
        invariant
            i <= names@.len(),
            names@.len() == module@.display_names.len(),
            forall|k: int|
                0 <= k < names@.len() ==> (#[trigger] names@[k]).0@ == module@.display_names[k].1
                    && names@[k].1 == module@.display_names[k].0,
            display_at(module@.display_names, idx, 0) == display_at(module@.display_names, idx, i as int),
        decreases names@.len() - i,
    {
        if names[i].1 == idx {
            return Some(names[i].0.clone());
        }
        i = i + 1;
    }
    None
}

/// The display (original-case) name of the export a lower-cased name
/// selects: the first display name of its function.
pub open spec fn display_for_name(m: ModuleModel, name_lc: Seq<char>) -> Option<Seq<char>> {
    let lc = lower_seq(name_lc);
    if m.by_name.contains_key(lc) {
        display_name_of(m, m.by_name[lc])
    } else {
        None
    }
}

/// The display name `module` gives the export `name_lc` names.
pub fn module_display_name_for(module: &ModuleExportIndex, name_lc: &str) -> (r: Option<String>)
    ensures
        match display_for_name(module@, name_lc@) {
            Some(n) => r is Some && r->0@ == n,
            None => r is None,
        },
{
    let lc = lower_string(name_lc);
    match name_slots_get(&module.by_name, lc.as_str()) {
        Some(ord_idx) => display_name_of_index(module, ord_idx),
        None => None,
    }
}

/// The display name of the export with `ordinal`: the first display name
/// of function `ordinal - export_base` (none below the base).
pub open spec fn display_for_ordinal(m: ModuleModel, ordinal: u32) -> Option<Seq<char>> {
    if ordinal < m.export_base {
        None
    } else {
        display_name_of(m, (ordinal - m.export_base) as u32)
    }
}

/// The display name `module` gives the export with `ordinal`.
pub fn module_display_name_for_ordinal(module: &ModuleExportIndex, ordinal: u32) -> (r: Option<String>)
    ensures
        match display_for_ordinal(module@, ordinal) {
            Some(n) => r is Some && r->0@ == n,
            None => r is None,
        },
{
    let idx = match ordinal.checked_sub(module.export_base) {
        Some(i) => i,
        None => {
            return None;
        },
    };
    display_name_of_index(module, idx)
}


/// A named forwarder `dll.symbol` (the symbol not an `#ordinal`) resolves
/// as the lookup of the symbol by name in the module the DLL part names:
/// the symbol is matched case-insensitively, lower-cased as every name
/// lookup is, and the forwarder itself is marked visited.
pub proof fn law_named_forwarder_resolves_lowercased(
    reg: ExportIndexRegistry,
    module: Seq<char>,
    name: Seq<char>,
    dll: Seq<char>,
    symbol: Seq<char>,
    visited: Seq<(Seq<char>, Seq<char>)>,
    depth: nat,
)
    requires
        reg.modules().contains_key(module),
        reg.modules()[module]@.lookup_name(name) == Some(
            IndexedModel::Forwarder { value: dll + seq!['.'] + symbol },
        ),
        !dll.contains('.'),
        !(symbol.len() > 0 && symbol[0] == '#'),
        !visited.contains((module, name)),
        depth >= 2,
    ensures
        reg.name_res(module, name, visited, depth) == reg.name_res(
            normalized_module(dll),
            lower_seq(symbol),
            visited.push((module, name)),
            (depth - 1) as nat,
        ),
{
    let v = dll + seq!['.'] + symbol;
    assert(v[dll.len() as int] == '.');
    assert forall|j: int| 0 <= j < dll.len() implies v[j] != '.' by {
        assert(v[j] == dll[j]);
        if dll[j] == '.' {
            assert(dll.contains('.'));
        }
    }
    lemma_first_index_unique(v, '.', dll.len() as int);
    assert(v.subrange(0, dll.len() as int) =~= dll);
    assert(v.subrange(dll.len() as int + 1, v.len() as int) =~= symbol);
}


/// The forwarder `dll.#ordinal` of a module resolves, when the module the
/// DLL part names exports that ordinal directly, to that export's address.
pub proof fn law_ordinal_forwarder_resolves(
    reg: ExportIndexRegistry,
    module: Seq<char>,
    name: Seq<char>,
    dll: Seq<char>,
    digits: Seq<char>,
    ordinal: u32,
    address: u64,
    visited: Seq<(Seq<char>, Seq<char>)>,
    depth: nat,
)
    requires
        reg.modules().contains_key(module),
        reg.modules()[module]@.lookup_name(name) == Some(
            IndexedModel::Forwarder { value: dll + seq!['.', '#'] + digits },
        ),
        !dll.contains('.'),
        parse_u32_spec(digits) == Some(ordinal),
        reg.modules().contains_key(normalized_module(dll)),
        reg.modules()[normalized_module(dll)]@.lookup_ordinal(ordinal) == Some(IndexedModel::Direct { address }),
        !visited.contains((module, name)),
        depth >= 2,
    ensures
        reg.name_res(module, name, visited, depth) == address,
{
    let v = dll + seq!['.', '#'] + digits;
    let sym = seq!['#'] + digits;
    assert(v[dll.len() as int] == '.');
    assert forall|j: int| 0 <= j < dll.len() implies v[j] != '.' by {
        assert(v[j] == dll[j]);
        if dll[j] == '.' {
            assert(dll.contains('.'));
        }
    }
    lemma_first_index_unique(v, '.', dll.len() as int);
    assert(v.subrange(0, dll.len() as int) =~= dll);
    assert(v.subrange(dll.len() as int + 1, v.len() as int) =~= sym);
    assert(sym.drop_first() =~= digits);
}

/// A named forwarder `dll.symbol` of a module resolves, when the module
/// the DLL part names exports the symbol (in any ASCII case) directly, to
/// that export's address.
pub proof fn law_named_forwarder_reaches_direct_export(
    reg: ExportIndexRegistry,
    module: Seq<char>,
    name: Seq<char>,
    dll: Seq<char>,
    symbol: Seq<char>,
    address: u64,
    visited: Seq<(Seq<char>, Seq<char>)>,
    depth: nat,
)
    requires
        reg.modules().contains_key(module),
        reg.modules()[module]@.lookup_name(name) == Some(
            IndexedModel::Forwarder { value: dll + seq!['.'] + symbol },
        ),
        !dll.contains('.'),
        !(symbol.len() > 0 && symbol[0] == '#'),
        reg.modules().contains_key(normalized_module(dll)),
        reg.modules()[normalized_module(dll)]@.lookup_name(lower_seq(symbol)) == Some(
            IndexedModel::Direct { address },
        ),
        !visited.contains((module, name)),
        depth >= 2,
    ensures
        reg.name_res(module, name, visited, depth) == address,
{
    law_named_forwarder_resolves_lowercased(reg, module, name, dll, symbol, visited, depth);
}

} // verus!
