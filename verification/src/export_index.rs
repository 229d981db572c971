//! Parsed representation of a PE export directory, built from the image's
//! raw bytes and independent of any emulator state.
//!
//! Function-table RVAs are `u32` (PE RVAs are 32-bit on every PE flavour);
//! the runtime registry rebases them with the module base.

use vstd::prelude::*;
use crate::bytes::{c_string_at, le_u16, le_u32, read_c_string, read_u16_le, read_u32_le};
use crate::pe_section::{rva_to_offset, sat_add_u32, vaddr_to_off, ImageSectionHeader};

verus! {

/// Largest function table accepted from a (possibly hostile) directory.
pub const MAX_EXPORT_FUNCTIONS: u32 = 0x10_0000;

/// Largest name table accepted.
pub const MAX_EXPORT_NAMES: u32 = 0x10_0000;

/// One function-table slot; `ordinal_targets[i]` is ordinal `export_base + i`.
#[derive(Debug, Clone, PartialEq, Eq)]
pub enum ExportTarget {
    /// The function lives at `image_base + rva`.
    Direct { rva: u32 },
    /// The function lives in another module; the original forwarder string
    /// (`KERNELBASE.HeapAlloc`, `KERNELBASE.#123`).
    Forwarder { value: String },
}

/// Mathematical value of an [`ExportTarget`].
pub ghost enum TargetModel {
    Direct { rva: u32 },
    Forwarder { value: Seq<char> },
}

impl View for ExportTarget {
    type V = TargetModel;

    open spec fn view(&self) -> TargetModel {
        match self {
            ExportTarget::Direct { rva } => TargetModel::Direct { rva: *rva },
            ExportTarget::Forwarder { value } => TargetModel::Forwarder { value: value@ },
        }
    }
}

pub open spec fn slot_view(s: Option<ExportTarget>) -> Option<TargetModel> {
    match s {
        Some(t) => Some(t@),
        None => None,
    }
}

/// A named export: its original spelling and the function-table index
/// (not the ordinal) it points at.
#[derive(Debug, Clone, PartialEq, Eq)]
pub struct NamedExport {
    pub name: String,
    pub ordinal_index: u32,
}

/// Parsed export directory contents.
#[derive(Debug, Clone)]
pub struct ExportIndexData {
    /// `IMAGE_EXPORT_DIRECTORY.Base`.
    pub export_base: u32,
    /// Number of function-table entries parsed (after the caps).
    pub number_of_functions: u32,
    /// One slot per function-table entry; `None` is a missing export.
    pub ordinal_targets: Vec<Option<ExportTarget>>,
    /// Named exports in name-table order.
    pub named_exports: Vec<NamedExport>,
}

/// Mathematical value of an [`ExportIndexData`].
pub ghost struct ExportIndexModel {
    pub export_base: u32,
    pub number_of_functions: u32,
    pub ordinal_targets: Seq<Option<TargetModel>>,
    pub named_exports: Seq<(Seq<char>, u32)>,
}

impl View for ExportIndexData {
    type V = ExportIndexModel;

    open spec fn view(&self) -> ExportIndexModel {
        ExportIndexModel {
            export_base: self.export_base,
            number_of_functions: self.number_of_functions,
            ordinal_targets: self.ordinal_targets@.map_values(|s: Option<ExportTarget>| slot_view(s)),
            named_exports: self.named_exports@.map_values(
                |n: NamedExport| (n.name@, n.ordinal_index),
            ),
        }
    }
}

impl ExportIndexData {
    /// True if this index carries no usable data (empty function table).
    pub fn is_empty(&self) -> (r: bool)
        ensures
            r == (self.ordinal_targets@.len() == 0),
    {
        self.ordinal_targets.len() == 0
    }
}

/// A table count capped by its hard ceiling and by `raw_len / 4`.
pub open spec fn capped_count(n: u32, ceiling: u32, raw_len: int) -> u32 {
    let a = if n < ceiling {
        n
    } else {
        ceiling
    };
    let cap = (raw_len / 4) as u32;
    if a < cap {
        a
    } else {
        cap
    }
}

/// Function-table slot `i`, whose table starts at file offset `fo`.
pub open spec fn function_slot(
    raw: Seq<u8>,
    sections: Seq<ImageSectionHeader>,
    dir_va: u32,
    dir_size: u32,
    fo: int,
    i: int,
) -> Option<TargetModel> {
    let rva = le_u32(raw, fo + 4 * i);
    if rva == 0 {
        None
    } else if dir_size != 0 && rva >= dir_va && rva < sat_add_u32(dir_va, dir_size) {
        match rva_to_offset(sections, rva) {
            None => None,
            Some(o) => if o >= raw.len() || c_string_at(raw, o).len() == 0 {
                None
            } else {
                Some(TargetModel::Forwarder { value: c_string_at(raw, o) })
            },
        }
    } else {
        Some(TargetModel::Direct { rva })
    }
}

/// Name-table entry `i`: `(name, function index)` unless it is malformed.
pub open spec fn name_entry(
    raw: Seq<u8>,
    sections: Seq<ImageSectionHeader>,
    no: int,
    oo: int,
    nof: u32,
    i: int,
) -> Option<(Seq<char>, u32)> {
    let name_rva = le_u32(raw, no + 4 * i);
    let ord = le_u16(raw, oo + 2 * i) as u32;
    if ord >= nof {
        None
    } else {
        match rva_to_offset(sections, name_rva) {
            None => None,
            Some(o) => if o >= raw.len() || c_string_at(raw, o).len() == 0 {
                None
            } else {
                Some((c_string_at(raw, o), ord))
            },
        }
    }
}

/// The well-formed entries among the first `k` name-table entries, in order.
pub open spec fn name_entries(
    raw: Seq<u8>,
    sections: Seq<ImageSectionHeader>,
    no: int,
    oo: int,
    nof: u32,
    k: int,
) -> Seq<(Seq<char>, u32)>
    decreases k,
{
    if k <= 0 {
        Seq::empty()
    } else {
        let prev = name_entries(raw, sections, no, oo, nof, k - 1);
        match name_entry(raw, sections, no, oo, nof, k - 1) {
            Some(e) => prev.push(e),
            None => prev,
        }
    }
}

/// Where an export directory's tables lie: ordinal base, capped counts
/// and the file offsets of the function, name and name-ordinal tables.
pub ghost struct ExportLayout {
    pub base: u32,
    pub nof: u32,
    pub non: u32,
    pub fo: int,
    pub no: int,
    pub oo: int,
}

/// The layout of the export directory at `dir_va` (data-directory size
/// `dir_size`), or `None` when it is absent or its tables are not in the file.
pub open spec fn export_layout(
    raw: Seq<u8>,
    sections: Seq<ImageSectionHeader>,
    dir_va: u32,
    dir_size: u32,
) -> Option<ExportLayout> {
    if dir_va == 0 || dir_size < 40 {
        None
    } else {
        match rva_to_offset(sections, dir_va) {
            None => None,
            Some(eo) => if eo + 40 > raw.len() {
                None
            } else {
                let nof = capped_count(le_u32(raw, eo + 20), MAX_EXPORT_FUNCTIONS, raw.len() as int);
                let non = capped_count(le_u32(raw, eo + 24), MAX_EXPORT_NAMES, raw.len() as int);
                let aof = le_u32(raw, eo + 28);
                let aon = le_u32(raw, eo + 32);
                let aoo = le_u32(raw, eo + 36);
                match (
                    rva_to_offset(sections, aof),
                    rva_to_offset(sections, aon),
                    rva_to_offset(sections, aoo),
                ) {
                    (Some(fo), Some(no), Some(oo)) => if aof == 0 || fo + nof * 4 > raw.len()
                        || aon == 0 || no + non * 4 > raw.len() || aoo == 0 || oo + non * 2
                        > raw.len() {
                        None
                    } else {
                        Some(ExportLayout { base: le_u32(raw, eo + 16), nof, non, fo, no, oo })
                    },
                    _ => None,
                }
            },
        }
    }
}

/// What the export directory at `dir_va` holds, or `None` when
/// [`export_layout`] finds none.
pub open spec fn export_index_of(
    raw: Seq<u8>,
    sections: Seq<ImageSectionHeader>,
    dir_va: u32,
    dir_size: u32,
) -> Option<ExportIndexModel> {
    match export_layout(raw, sections, dir_va, dir_size) {
        None => None,
        Some(l) => Some(
            ExportIndexModel {
                export_base: l.base,
                number_of_functions: l.nof,
                ordinal_targets: Seq::new(
                    l.nof as nat,
                    |i: int| function_slot(raw, sections, dir_va, dir_size, l.fo, i),
                ),
                named_exports: name_entries(raw, sections, l.no, l.oo, l.nof, l.non as int),
            },
        ),
    }
}

fn read_export_layout(
    raw: &[u8],
    sections: &[ImageSectionHeader],
    export_dir_va: u32,
    export_dir_size: u32,
) -> (r: Option<(u32, u32, u32, usize, usize, usize)>)
    ensures
        match r {
            Some((base, nof, non, fo, no, oo)) => export_layout(
                raw@,
                sections@,
                export_dir_va,
                export_dir_size,
            ) == Some(
                ExportLayout {
                    base,
                    nof,
                    non,
                    fo: fo as int,
                    no: no as int,
                    oo: oo as int,
                },
            ),
            None => export_layout(raw@, sections@, export_dir_va, export_dir_size) is None,
        },
{
    if export_dir_va == 0 || export_dir_size < 40 {
        return None;
    }
    let export_off = vaddr_to_off(sections, export_dir_va)?;
    if export_off > raw.len() || raw.len() - export_off < 40 {
        return None;
    }
    let base = read_u32_le(raw, export_off + 16);
    let number_of_functions = read_u32_le(raw, export_off + 20);
    let number_of_names = read_u32_le(raw, export_off + 24);
    let address_of_functions = read_u32_le(raw, export_off + 28);
    let address_of_names = read_u32_le(raw, export_off + 32);
    let address_of_name_ordinals = read_u32_le(raw, export_off + 36);

    // Defensive caps: the hard ceiling and raw length / 4.
    let nof = if number_of_functions < MAX_EXPORT_FUNCTIONS {
        number_of_functions
    } else {
        MAX_EXPORT_FUNCTIONS
    };
    let raw_func_cap = (raw.len() / 4) as u32;
    let nof = if nof < raw_func_cap {
        nof
    } else {
        raw_func_cap
    };
    let non = if number_of_names < MAX_EXPORT_NAMES {
        number_of_names
    } else {
        MAX_EXPORT_NAMES
    };
    let raw_name_cap = (raw.len() / 4) as u32;
    let non = if non < raw_name_cap {
        non
    } else {
        raw_name_cap
    };

    // The table RVAs are section-space addresses, bounds-checked after
    // translation to file offsets.
    let func_table_off = vaddr_to_off(sections, address_of_functions)?;
    let name_table_off = vaddr_to_off(sections, address_of_names)?;
    let ord_table_off = vaddr_to_off(sections, address_of_name_ordinals)?;
    if address_of_functions == 0 || func_table_off > raw.len() || raw.len() - func_table_off < (
    nof as usize) * 4 {
        return None;
    }
    if address_of_names == 0 || name_table_off > raw.len() || raw.len() - name_table_off < (
    non as usize) * 4 {
        return None;
    }
    if address_of_name_ordinals == 0 || ord_table_off > raw.len() || raw.len() - ord_table_off < (
    non as usize) * 2 {
        return None;
    }
    Some((base, nof, non, func_table_off, name_table_off, ord_table_off))
}

fn read_function_slot(
    raw: &[u8],
    sections: &[ImageSectionHeader],
    dir_va: u32,
    dir_size: u32,
    fo: usize,
    i: u32,
) -> (r: Option<ExportTarget>)
    requires
        fo + 4 * i + 4 <= raw.len(),
    ensures
        slot_view(r) == function_slot(raw@, sections@, dir_va, dir_size, fo as int, i as int),
{
    let func_off = fo + (i as usize) * 4;
    let rva = read_u32_le(raw, func_off);
    if rva == 0 {
        return None;
    }
    if dir_size != 0 && rva >= dir_va && rva < dir_va.saturating_add(dir_size) {
        let fwd_off = match vaddr_to_off(sections, rva) {
            Some(o) => o,
            None => {
                return None;
            },
        };
        if fwd_off >= raw.len() {
            return None;
        }
        let value = read_c_string(raw, fwd_off);
        if value.unicode_len() == 0 {
            return None;
        }
        Some(ExportTarget::Forwarder { value })
    } else {
        Some(ExportTarget::Direct { rva })
    }
}

fn read_name_entry(
    raw: &[u8],
    sections: &[ImageSectionHeader],
    no: usize,
    oo: usize,
    nof: u32,
    i: u32,
) -> (r: Option<NamedExport>)
    requires
        no + 4 * i + 4 <= raw.len(),
        oo + 2 * i + 2 <= raw.len(),
    ensures
        match r {
            Some(n) => name_entry(raw@, sections@, no as int, oo as int, nof, i as int) == Some(
                (n.name@, n.ordinal_index),
            ),
            None => name_entry(raw@, sections@, no as int, oo as int, nof, i as int) is None,
        },
{
    let name_rva = read_u32_le(raw, no + (i as usize) * 4);
    let ord_idx = read_u16_le(raw, oo + (i as usize) * 2) as u32;
    if ord_idx >= nof {
        return None;
    }
    let name_off = match vaddr_to_off(sections, name_rva) {
        Some(o) => o,
        None => {
            return None;
        },
    };
    if name_off >= raw.len() {
        return None;
    }
    let name = read_c_string(raw, name_off);
    if name.unicode_len() == 0 {
        return None;
    }
    Some(NamedExport { name, ordinal_index: ord_idx })
}

/// Build an [`ExportIndexData`] from the file's raw bytes, its section
/// headers and the export data-directory entry (RVA and size). `None` when
/// the directory is absent, too small for its header, or its tables do not
/// lie within the file. Counts are capped, so hostile counts cannot make
/// the parser read or allocate without bound.
pub fn build_export_index(
    raw: &[u8],
    sections: &[ImageSectionHeader],
    export_dir_va: u32,
    export_dir_size: u32,
) -> (r: Option<ExportIndexData>)
    ensures
        match r {
            Some(d) => export_index_of(raw@, sections@, export_dir_va, export_dir_size) == Some(
                d@,
            ),
            None => export_index_of(raw@, sections@, export_dir_va, export_dir_size) is None,
        },
{
    let (base, nof, non, func_table_off, name_table_off, ord_table_off) = read_export_layout(
        raw,
        sections,
        export_dir_va,
        export_dir_size,
    )?;
    let ghost spec_targets = Seq::new(
        nof as nat,
        |i: int|
            function_slot(raw@, sections@, export_dir_va, export_dir_size, func_table_off as int, i),
    );
    let mut ordinal_targets: Vec<Option<ExportTarget>> = Vec::new();
    let mut i: u32 = 0;
    while i < nof
        invariant
            i <= nof,
            func_table_off + nof * 4 <= raw@.len(),
            spec_targets.len() == nof,
            forall|k: int|
                0 <= k < nof ==> #[trigger] spec_targets[k] == function_slot(
                    raw@,
                    sections@,
                    export_dir_va,
                    export_dir_size,
                    func_table_off as int,
                    k,
                ),
            ordinal_targets@.map_values(|s: Option<ExportTarget>| slot_view(s))
                =~= spec_targets.subrange(0, i as int),
        decreases nof - i,
    {
        let slot = read_function_slot(
            raw,
            sections,
            export_dir_va,
            export_dir_size,
            func_table_off,
            i,
        );
        let ghost prev = ordinal_targets@;
        ordinal_targets.push(slot);
        assert(ordinal_targets@.map_values(|s: Option<ExportTarget>| slot_view(s)) =~= prev.map_values(
            |s: Option<ExportTarget>| slot_view(s),
        ).push(slot_view(slot)));
        i = i + 1;
    }

    let mut named_exports: Vec<NamedExport> = Vec::new();
    let mut j: u32 = 0;
    while j < non
        invariant
            j <= non,
            name_table_off + non * 4 <= raw@.len(),
            ord_table_off + non * 2 <= raw@.len(),
            named_exports@.map_values(|n: NamedExport| (n.name@, n.ordinal_index))
                =~= name_entries(
                raw@,
                sections@,
                name_table_off as int,
                ord_table_off as int,
                nof,
                j as int,
            ),
        decreases non - j,
    {
        let entry = read_name_entry(raw, sections, name_table_off, ord_table_off, nof, j);
        let ghost prev = named_exports@;
        match entry {
            Some(n) => {
                named_exports.push(n);
                assert(named_exports@.map_values(|n: NamedExport| (n.name@, n.ordinal_index))
                    =~= prev.map_values(|n: NamedExport| (n.name@, n.ordinal_index)).push(
                    (n.name@, n.ordinal_index),
                ));
            },
            None => {},
        }
        j = j + 1;
    }

    let r = ExportIndexData {
        export_base: base,
        number_of_functions: nof,
        ordinal_targets,
        named_exports,
    };
    assert(r@.ordinal_targets =~= spec_targets);
    Some(r)
}

} // verus!
