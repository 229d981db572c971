use std::collections::HashMap;

use mwemu_core::binding::{
    is_api_set_contract, DelayLoadDirectory, ImageImportDescriptor, PeLoader, PE32,
};
use mwemu_core::pe_section::ImageSectionHeader;

/// Minimal in-memory loader: records writes and hands out fake, stable
/// addresses for resolved imports.
struct Mock {
    mem: HashMap<u64, u8>,
    next: u64,
    resolved: HashMap<String, u64>,
    resolved_ordinals: HashMap<(String, u16), u64>,
    ordinal_calls: Vec<(String, u16)>,
    name_calls: Vec<String>,
    writes: Vec<u64>,
    loadable: bool,
}

impl Mock {
    fn new() -> Self {
        Mock {
            mem: HashMap::new(),
            next: 0x7000_0000,
            resolved: HashMap::new(),
            resolved_ordinals: HashMap::new(),
            ordinal_calls: Vec::new(),
            name_calls: Vec::new(),
            writes: Vec::new(),
            loadable: true,
        }
    }
}

impl PeLoader for Mock {
    fn is_mapped(&self, _addr: u64) -> bool {
        true
    }
    fn write_bytes(&mut self, addr: u64, data: &[u8]) -> bool {
        for (i, b) in data.iter().enumerate() {
            self.mem.insert(addr + i as u64, *b);
        }
        true
    }
    fn write_dword(&mut self, addr: u64, val: u32) -> bool {
        self.writes.push(addr);
        self.write_bytes(addr, &val.to_le_bytes())
    }
    fn write_qword(&mut self, addr: u64, val: u64) -> bool {
        self.writes.push(addr);
        self.write_bytes(addr, &val.to_le_bytes())
    }
    fn load_library(&mut self, _libname: &str) -> u64 {
        if self.loadable {
            0x1000
        } else {
            0
        }
    }
    fn resolve_api_name(&mut self, name: &str) -> u64 {
        self.resolve_api_name_in_module("?", name)
    }
    fn resolve_api_name_in_module(&mut self, _module: &str, name: &str) -> u64 {
        self.name_calls.push(name.to_string());
        if let Some(a) = self.resolved.get(name) {
            return *a;
        }
        let a = self.next;
        self.next += 0x10;
        self.resolved.insert(name.to_string(), a);
        a
    }
    fn resolve_api_ordinal_in_module(&mut self, module: &str, ordinal: u16) -> u64 {
        let key = (module.to_ascii_lowercase(), ordinal);
        self.ordinal_calls.push(key.clone());
        self.resolved_ordinals.get(&key).copied().unwrap_or(0)
    }
    fn search_api_name(&mut self, name: &str) -> (u64, String, String) {
        (self.resolve_api_name(name), "mock".to_string(), name.to_string())
    }
}

const IMAGE_ORDINAL_FLAG32_PE32: u32 = 0x8000_0000;
const SECTION_RAW_PTR_PE32: u32 = 0x200;
const THUNK7_PE32: u32 = IMAGE_ORDINAL_FLAG32_PE32 | 7;
const THUNK9_PE32: u32 = IMAGE_ORDINAL_FLAG32_PE32 | 9;
const THUNK11_PE32: u32 = IMAGE_ORDINAL_FLAG32_PE32 | 11;

fn idata_section(va: u32, raw_ptr: u32, size: u32) -> ImageSectionHeader {
    ImageSectionHeader {
        name: *b".idata\0\0",
        virtual_size: size,
        virtual_address: va,
        size_of_raw_data: size,
        pointer_to_raw_data: raw_ptr,
        pointer_to_relocations: 0,
        pointer_to_linenumbers: 0,
        number_of_relocations: 0,
        number_of_linenumbers: 0,
        characteristics: 0,
    }
}

fn import_descriptor(oft: u32, name_ptr: u32, first_thunk: u32, name: &str) -> ImageImportDescriptor {
    ImageImportDescriptor {
        original_first_thunk: oft,
        time_date_stamp: 0,
        forwarder_chain: 0,
        name_ptr,
        first_thunk,
        name: name.to_string(),
    }
}

/// A one-section PE32 image whose `.idata` holds one import descriptor of
/// `ordinal.dll` with ordinal thunks 7, 9, 11 and a terminator; with a
/// non-zero `original_first_thunk_rva` the lookup table is separate.
fn build_synthetic_pe32_with_ordinal_iat(original_first_thunk_rva: u32) -> (PE32, Vec<u8>, u32) {
    const SIZE_OF_HEADERS: u32 = 0x200;
    const SECTION_RAW_SIZE: u32 = 0x200;
    const SECTION_VIRTUAL_ADDRESS: u32 = 0x2000;
    const IDATA_RVA: u32 = SECTION_VIRTUAL_ADDRESS;
    const FIRST_THUNK_RVA: u32 = IDATA_RVA + 0x80;
    const DLL_NAME_RVA: u32 = IDATA_RVA + 0xC0;
    const TOTAL_SIZE: usize = (SIZE_OF_HEADERS + SECTION_RAW_SIZE) as usize;

    let mut raw = vec![0u8; TOTAL_SIZE];
    raw[0..2].copy_from_slice(&0x5A4Du16.to_le_bytes());
    raw[60..64].copy_from_slice(&0x80u32.to_le_bytes());
    let idata_base = SECTION_RAW_PTR_PE32 as usize;
    let iid_off = idata_base;
    raw[iid_off..iid_off + 4].copy_from_slice(&original_first_thunk_rva.to_le_bytes());
    raw[iid_off + 12..iid_off + 16].copy_from_slice(&DLL_NAME_RVA.to_le_bytes());
    raw[iid_off + 16..iid_off + 20].copy_from_slice(&FIRST_THUNK_RVA.to_le_bytes());
    let dll_name_off = idata_base + (DLL_NAME_RVA - IDATA_RVA) as usize;
    let dll_name = b"ordinal.dll\0";
    raw[dll_name_off..dll_name_off + dll_name.len()].copy_from_slice(dll_name);
    let iat_off = idata_base + (FIRST_THUNK_RVA - IDATA_RVA) as usize;
    for (i, val) in [THUNK7_PE32, THUNK9_PE32, THUNK11_PE32, 0u32].iter().enumerate() {
        let off = iat_off + i * 4;
        raw[off..off + 4].copy_from_slice(&val.to_le_bytes());
    }
    if original_first_thunk_rva != 0 {
        let oft_off = idata_base + (original_first_thunk_rva - IDATA_RVA) as usize;
        for (i, val) in [THUNK7_PE32, THUNK9_PE32, THUNK11_PE32, 0u32].iter().enumerate() {
            let off = oft_off + i * 4;
            raw[off..off + 4].copy_from_slice(&val.to_le_bytes());
        }
    }

    let pe = PE32 {
        sect_hdr: vec![idata_section(SECTION_VIRTUAL_ADDRESS, SECTION_RAW_PTR_PE32, SECTION_RAW_SIZE)],
        image_import_descriptor: vec![import_descriptor(
            original_first_thunk_rva,
            DLL_NAME_RVA,
            FIRST_THUNK_RVA,
            "ordinal.dll",
        )],
        delay_load_dir: Vec::new(),
        iat_names: HashMap::new(),
    };
    (pe, raw, FIRST_THUNK_RVA)
}

fn read_dword_le_or(mock: &Mock, addr: u64, default: u32) -> u32 {
    let mut buf = [0u8; 4];
    let mut all_missing = true;
    for (i, b) in buf.iter_mut().enumerate() {
        match mock.mem.get(&(addr + i as u64)) {
            Some(v) => {
                *b = *v;
                all_missing = false;
            }
            None => *b = 0,
        }
    }
    if all_missing {
        default
    } else {
        u32::from_le_bytes(buf)
    }
}

#[test]
fn pe32_iat_binding_ordinals_without_original_first_thunk() {
    let (mut pe, raw, first_thunk) = build_synthetic_pe32_with_ordinal_iat(0);
    let mut mock = Mock::new();
    let base = 0x0050_0000u32;
    mock.resolved_ordinals.insert(("ordinal.dll".to_string(), 7), 0x8000_7000);
    mock.resolved_ordinals.insert(("ordinal.dll".to_string(), 11), 0x8000_B000);
    assert_eq!(pe.image_import_descriptor[0].name, "ordinal.dll");

    pe.iat_binding(&raw, &mut mock, base);

    let slot7 = read_dword_le_or(&mock, base as u64 + first_thunk as u64, 0);
    let slot9 = read_dword_le_or(&mock, base as u64 + first_thunk as u64 + 4, THUNK9_PE32);
    let slot11 = read_dword_le_or(&mock, base as u64 + first_thunk as u64 + 8, 0);
    let slot_term = read_dword_le_or(&mock, base as u64 + first_thunk as u64 + 12, 0);
    assert_eq!(slot7, 0x8000_7000, "ordinal 7 not patched");
    assert_eq!(slot9, THUNK9_PE32, "unresolved ordinal 9 must not be patched");
    assert_eq!(slot11, 0x8000_B000, "ordinal 11 not patched");
    assert_eq!(slot_term, 0, "zero terminator should not be patched");

    let iat_base = base as u64 + first_thunk as u64;
    let mut expected_writes: Vec<u64> = vec![iat_base, iat_base + 8];
    expected_writes.sort();
    let mut actual_writes = mock.writes.clone();
    actual_writes.sort();
    assert_eq!(actual_writes, expected_writes, "unexpected writes in PE32 IAT");

    assert_eq!(mock.ordinal_calls.len(), 3);
    assert!(mock.ordinal_calls.contains(&("ordinal.dll".to_string(), 7)));
    assert!(mock.ordinal_calls.contains(&("ordinal.dll".to_string(), 9)));
    assert!(mock.ordinal_calls.contains(&("ordinal.dll".to_string(), 11)));

    assert_eq!(pe.iat_names.get(&0x8000_7000).map(|s| s.as_str()), Some("ordinal.dll!#7"));
    assert_eq!(pe.iat_names.get(&0x8000_B000).map(|s| s.as_str()), Some("ordinal.dll!#11"));
    assert_eq!(pe.iat_names.get(&THUNK9_PE32).map(|s| s.as_str()), Some("ordinal.dll!#9"));
    assert_eq!(pe.import_addr_to_name(0x8000_7000), "#7");
    assert_eq!(pe.import_addr_to_dll_and_name(0x8000_7000), "ordinal.dll!#7");

    let idata_base = SECTION_RAW_PTR_PE32 as usize;
    let iat_off = idata_base + (first_thunk - 0x2000) as usize;
    let stored7 = u32::from_le_bytes(raw[iat_off..iat_off + 4].try_into().unwrap());
    assert_eq!(stored7, THUNK7_PE32, "raw image was mutated by binding");
}

#[test]
fn pe32_iat_binding_ordinals_with_original_first_thunk() {
    let oft_rva: u32 = 0x2100;
    let (mut pe, raw, first_thunk) = build_synthetic_pe32_with_ordinal_iat(oft_rva);
    let mut mock = Mock::new();
    let base = 0x0050_0000u32;
    mock.resolved_ordinals.insert(("ordinal.dll".to_string(), 7), 0x8000_7000);
    mock.resolved_ordinals.insert(("ordinal.dll".to_string(), 11), 0x8000_B000);
    assert_eq!(pe.image_import_descriptor[0].name, "ordinal.dll");

    pe.iat_binding(&raw, &mut mock, base);

    let slot7 = read_dword_le_or(&mock, base as u64 + first_thunk as u64, 0);
    let slot11 = read_dword_le_or(&mock, base as u64 + first_thunk as u64 + 8, 0);
    assert_eq!(slot7, 0x8000_7000, "ordinal 7 not patched in split table");
    assert_eq!(slot11, 0x8000_B000, "ordinal 11 not patched in split table");
    let slot9 = read_dword_le_or(&mock, base as u64 + first_thunk as u64 + 4, THUNK9_PE32);
    assert_eq!(slot9, THUNK9_PE32, "unresolved ordinal 9 must not be patched");

    let iat_base = base as u64 + first_thunk as u64;
    let mut expected_writes: Vec<u64> = vec![iat_base, iat_base + 8];
    expected_writes.sort();
    let mut actual_writes = mock.writes.clone();
    actual_writes.sort();
    assert_eq!(actual_writes, expected_writes, "unexpected writes in PE32 split table");

    assert_eq!(pe.iat_names.get(&0x8000_7000).map(|s| s.as_str()), Some("ordinal.dll!#7"));
    assert_eq!(pe.iat_names.get(&0x8000_B000).map(|s| s.as_str()), Some("ordinal.dll!#11"));
    assert_eq!(pe.iat_names.get(&THUNK9_PE32).map(|s| s.as_str()), Some("ordinal.dll!#9"));

    let idata_base = SECTION_RAW_PTR_PE32 as usize;
    let iat_off = idata_base + (first_thunk - 0x2000) as usize;
    let oft_off = idata_base + (oft_rva - 0x2000) as usize;
    let stored_iat7 = u32::from_le_bytes(raw[iat_off..iat_off + 4].try_into().unwrap());
    let stored_oft9 = u32::from_le_bytes(raw[oft_off + 4..oft_off + 8].try_into().unwrap());
    assert_eq!(stored_iat7, THUNK7_PE32, "raw IAT was mutated by binding");
    assert_eq!(stored_oft9, THUNK9_PE32, "raw OFT was mutated by binding");
}

const SECTION_RAW_PTR_PE32_DELAY: u32 = 0x200;
const SECTION_VIRTUAL_ADDRESS_PE32_DELAY: u32 = 0x2000;
const DELAY_DIR_RVA: u32 = 0x2080;
const DELAY_DLL_NAME_RVA: u32 = 0x20C0;
const DELAY_NAME_TABLE_RVA: u32 = 0x2100;
const DELAY_ADDRESS_TABLE_RVA: u32 = 0x2180;

/// A one-section PE32 image with one delay-load directory for
/// `ordinal.dll`: ordinal thunks 7, 9, 11 and a terminator in the name
/// table; the address table (pre-filled with 0xDEADBEEF) is the delay IAT.
fn build_synthetic_pe32_with_delay_ordinal_iat() -> (PE32, Vec<u8>, u32) {
    const SIZE_OF_HEADERS: u32 = 0x300;
    const SECTION_RAW_SIZE: u32 = 0x300;
    const TOTAL_SIZE: usize = (SIZE_OF_HEADERS + SECTION_RAW_SIZE) as usize;

    let mut raw = vec![0u8; TOTAL_SIZE];
    raw[0..2].copy_from_slice(&0x5A4Du16.to_le_bytes());
    raw[60..64].copy_from_slice(&0x80u32.to_le_bytes());
    let idata_base = SECTION_RAW_PTR_PE32_DELAY as usize;
    let dld_off = idata_base + (DELAY_DIR_RVA - SECTION_VIRTUAL_ADDRESS_PE32_DELAY) as usize;
    raw[dld_off + 4..dld_off + 8].copy_from_slice(&DELAY_DLL_NAME_RVA.to_le_bytes());
    raw[dld_off + 8..dld_off + 12].copy_from_slice(&1u32.to_le_bytes());
    raw[dld_off + 12..dld_off + 16].copy_from_slice(&DELAY_ADDRESS_TABLE_RVA.to_le_bytes());
    raw[dld_off + 16..dld_off + 20].copy_from_slice(&DELAY_NAME_TABLE_RVA.to_le_bytes());
    let dll_name_off =
        idata_base + (DELAY_DLL_NAME_RVA - SECTION_VIRTUAL_ADDRESS_PE32_DELAY) as usize;
    let dll_name = b"ordinal.dll\0";
    raw[dll_name_off..dll_name_off + dll_name.len()].copy_from_slice(dll_name);
    let name_off =
        idata_base + (DELAY_NAME_TABLE_RVA - SECTION_VIRTUAL_ADDRESS_PE32_DELAY) as usize;
    for (i, val) in [THUNK7_PE32, THUNK9_PE32, THUNK11_PE32, 0u32].iter().enumerate() {
        let off = name_off + i * 4;
        raw[off..off + 4].copy_from_slice(&val.to_le_bytes());
    }
    let iat_off =
        idata_base + (DELAY_ADDRESS_TABLE_RVA - SECTION_VIRTUAL_ADDRESS_PE32_DELAY) as usize;
    for i in 0..4 {
        raw[iat_off + i * 4..iat_off + i * 4 + 4].copy_from_slice(&0xDEAD_BEEFu32.to_le_bytes());
    }

    let pe = PE32 {
        sect_hdr: vec![idata_section(
            SECTION_VIRTUAL_ADDRESS_PE32_DELAY,
            SECTION_RAW_PTR_PE32_DELAY,
            SECTION_RAW_SIZE,
        )],
        image_import_descriptor: Vec::new(),
        delay_load_dir: vec![DelayLoadDirectory {
            attributes: 0,
            name_ptr: DELAY_DLL_NAME_RVA,
            handle: 1,
            address_table: DELAY_ADDRESS_TABLE_RVA,
            name_table: DELAY_NAME_TABLE_RVA,
            bound_delay_import_table: 0,
            unload_delay_import_table: 0,
            tstamp: 0,
            name: "ordinal.dll".to_string(),
        }],
        iat_names: HashMap::new(),
    };
    (pe, raw, DELAY_ADDRESS_TABLE_RVA)
}

#[test]
fn pe32_delay_load_binding_uses_address_table_for_unbound_descriptor() {
    let (mut pe, raw, address_table_rva) = build_synthetic_pe32_with_delay_ordinal_iat();
    let mut mock = Mock::new();
    let base = 0x0060_0000u32;
    mock.resolved_ordinals.insert(("ordinal.dll".to_string(), 7), 0x9000_7000);
    mock.resolved_ordinals.insert(("ordinal.dll".to_string(), 11), 0x9000_B000);
    assert_eq!(pe.delay_load_dir.len(), 1, "expected one delay descriptor");
    assert_eq!(pe.delay_load_dir[0].name, "ordinal.dll");
    assert_eq!(pe.delay_load_dir[0].address_table, DELAY_ADDRESS_TABLE_RVA);
    assert_eq!(pe.delay_load_dir[0].name_table, DELAY_NAME_TABLE_RVA);
    assert_eq!(pe.delay_load_dir[0].bound_delay_import_table, 0);

    pe.delay_load_binding(&raw, &mut mock, base);
    let iat_base = base as u64 + address_table_rva as u64;
    let slot7 = read_dword_le_or(&mock, iat_base, 0xDEAD_BEEF);
    let slot9 = read_dword_le_or(&mock, iat_base + 4, 0xDEAD_BEEF);
    let slot11 = read_dword_le_or(&mock, iat_base + 8, 0xDEAD_BEEF);
    let slot_term = read_dword_le_or(&mock, iat_base + 12, 0xDEAD_BEEF);
    assert_eq!(slot7, 0x9000_7000, "delay ordinal 7 not patched");
    assert_eq!(slot9, 0xDEAD_BEEF, "unresolved delay ordinal 9 must not be patched");
    assert_eq!(slot11, 0x9000_B000, "delay ordinal 11 not patched");
    assert_eq!(slot_term, 0xDEAD_BEEF, "delay terminator must not be patched");

    let mut expected_writes: Vec<u64> = vec![iat_base, iat_base + 8];
    expected_writes.sort();
    let mut actual_writes = mock.writes.clone();
    actual_writes.sort();
    assert_eq!(actual_writes, expected_writes, "unexpected delay writes");
    assert_eq!(mock.ordinal_calls.len(), 3);
    assert!(mock.ordinal_calls.contains(&("ordinal.dll".to_string(), 7)));
    assert!(mock.ordinal_calls.contains(&("ordinal.dll".to_string(), 9)));
    assert!(mock.ordinal_calls.contains(&("ordinal.dll".to_string(), 11)));

    assert_eq!(pe.iat_names.get(&0x9000_7000).map(|s| s.as_str()), Some("ordinal.dll!#7"));
    assert_eq!(pe.iat_names.get(&0x9000_B000).map(|s| s.as_str()), Some("ordinal.dll!#11"));
    assert_eq!(pe.iat_names.get(&THUNK9_PE32).map(|s| s.as_str()), Some("ordinal.dll!#9"));

    let idata_base = SECTION_RAW_PTR_PE32_DELAY as usize;
    let name_off =
        idata_base + (DELAY_NAME_TABLE_RVA - SECTION_VIRTUAL_ADDRESS_PE32_DELAY) as usize;
    let stored7 = u32::from_le_bytes(raw[name_off..name_off + 4].try_into().unwrap());
    assert_eq!(stored7, THUNK7_PE32, "raw name table was mutated by delay binding");
}

// ---------------------------------------------------------------------

/// An image importing `HeapAlloc`, `heapalloc` (by name) and ordinal 3 from
/// `dll`, through a lookup table at 0x2100 and an IAT at 0x2080.
fn build_named_import_image(dll: &str) -> (PE32, Vec<u8>) {
    let mut raw = vec![0u8; 0x400];
    let idata = 0x200usize;
    // Hint/name entries: 2-byte hint then the name.
    let hn1 = 0x2140u32;
    let hn2 = 0x2160u32;
    raw[idata + 0x142..idata + 0x142 + 10].copy_from_slice(b"HeapAlloc\0");
    raw[idata + 0x162..idata + 0x162 + 10].copy_from_slice(b"heapalloc\0");
    for (i, val) in [hn1, hn2, IMAGE_ORDINAL_FLAG32_PE32 | 3, 0u32].iter().enumerate() {
        let off = idata + 0x100 + i * 4;
        raw[off..off + 4].copy_from_slice(&val.to_le_bytes());
        let off = idata + 0x80 + i * 4;
        raw[off..off + 4].copy_from_slice(&val.to_le_bytes());
    }
    let pe = PE32 {
        sect_hdr: vec![idata_section(0x2000, 0x200, 0x200)],
        image_import_descriptor: vec![import_descriptor(0x2100, 0x20c0, 0x2080, dll)],
        delay_load_dir: Vec::new(),
        iat_names: HashMap::new(),
    };
    (pe, raw)
}

#[test]
fn named_imports_are_bound_and_cached_case_insensitively() {
    let (mut pe, raw) = build_named_import_image("KERNEL32.dll");
    let mut mock = Mock::new();
    pe.iat_binding(&raw, &mut mock, 0x40_0000);
    // `HeapAlloc` and `heapalloc` share one cache key: one resolution.
    assert_eq!(mock.name_calls, vec!["HeapAlloc".to_string()]);
    let addr = 0x7000_0000u32;
    assert_eq!(pe.import_addr_to_name(addr), "heapalloc");
    assert_eq!(pe.import_addr_to_dll_and_name(addr), "KERNEL32.dll!heapalloc");
    // Both named slots were patched with the one address.
    assert_eq!(read_dword_le_or(&mock, 0x40_2080, 0), addr);
    assert_eq!(read_dword_le_or(&mock, 0x40_2084, 0), addr);
    // The unresolved ordinal keeps its on-disk thunk as its name key.
    assert_eq!(
        pe.import_addr_to_dll_and_name(IMAGE_ORDINAL_FLAG32_PE32 | 3),
        "KERNEL32.dll!#3"
    );
}

#[test]
fn import_name_round_trips_through_the_table() {
    let (mut pe, raw) = build_named_import_image("kernel32.dll");
    let mut mock = Mock::new();
    pe.iat_binding(&raw, &mut mock, 0x40_0000);
    for (&addr, full) in pe.iat_names.iter() {
        let name = full.split_once('!').unwrap().1.to_string();
        assert_eq!(pe.import_addr_to_name(addr), name);
        assert_eq!(pe.import_addr_to_dll_and_name(addr), *full);
    }
    assert_eq!(pe.import_addr_to_name(0xdead_beef), "");
    assert_eq!(pe.import_addr_to_dll_and_name(0xdead_beef), "");
}

#[test]
fn unloadable_library_is_skipped_unless_api_set() {
    let (mut pe, raw) = build_named_import_image("missing.dll");
    let mut mock = Mock::new();
    mock.loadable = false;
    pe.iat_binding(&raw, &mut mock, 0x40_0000);
    assert!(pe.iat_names.is_empty());
    assert!(mock.writes.is_empty());

    let (mut pe, raw) = build_named_import_image("api-ms-win-core-heap-l1-1-0.dll");
    let mut mock = Mock::new();
    mock.loadable = false;
    pe.iat_binding(&raw, &mut mock, 0x40_0000);
    assert_eq!(pe.iat_names.len(), 2);
}

#[test]
fn unmapped_thunk_table_is_skipped() {
    let (mut pe, raw) = build_named_import_image("kernel32.dll");
    pe.image_import_descriptor[0].original_first_thunk = 0x9000;
    let mut mock = Mock::new();
    pe.iat_binding(&raw, &mut mock, 0x40_0000);
    assert!(pe.iat_names.is_empty());
}

#[test]
fn api_set_contract_names() {
    assert!(is_api_set_contract("api-ms-win-core-heap-l1-1-0.dll"));
    assert!(is_api_set_contract("  API-MS-WIN-crt-runtime-l1-1-0.dll "));
    assert!(is_api_set_contract("ext-ms-win-ntuser-l1-1-0"));
    assert!(!is_api_set_contract("kernel32.dll"));
    assert!(!is_api_set_contract("api-ms-wi"));
}

#[test]
fn vaddr_to_off_is_zero_outside_sections() {
    let sects = vec![idata_section(0x2000, 0x200, 0x200)];
    assert_eq!(PE32::vaddr_to_off(&sects, 0x2010), 0x210);
    assert_eq!(PE32::vaddr_to_off(&sects, 0x1000), 0);
    assert_eq!(PE32::vaddr_to_off(&sects, 0x2200), 0);
    let raw = b"\0\0abc\0def".to_vec();
    assert_eq!(PE32::read_string(&raw, 2), "abc");
    assert_eq!(PE32::read_string(&raw, 7), "ef");
    assert_eq!(PE32::read_string(&raw, 20), "");
}
