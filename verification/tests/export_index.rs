use mwemu_core::export_index::{build_export_index, ExportTarget, MAX_EXPORT_FUNCTIONS};
use mwemu_core::pe_section::{vaddr_to_off, ImageSectionHeader};

fn section(va: u32, raw_ptr: u32, raw_size: u32) -> ImageSectionHeader {
    let mut s = ImageSectionHeader {
        name: [0; 8],
        virtual_size: raw_size,
        virtual_address: va,
        size_of_raw_data: raw_size,
        pointer_to_raw_data: raw_ptr,
        pointer_to_relocations: 0,
        pointer_to_linenumbers: 0,
        number_of_relocations: 0,
        number_of_linenumbers: 0,
        characteristics: 0,
    };
    let n = b".text\0\0\0";
    s.name[..n.len()].copy_from_slice(n);
    s
}

fn build_export_raw(
    base: u32,
    func_rva: u32,
    forwarder: bool,
) -> (Vec<u8>, Vec<ImageSectionHeader>, u32, u32) {
    let mut raw = vec![0u8; 0x200];
    let export_off = 0x040;
    let func_off = 0x080;
    let name_off_table = 0x090;
    let ord_off = 0x0a0;
    let fwd_str_off = 0x0b0;
    let name_a_off = 0x0d0;

    let export_va: u32 = 0x1040;
    let func_va: u32 = 0x1080;
    let name_table_va: u32 = 0x1090;
    let ord_table_va: u32 = 0x10a0;
    let name_a_va: u32 = 0x10d0;

    raw[export_off + 16..export_off + 20].copy_from_slice(&base.to_le_bytes());
    raw[export_off + 20..export_off + 24].copy_from_slice(&1u32.to_le_bytes());
    raw[export_off + 24..export_off + 28].copy_from_slice(&1u32.to_le_bytes());
    raw[export_off + 28..export_off + 32].copy_from_slice(&func_va.to_le_bytes());
    raw[export_off + 32..export_off + 36].copy_from_slice(&name_table_va.to_le_bytes());
    raw[export_off + 36..export_off + 40].copy_from_slice(&ord_table_va.to_le_bytes());

    raw[func_off..func_off + 4].copy_from_slice(&func_rva.to_le_bytes());
    raw[name_off_table..name_off_table + 4].copy_from_slice(&name_a_va.to_le_bytes());
    raw[ord_off..ord_off + 2].copy_from_slice(&0u16.to_le_bytes());

    if forwarder {
        let s = b"KERNELBASE.HeapAlloc\0";
        raw[fwd_str_off..fwd_str_off + s.len()].copy_from_slice(s);
    }

    let s = b"A\0";
    raw[name_a_off..name_a_off + s.len()].copy_from_slice(s);

    let sections = vec![section(0x1000, 0, raw.len() as u32)];
    (raw, sections, export_va, 0x100)
}

#[test]
fn absent_export_directory_returns_none() {
    let raw = vec![0u8; 0x200];
    let sections = vec![section(0x1000, 0, raw.len() as u32)];
    assert!(build_export_index(&raw, &sections, 0, 0).is_none());
    assert!(build_export_index(&raw, &sections, 0x1040, 10).is_none());
}

#[test]
fn direct_export_parses() {
    let (raw, sections, export_va, export_size) = build_export_raw(1, 0x1500, false);
    let idx = build_export_index(&raw, &sections, export_va, export_size).unwrap();
    assert_eq!(idx.export_base, 1);
    assert_eq!(idx.number_of_functions, 1);
    assert_eq!(idx.ordinal_targets.len(), 1);
    match &idx.ordinal_targets[0] {
        Some(ExportTarget::Direct { rva }) => assert_eq!(*rva, 0x1500),
        other => panic!("expected direct, got {:?}", other),
    }
    assert_eq!(idx.named_exports.len(), 1);
    assert_eq!(idx.named_exports[0].name, "A");
    assert_eq!(idx.named_exports[0].ordinal_index, 0);
}

#[test]
fn forwarder_rva_in_range_is_parsed_as_forwarder() {
    let (raw, sections, export_va, export_size) = build_export_raw(1, 0x10b0, true);
    let idx = build_export_index(&raw, &sections, export_va, export_size).unwrap();
    match &idx.ordinal_targets[0] {
        Some(ExportTarget::Forwarder { value }) => {
            assert_eq!(value, "KERNELBASE.HeapAlloc");
        }
        other => panic!("expected forwarder, got {:?}", other),
    }
}

#[test]
fn zero_function_rva_yields_none_slot() {
    let (mut raw, sections, export_va, export_size) = build_export_raw(1, 0x1500, false);
    raw[0x080..0x084].copy_from_slice(&0u32.to_le_bytes());
    let idx = build_export_index(&raw, &sections, export_va, export_size).unwrap();
    assert!(idx.ordinal_targets[0].is_none());
}

#[test]
fn malformed_counts_do_not_panic() {
    let (mut raw, sections, export_va, export_size) = build_export_raw(1, 0x1500, false);
    raw[0x040 + 20..0x040 + 24].copy_from_slice(&1_000_000u32.to_le_bytes());
    let idx = build_export_index(&raw, &sections, export_va, export_size);
    if let Some(idx) = idx {
        assert!(idx.number_of_functions <= MAX_EXPORT_FUNCTIONS);
    }
    raw[0x040 + 24..0x040 + 28].copy_from_slice(&u32::MAX.to_le_bytes());
    let _ = build_export_index(&raw, &sections, export_va, export_size);
}

#[test]
fn non_zero_ordinal_base_indexes_correctly() {
    let (raw, sections, export_va, export_size) = build_export_raw(5, 0x1500, false);
    let idx = build_export_index(&raw, &sections, export_va, export_size).unwrap();
    assert_eq!(idx.export_base, 5);
}

// ---------------------------------------------------------------------

#[test]
fn rva_translation_uses_section_raw_pointer() {
    let sections = vec![section(0x1000, 0x400, 0x200)];
    assert_eq!(vaddr_to_off(&sections, 0x1010), Some(0x410));
    // Past the section's raw data.
    assert_eq!(vaddr_to_off(&sections, 0x1200), None);
    // Below every section.
    assert_eq!(vaddr_to_off(&sections, 0x0fff), None);
}

#[test]
fn export_data_is_empty_without_slots() {
    let raw = vec![0u8; 0x200];
    let (mut full, sections, export_va, export_size) = build_export_raw(1, 0x1500, false);
    let idx = build_export_index(&full, &sections, export_va, export_size).unwrap();
    assert!(!idx.is_empty());
    // A directory claiming no functions and no names parses to an empty index.
    full[0x040 + 20..0x040 + 28].copy_from_slice(&[0u8; 8]);
    let idx = build_export_index(&full, &sections, export_va, export_size).unwrap();
    assert!(idx.is_empty());
    let _ = raw;
}
