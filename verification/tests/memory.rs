use mwemu_core::emu::{Maps, Regs64};

fn maps() -> Maps {
    let mut m = Maps::new();
    assert!(m.create_map("data", 0x1000, 0x100));
    assert!(m.create_map("more", 0x2000, 0x10));
    m
}

#[test]
fn fresh_regions_read_as_zero() {
    let m = maps();
    assert_eq!(m.read_bytes(0x1000, 4).unwrap(), vec![0u8; 4]);
    assert_eq!(m.read_qword(0x10f8), Some(0));
    assert_eq!(m.read_dword(0x3000), None);
}

#[test]
fn qword_written_reads_back_little_endian() {
    let mut m = maps();
    assert!(m.write_qword(0x1008, 0x1122_3344_5566_7788));
    assert_eq!(m.read_qword(0x1008), Some(0x1122_3344_5566_7788));
    assert_eq!(m.read_bytes(0x1008, 2).unwrap(), vec![0x88, 0x77]);
    assert_eq!(m.read_dword(0x100c), Some(0x1122_3344));
    assert!(m.write_dword(0x1000, 0xdead_beef));
    assert_eq!(m.read_bytes(0x1000, 4).unwrap(), vec![0xef, 0xbe, 0xad, 0xde]);
}

#[test]
fn an_access_past_the_region_end_fails_and_changes_nothing() {
    let mut m = maps();
    // The last four bytes of `data` can be written, but not five.
    assert!(m.write_bytes(0x10fc, &[1, 2, 3, 4]));
    assert!(!m.write_bytes(0x10fc, &[9, 9, 9, 9, 9]));
    assert_eq!(m.read_bytes(0x10fc, 4).unwrap(), vec![1, 2, 3, 4]);
    assert_eq!(m.read_bytes(0x10fc, 5), None);
    assert_eq!(m.read_qword(0x10fc), None);
    assert!(!m.write_qword(0x20f0, 1));
}

#[test]
fn strings_are_written_with_their_terminator() {
    let mut m = maps();
    assert!(m.write_string(0x1010, "héllo"));
    assert_eq!(m.read_bytes(0x1010, 7).unwrap(), "héllo\0".as_bytes().to_vec());
    assert!(m.write_wide_string(0x1040, "a€𝄞"));
    let expect: Vec<u8> = "a€𝄞\0".encode_utf16().flat_map(|u| u.to_le_bytes()).collect();
    assert_eq!(expect.len(), 10);
    assert_eq!(m.read_bytes(0x1040, 10).unwrap(), expect);
    // Too long for the small region.
    assert!(!m.write_string(0x2000, "0123456789abcdef"));
}

#[test]
fn memcpy_and_memset() {
    let mut m = maps();
    assert!(m.write_bytes(0x1000, b"copy me"));
    assert!(m.memcpy(0x2000, 0x1000, 7));
    assert_eq!(m.read_bytes(0x2000, 7).unwrap(), b"copy me".to_vec());
    // The source must lie in one region.
    assert!(!m.memcpy(0x1000, 0x20f0, 0x20));
    assert!(m.memset(0x2000, 0xaa, 3));
    assert_eq!(m.read_bytes(0x2000, 4).unwrap(), vec![0xaa, 0xaa, 0xaa, b'y']);
    assert!(!m.memset(0x2008, 0, 0x10));
}

#[test]
fn esp_is_the_low_half_of_rsp() {
    let mut r = Regs64::new();
    r.rsp = 0x1234_5678_9abc_def0;
    assert_eq!(r.get_esp(), 0x9abc_def0);
    r.set_esp(0x1_0000_0010);
    assert_eq!(r.rsp, 0x1234_5678_0000_0010);
}

#[test]
fn overlapping_or_empty_maps_are_refused() {
    let mut m = maps();
    assert!(!m.create_map("x", 0x10f0, 0x20));
    assert!(!m.create_map("y", 0x3000, 0));
    assert!(!m.create_map("z", u64::MAX - 4, 0x10));
    assert_eq!(m.regions.len(), 2);
    assert_eq!(m.regions[1].mem.len(), 0x10);
}
