//! PE section headers and the RVA-to-file-offset translation they define.

use vstd::prelude::*;

verus! {

/// One `IMAGE_SECTION_HEADER`.
#[derive(Clone, Copy, Debug)]
pub struct ImageSectionHeader {
    pub name: [u8; 8],
    pub virtual_size: u32,
    pub virtual_address: u32,
    pub size_of_raw_data: u32,
    pub pointer_to_raw_data: u32,
    pub pointer_to_relocations: u32,
    pub pointer_to_linenumbers: u32,
    pub number_of_relocations: u16,
    pub number_of_linenumbers: u16,
    pub characteristics: u32,
}

/// `a + b`, clamped at `u32::MAX`.
pub open spec fn sat_add_u32(a: u32, b: u32) -> u32 {
    if a + b > u32::MAX {
        u32::MAX
    } else {
        (a + b) as u32
    }
}

/// True when `vaddr` lies in the virtual range of `s` (its end saturating).
pub open spec fn section_covers(s: ImageSectionHeader, vaddr: u32) -> bool {
    s.virtual_address <= vaddr && vaddr < sat_add_u32(s.virtual_address, s.virtual_size)
}

/// The file offset of `vaddr`: the first section whose virtual range holds
/// it decides; `None` when no section holds it or it falls past that
/// section's raw data (uninitialised tail), or when the offset does not
/// fit the address width.
pub open spec fn rva_to_offset(sections: Seq<ImageSectionHeader>, vaddr: u32) -> Option<int>
    decreases sections.len(),
{
    if sections.len() == 0 {
        None
    } else if section_covers(sections[0], vaddr) {
        let within = vaddr - sections[0].virtual_address;
        if within >= sections[0].size_of_raw_data || sections[0].pointer_to_raw_data + within
            > usize::MAX {
            None
        } else {
            Some(sections[0].pointer_to_raw_data + within)
        }
    } else {
        rva_to_offset(sections.drop_first(), vaddr)
    }
}

/// Convert a section RVA to a raw file offset (see [`rva_to_offset`]).
pub fn vaddr_to_off(sections: &[ImageSectionHeader], vaddr: u32) -> (r: Option<usize>)
    ensures
        match rva_to_offset(sections@, vaddr) {
            Some(o) => 0 <= o <= usize::MAX && r == Some(o as usize),
            None => r is None,
        },
{
    let mut i: usize = 0;
    assert(sections@.subrange(0, sections@.len() as int) =~= sections@);
    while i < sections.len()
        invariant
            i <= sections@.len(),
            rva_to_offset(sections@, vaddr) == rva_to_offset(sections@.subrange(i as int, sections@.len() as int), vaddr),
        decreases sections@.len() - i,
    {
        let ghost rest = sections@.subrange(i as int, sections@.len() as int);
        assert(rest[0] == sections@[i as int]);
        let sect = &sections[i];
        let sec_end = sect.virtual_address.saturating_add(sect.virtual_size);
        if vaddr >= sect.virtual_address && vaddr < sec_end {
            let offset_within_section = vaddr - sect.virtual_address;
            if offset_within_section >= sect.size_of_raw_data {
                return None;
            }
            return (sect.pointer_to_raw_data as usize).checked_add(offset_within_section as usize);
        }
        assert(rest.drop_first() =~= sections@.subrange(i + 1, sections@.len() as int));
        i = i + 1;
    }
    None
}

} // verus!
