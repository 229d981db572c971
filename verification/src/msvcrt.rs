//! Which loader-produced sections hold the native x64 `msvcrt.dll` code
//! that is executed directly rather than emulated.

use vstd::prelude::*;
use crate::text::{chars_eq, chars_of};

verus! {

/// `msvcrt.text`: the CRT's code section as the PE loader names its map.
pub open spec fn msvcrt_text() -> Seq<char> {
    seq!['m', 's', 'v', 'c', 'r', 't', '.', 't', 'e', 'x', 't']
}

/// `msvcrtfothk`: the CRT's forwarder-thunk section.
pub open spec fn msvcrt_fothk() -> Seq<char> {
    seq!['m', 's', 'v', 'c', 'r', 't', 'f', 'o', 't', 'h', 'k']
}

/// True exactly for the section names that carry the loader-mapped x64
/// `msvcrt.dll` executable bytes. The comparison is exact on purpose:
/// `msvcrt.rdata` / `msvcrt.data` are data and are never executed.
pub fn is_native_section(section_name: &str) -> (r: bool)
    ensures
        r == (section_name@ == msvcrt_text() || section_name@ == msvcrt_fothk()),
{
    let name = chars_of(section_name);
    let text = vec!['m', 's', 'v', 'c', 'r', 't', '.', 't', 'e', 'x', 't'];
    let fothk = vec!['m', 's', 'v', 'c', 'r', 't', 'f', 'o', 't', 'h', 'k'];
    assert(text@ =~= msvcrt_text());
    assert(fothk@ =~= msvcrt_fothk());
    chars_eq(name.as_slice(), text.as_slice()) || chars_eq(name.as_slice(), fothk.as_slice())
}

} // verus!
