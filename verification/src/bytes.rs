//! Little-endian and NUL-terminated readers over raw image bytes. Every
//! reader is total: a read that would leave the buffer yields 0 / empty.

use vstd::prelude::*;
use vstd::utf8::{decode_utf8, valid_utf8};

verus! {

/// Little-endian `u16` at `off`, or 0 when the two bytes are not all in `raw`.
pub open spec fn le_u16(raw: Seq<u8>, off: int) -> u16 {
    if 0 <= off && off + 2 <= raw.len() {
        (raw[off] as int + raw[off + 1] as int * 0x100) as u16
    } else {
        0
    }
}

/// Little-endian `u32` at `off`, or 0 when the four bytes are not all in `raw`.
pub open spec fn le_u32(raw: Seq<u8>, off: int) -> u32 {
    if 0 <= off && off + 4 <= raw.len() {
        (raw[off] as int + raw[off + 1] as int * 0x100 + raw[off + 2] as int * 0x1_0000
            + raw[off + 3] as int * 0x100_0000) as u32
    } else {
        0
    }
}

/// Little-endian `u64` at `off`, or 0 when the eight bytes are not all in `raw`.
pub open spec fn le_u64(raw: Seq<u8>, off: int) -> u64 {
    if 0 <= off && off + 8 <= raw.len() {
        (le_u32(raw, off) as int + le_u32(raw, off + 4) as int * 0x1_0000_0000) as u64
    } else {
        0
    }
}

pub fn read_u16_le(raw: &[u8], off: usize) -> (r: u16)
    ensures
        r == le_u16(raw@, off as int),
{
    if off <= raw.len() && raw.len() - off >= 2 {
        let v: u16 = raw[off] as u16 + raw[off + 1] as u16 * 0x100;
        v
    } else {
        0
    }
}

pub fn read_u32_le(raw: &[u8], off: usize) -> (r: u32)
    ensures
        r == le_u32(raw@, off as int),
{
    if off <= raw.len() && raw.len() - off >= 4 {
        let v: u32 = raw[off] as u32 + raw[off + 1] as u32 * 0x100 + raw[off + 2] as u32
            * 0x1_0000 + raw[off + 3] as u32 * 0x100_0000;
        v
    } else {
        0
    }
}

pub fn read_u64_le(raw: &[u8], off: usize) -> (r: u64)
    ensures
        r == le_u64(raw@, off as int),
{
    if off <= raw.len() && raw.len() - off >= 8 {
        let lo = read_u32_le(raw, off);
        let hi = read_u32_le(raw, off + 4);
        let v: u64 = lo as u64 + hi as u64 * 0x1_0000_0000;
        v
    } else {
        0
    }
}

/// Index of the first NUL at or after `off`, or `raw.len()` when there is none.
pub open spec fn nul_index(raw: Seq<u8>, off: int) -> int
    decreases raw.len() - off,
{
    if off < 0 || off >= raw.len() {
        raw.len() as int
    } else if raw[off] == 0 {
        off
    } else {
        nul_index(raw, off + 1)
    }
}

pub proof fn lemma_nul_index_bounds(raw: Seq<u8>, off: int)
    requires
        0 <= off <= raw.len(),
    ensures
        off <= nul_index(raw, off) <= raw.len(),
    decreases raw.len() - off,
{
    if off < raw.len() && raw[off] != 0 {
        lemma_nul_index_bounds(raw, off + 1);
    }
}

/// The bytes of the NUL-terminated string starting at `off` (without the NUL).
pub open spec fn c_string_bytes(raw: Seq<u8>, off: int) -> Seq<u8> {
    if 0 <= off <= raw.len() {
        raw.subrange(off, nul_index(raw, off))
    } else {
        Seq::empty()
    }
}

/// What `String::from_utf8_lossy` makes of `bytes`.
pub uninterp spec fn utf8_lossy(bytes: Seq<u8>) -> Seq<char>;

/// `String::from_utf8_lossy`: decodes `bytes`, replacing each invalid
/// sequence by U+FFFD. Its documentation promises that valid UTF-8 comes
/// back unchanged; nothing is claimed of invalid input beyond the name.
#[verifier::external_body]
fn utf8_lossy_string(bytes: &[u8]) -> (s: String)
    ensures
        s@ == utf8_lossy(bytes@),
        valid_utf8(bytes@) ==> s@ == decode_utf8(bytes@),
{
    String::from_utf8_lossy(bytes).into_owned()
}

/// The NUL-terminated string at `off`, decoded as (lossy) UTF-8.
pub open spec fn c_string_at(raw: Seq<u8>, off: int) -> Seq<char> {
    utf8_lossy(c_string_bytes(raw, off))
}

/// Read the NUL-terminated string at `off` (empty when `off` is past the end).
pub fn read_c_string(raw: &[u8], off: usize) -> (s: String)
    ensures
        s@ == c_string_at(raw@, off as int),
        valid_utf8(c_string_bytes(raw@, off as int)) ==> s@ == decode_utf8(
            c_string_bytes(raw@, off as int),
        ),
{
    let mut bytes: Vec<u8> = Vec::new();
    if off <= raw.len() {
        let mut i = off;
        while i < raw.len() && raw[i] != 0
            invariant
                off <= i <= raw@.len(),
                nul_index(raw@, off as int) == nul_index(raw@, i as int),
                bytes@ == raw@.subrange(off as int, i as int),
            decreases raw@.len() - i,
        {
            bytes.push(raw[i]);
            i = i + 1;
        }
        assert(bytes@ =~= c_string_bytes(raw@, off as int));
    } else {
        assert(bytes@ =~= c_string_bytes(raw@, off as int));
    }
    utf8_lossy_string(bytes.as_slice())
}

} // verus!
