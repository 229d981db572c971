//! Reading and writing guest memory. An access lies in the region that
//! holds its first byte: one that would run past that region's end fails
//! and changes nothing.

use vstd::prelude::*;
use vstd::utf8::encode_utf8;
use crate::bytes::{c_string_at, le_u32, le_u64, read_c_string};
use crate::emu::{region_holds, region_index, region_wf, Maps, Mem64};
use crate::text::chars_of;

verus! {

/// The string at `addr`: the bytes from there up to the first NUL or the
/// end of the region holding `addr`, decoded as UTF-8 (invalid sequences
/// replaced); empty when no region holds `addr`.
pub open spec fn string_at(rs: Seq<Mem64>, addr: u64) -> Seq<char> {
    match region_index(rs, addr, 0) {
        Some(i) => c_string_at(rs[i].mem@, addr - rs[i].base),
        None => Seq::empty(),
    }
}

/// The index of the region that holds all `n` bytes from `addr`: the
/// first region holding `addr`, when the bytes do not run past its end.
pub open spec fn span(rs: Seq<Mem64>, addr: u64, n: int) -> Option<int> {
    match region_index(rs, addr, 0) {
        Some(i) => if addr - rs[i].base + n <= rs[i].size {
            Some(i)
        } else {
            None
        },
        None => None,
    }
}

/// The `n` bytes at `addr`, when they lie in one region.
pub open spec fn bytes_at(rs: Seq<Mem64>, addr: u64, n: int) -> Option<Seq<u8>> {
    match span(rs, addr, n) {
        Some(i) => Some(rs[i].mem@.subrange(addr - rs[i].base, addr - rs[i].base + n)),
        None => None,
    }
}

/// `m` with `d` written over it from `off` on.
pub open spec fn splice(m: Seq<u8>, off: int, d: Seq<u8>) -> Seq<u8> {
    m.subrange(0, off) + d + m.subrange(off + d.len(), m.len() as int)
}

/// `n` is `o` with `data` written at `addr`: into the region that holds
/// it when it fits there; else nothing changes.
pub open spec fn wrote(o: Seq<Mem64>, n: Seq<Mem64>, addr: u64, data: Seq<u8>) -> bool {
    match span(o, addr, data.len() as int) {
        Some(i) => {
            &&& n.len() == o.len()
            &&& forall|j: int| 0 <= j < o.len() && j != i ==> #[trigger] n[j] == o[j]
            &&& n[i].name == o[i].name
            &&& n[i].base == o[i].base
            &&& n[i].size == o[i].size
            &&& n[i].mem@ == splice(o[i].mem@, addr - o[i].base, data)
        },
        None => n == o,
    }
}

/// `steps` are the memory states of writing each of `vals`, as `width`
/// little-endian bytes, at `base + i * width`, in order.
pub open spec fn write_chain(steps: Seq<Seq<Mem64>>, base: u64, vals: Seq<u64>, width: nat) -> bool {
    &&& steps.len() == vals.len() + 1
    &&& forall|i: int|
        0 <= i < vals.len() ==> #[trigger] wrote(
            steps[i],
            steps[i + 1],
            (base + i * width) as u64,
            le_bytes(vals[i] as nat, width),
        )
}

/// `n` is `o` after writing each of `vals`, as `width` little-endian
/// bytes, at `base + i * width`, in order.
pub open spec fn values_written(o: Seq<Mem64>, n: Seq<Mem64>, base: u64, vals: Seq<u64>, width: nat) -> bool {
    exists|steps: Seq<Seq<Mem64>>|
        #[trigger] write_chain(steps, base, vals, width) && steps[0] == o && steps.last() == n
}

/// A chain of writes extended by one more.
pub proof fn lemma_write_chain_push(
    steps: Seq<Seq<Mem64>>,
    n: Seq<Mem64>,
    base: u64,
    vals: Seq<u64>,
    width: nat,
    v: u64,
)
    requires
        write_chain(steps, base, vals, width),
        wrote(steps.last(), n, (base + vals.len() * width) as u64, le_bytes(v as nat, width)),
    ensures
        write_chain(steps.push(n), base, vals.push(v), width),
        steps.push(n)[0] == steps[0],
{
    let s2 = steps.push(n);
    let v2 = vals.push(v);
    assert forall|i: int| 0 <= i < v2.len() implies #[trigger] wrote(
        s2[i],
        s2[i + 1],
        (base + i * width) as u64,
        le_bytes(v2[i] as nat, width),
    ) by {
        if i < vals.len() {
            assert(s2[i] == steps[i] && s2[i + 1] == steps[i + 1] && v2[i] == vals[i]);
            assert(wrote(steps[i], steps[i + 1], (base + i * width) as u64, le_bytes(vals[i] as nat, width)));
        } else {
            assert(s2[i] == steps.last() && s2[i + 1] == n && v2[i] == v);
        }
    }
}

/// The `n` low bytes of `v`, least significant first.
pub open spec fn le_bytes(v: nat, n: nat) -> Seq<u8>
    decreases n,
{
    if n == 0 {
        Seq::empty()
    } else {
        seq![(v % 256) as u8] + le_bytes(v / 256, (n - 1) as nat)
    }
}

/// The UTF-16 code units of `c`.
pub open spec fn utf16_units(c: char) -> Seq<u16> {
    let v = c as int;
    if v < 0x10000 {
        seq![v as u16]
    } else {
        seq![(0xD800 + (v - 0x10000) / 0x400) as u16, (0xDC00 + (v - 0x10000) % 0x400) as u16]
    }
}

/// Code units as little-endian bytes.
pub open spec fn units_le(us: Seq<u16>) -> Seq<u8>
    decreases us.len(),
{
    if us.len() == 0 {
        Seq::empty()
    } else {
        units_le(us.drop_last()) + le_bytes(us.last() as nat, 2)
    }
}

/// `s` in UTF-16, little-endian, without a terminator.
pub open spec fn utf16le(s: Seq<char>) -> Seq<u8>
    decreases s.len(),
{
    if s.len() == 0 {
        Seq::empty()
    } else {
        utf16le(s.drop_last()) + units_le(utf16_units(s.last()))
    }
}

proof fn lemma_region_index(rs: Seq<Mem64>, addr: u64, start: int)
    ensures
        match region_index(rs, addr, start) {
            Some(i) => start <= i < rs.len() && 0 <= i && region_holds(rs[i], addr),
            None => true,
        },
    decreases rs.len() - start,
{
    if 0 <= start < rs.len() && !region_holds(rs[start], addr) {
        lemma_region_index(rs, addr, start + 1);
    }
}

/// `v` shifted down by `k` bytes.
pub open spec fn shr8(v: nat, k: nat) -> nat
    decreases k,
{
    if k == 0 {
        v
    } else {
        shr8(v / 256, (k - 1) as nat)
    }
}

proof fn lemma_shr8_step(v: nat, k: nat)
    ensures
        shr8(v, k + 1) == shr8(v, k) / 256,
    decreases k,
{
    assert(shr8(v, k + 1) == shr8(v / 256, k));
    if k > 0 {
        lemma_shr8_step(v / 256, (k - 1) as nat);
        assert(shr8(v, k) == shr8(v / 256, (k - 1) as nat));
    } else {
        assert(shr8(v / 256, 0) == v / 256);
    }
}

/// `n` low bytes are `n` bytes.
pub proof fn lemma_le_bytes_len(v: nat, n: nat)
    ensures
        le_bytes(v, n).len() == n,
    decreases n,
{
    if n > 0 {
        lemma_le_bytes_len(v / 256, (n - 1) as nat);
    }
}

/// The first `k + m` bytes of `v` are its first `k` bytes followed by the
/// first `m` bytes of what is left.
proof fn lemma_le_bytes_concat(v: nat, k: nat, m: nat)
    ensures
        le_bytes(v, k + m) == le_bytes(v, k) + le_bytes(shr8(v, k), m),
    decreases k,
{
    if k == 0 {
        assert(le_bytes(v, 0) + le_bytes(v, m) =~= le_bytes(v, m));
    } else {
        lemma_le_bytes_concat(v / 256, (k - 1) as nat, m);
        assert(((k - 1) as nat + m) as nat == (k + m - 1) as nat);
        assert(le_bytes(v, k + m) =~= le_bytes(v, k) + le_bytes(shr8(v, k), m));
    }
}

/// Append the `n` low bytes of `v`, least significant first.
fn push_le(v: u64, n: usize, out: &mut Vec<u8>)
    ensures
        final(out)@ == old(out)@ + le_bytes(v as nat, n as nat),
{
    let mut x = v;
    let mut k: usize = 0;
    while k < n
        invariant
            k <= n,
            x as nat == shr8(v as nat, k as nat),
            out@ == old(out)@ + le_bytes(v as nat, k as nat),
        decreases n - k,
    {
        proof {
            lemma_le_bytes_concat(v as nat, k as nat, 1);
            lemma_shr8_step(v as nat, k as nat);
            assert(le_bytes((x / 256) as nat, 0) =~= Seq::<u8>::empty());
            assert(le_bytes(x as nat, 1) =~= seq![(x % 256) as u8]);
        }
        out.push((x % 256) as u8);
        assert(out@ =~= old(out)@ + le_bytes(v as nat, (k + 1) as nat));
        x = x / 256;
        k = k + 1;
    }
}

/// Append the UTF-16 code units of `c`, little-endian.
fn push_utf16(c: char, out: &mut Vec<u8>)
    ensures
        final(out)@ == old(out)@ + units_le(utf16_units(c)),
{
    let v = c as u32;
    let ghost us = utf16_units(c);
    assert(units_le(Seq::<u16>::empty()) =~= Seq::<u8>::empty());
    if v < 0x10000 {
        push_le(v as u64, 2, out);
        assert(us.drop_last() =~= Seq::<u16>::empty());
        assert(out@ =~= old(out)@ + units_le(us));
    } else {
        let w = v - 0x10000;
        let hi: u32 = 0xD800 + w / 0x400;
        let lo: u32 = 0xDC00 + w % 0x400;
        assert(v <= 0x10FFFF);
        assert(hi < 0x10000 && lo < 0x10000);
        push_le(hi as u64, 2, out);
        push_le(lo as u64, 2, out);
        assert(us =~= seq![hi as u16, lo as u16]);
        assert(us.drop_last() =~= seq![hi as u16]);
        assert(seq![hi as u16].drop_last() =~= Seq::<u16>::empty());
        assert(units_le(seq![hi as u16]) =~= units_le(Seq::<u16>::empty()) + le_bytes(hi as nat, 2));
        assert(units_le(us) =~= units_le(seq![hi as u16]) + le_bytes(lo as nat, 2));
        assert(out@ =~= old(out)@ + units_le(us));
    }
}

/// Where a span lies: in a region that holds its first byte, not past its end.
pub proof fn lemma_span(rs: Seq<Mem64>, addr: u64, n: int)
    ensures
        span(rs, addr, n) is Some ==> {
            let i = span(rs, addr, n)->0;
            &&& 0 <= i < rs.len()
            &&& region_holds(rs[i], addr)
            &&& addr - rs[i].base + n <= rs[i].size
        },
{
    lemma_region_index(rs, addr, 0);
}

/// Bytes read from well-formed regions are as many as asked for.
pub proof fn lemma_bytes_at_len(rs: Seq<Mem64>, addr: u64, n: int)
    requires
        forall|i: int| 0 <= i < rs.len() ==> region_wf(#[trigger] rs[i]),
        n >= 0,
    ensures
        bytes_at(rs, addr, n) is Some ==> bytes_at(rs, addr, n)->0.len() == n,
{
    lemma_span(rs, addr, n);
    if span(rs, addr, n) is Some {
        assert(region_wf(rs[span(rs, addr, n)->0]));
    }
}

impl Maps {
    /// Index of the region that holds `addr` (the first one).
    fn region_of(&self, addr: u64) -> (r: Option<usize>)
        ensures
            r is Some <==> region_index(self.regions@, addr, 0) is Some,
            r is Some ==> {
                &&& r->0 as int == region_index(self.regions@, addr, 0)->0
                &&& r->0 < self.regions@.len()
                &&& region_holds(self.regions@[r->0 as int], addr)
            },
    {
        proof {
            lemma_region_index(self.regions@, addr, 0);
        }
        let mut i: usize = 0;
        while i < self.regions.len()
            invariant
                i <= self.regions@.len(),
                region_index(self.regions@, addr, 0) == region_index(self.regions@, addr, i as int),
            decreases self.regions@.len() - i,
        {
            let r = &self.regions[i];
            if r.base <= addr && addr - r.base < r.size {
                return Some(i);
            }
            i = i + 1;
        }
        None
    }

    /// Index of the region that holds all `n` bytes from `addr`.
    fn span_of(&self, addr: u64, n: usize) -> (r: Option<usize>)
        requires
            self.wf(),
        ensures
            r is Some <==> span(self.regions@, addr, n as int) is Some,
            r is Some ==> {
                &&& r->0 as int == span(self.regions@, addr, n as int)->0
                &&& r->0 < self.regions@.len()
                &&& region_holds(self.regions@[r->0 as int], addr)
                &&& addr - self.regions@[r->0 as int].base + n <= self.regions@[r->0 as int].size
                &&& region_wf(self.regions@[r->0 as int])
            },
    {
        match self.region_of(addr) {
            Some(i) => {
                let r = &self.regions[i];
                assert(region_holds(*r, addr));
                if n as u64 <= r.size - (addr - r.base) {
                    Some(i)
                } else {
                    None
                }
            },
            None => None,
        }
    }

    /// The `n` bytes at `addr`; `None` when they do not all lie in the
    /// region holding `addr`.
    pub fn read_bytes(&self, addr: u64, n: usize) -> (r: Option<Vec<u8>>)
        requires
            self.wf(),
        ensures
            match bytes_at(self.regions@, addr, n as int) {
                Some(b) => r is Some && r->0@ == b,
                None => r is None,
            },
    {
        match self.span_of(addr, n) {
            Some(i) => {
                let r = &self.regions[i];
                let _mlen = r.mem.len();
                let off_u = addr - r.base;
                assert(off_u + n <= r.mem@.len());
                let off = off_u as usize;
                let mut out: Vec<u8> = Vec::new();
                let mut k: usize = 0;
                while k < n
                    invariant
                        k <= n,
                        off + n <= r.mem@.len(),
                        _mlen == r.mem@.len(),
                        out@ == r.mem@.subrange(off as int, off + k),
                    decreases n - k,
                {
                    out.push(r.mem[off + k]);
                    k = k + 1;
                }
                Some(out)
            },
            None => None,
        }
    }

    /// Write `data` at `addr`; false (nothing written) when it does not
    /// all fit in the region holding `addr`.
    pub fn write_bytes(&mut self, addr: u64, data: &[u8]) -> (ok: bool)
        requires
            old(self).wf(),
        ensures
            final(self).wf(),
            ok == (span(old(self).regions@, addr, data@.len() as int) is Some),
            wrote(old(self).regions@, final(self).regions@, addr, data@),
    {
        let i = match self.span_of(addr, data.len()) {
            Some(i) => i,
            None => {
                return false;
            },
        };
        let ghost o = self.regions@;
        let mut r = self.regions.remove(i);
        assert(r == o[i as int]);
        let _mlen = r.mem.len();
        let off_u = addr - r.base;
        assert(off_u + data@.len() <= r.mem@.len());
        let off = off_u as usize;
        let ghost m0 = r.mem@;
        let mut k: usize = 0;
        while k < data.len()
            invariant
                k <= data@.len(),
                off + data@.len() <= m0.len(),
                _mlen == m0.len(),
                r.name == o[i as int].name,
                r.base == o[i as int].base,
                r.size == o[i as int].size,
                m0 == o[i as int].mem@,
                off == addr - o[i as int].base,
                r.mem@ == splice(m0, off as int, data@.subrange(0, k as int)),
                r.mem@.len() == m0.len(),
            decreases data@.len() - k,
        {
            r.mem.set(off + k, data[k]);
            proof {
                assert(r.mem@ =~= splice(m0, off as int, data@.subrange(0, k + 1)));
            }
            k = k + 1;
        }
        assert(data@.subrange(0, data@.len() as int) =~= data@);
        assert(region_wf(r));
        self.regions.insert(i, r);
        proof {
            assert forall|j: int| 0 <= j < o.len() && j != i implies #[trigger] self.regions@[j] == o[j] by {
                if j < i {
                    assert(o.remove(i as int)[j] == o[j]);
                } else {
                    assert(o.remove(i as int)[j - 1] == o[j]);
                }
            }
            assert forall|j: int| 0 <= j < self.regions@.len() implies region_wf(#[trigger] self.regions@[j]) by {
                if j != i {
                    assert(self.regions@[j] == o[j]);
                }
            }
        }
        true
    }

    /// The byte at `addr`.
    pub fn read_byte(&self, addr: u64) -> (r: Option<u8>)
        requires
            self.wf(),
        ensures
            match bytes_at(self.regions@, addr, 1) {
                Some(b) => r == Some(b[0]),
                None => r is None,
            },
    {
        proof {
            lemma_bytes_at_len(self.regions@, addr, 1);
        }
        match self.read_bytes(addr, 1) {
            Some(b) => Some(b[0]),
            None => None,
        }
    }

    /// Write the byte `v` at `addr`.
    pub fn write_byte(&mut self, addr: u64, v: u8) -> (ok: bool)
        requires
            old(self).wf(),
        ensures
            final(self).wf(),
            ok == (span(old(self).regions@, addr, 1) is Some),
            wrote(old(self).regions@, final(self).regions@, addr, seq![v]),
    {
        let b: Vec<u8> = vec![v];
        assert(b@ =~= seq![v]);
        self.write_bytes(addr, b.as_slice())
    }

    /// The NUL-terminated string at `addr` (see [`string_at`]).
    pub fn read_string(&self, addr: u64) -> (s: String)
        requires
            self.wf(),
        ensures
            s@ == string_at(self.regions@, addr),
    {
        match self.region_of(addr) {
            Some(i) => {
                let r = &self.regions[i];
                let off = addr - r.base;
                assert(region_wf(*r));
                let _len = r.mem.len();
                assert(off < _len);
                read_c_string(r.mem.as_slice(), off as usize)
            },
            None => String::new(),
        }
    }

    /// The little-endian `u32` at `addr`.
    pub fn read_dword(&self, addr: u64) -> (r: Option<u32>)
        requires
            self.wf(),
        ensures
            match bytes_at(self.regions@, addr, 4) {
                Some(b) => r == Some(le_u32(b, 0)),
                None => r is None,
            },
    {
        match self.read_bytes(addr, 4) {
            Some(b) => Some(crate::bytes::read_u32_le(b.as_slice(), 0)),
            None => None,
        }
    }

    /// The little-endian `u64` at `addr`.
    pub fn read_qword(&self, addr: u64) -> (r: Option<u64>)
        requires
            self.wf(),
        ensures
            match bytes_at(self.regions@, addr, 8) {
                Some(b) => r == Some(le_u64(b, 0)),
                None => r is None,
            },
    {
        match self.read_bytes(addr, 8) {
            Some(b) => Some(crate::bytes::read_u64_le(b.as_slice(), 0)),
            None => None,
        }
    }

    /// Write `v` little-endian at `addr`.
    pub fn write_dword(&mut self, addr: u64, v: u32) -> (ok: bool)
        requires
            old(self).wf(),
        ensures
            final(self).wf(),
            ok == (span(old(self).regions@, addr, 4) is Some),
            wrote(old(self).regions@, final(self).regions@, addr, le_bytes(v as nat, 4)),
    {
        let mut b: Vec<u8> = Vec::new();
        push_le(v as u64, 4, &mut b);
        proof {
            lemma_le_bytes_len(v as nat, 4);
        }
        assert(b@ =~= le_bytes(v as nat, 4));
        self.write_bytes(addr, b.as_slice())
    }

    /// Write `v` little-endian at `addr`.
    pub fn write_qword(&mut self, addr: u64, v: u64) -> (ok: bool)
        requires
            old(self).wf(),
        ensures
            final(self).wf(),
            ok == (span(old(self).regions@, addr, 8) is Some),
            wrote(old(self).regions@, final(self).regions@, addr, le_bytes(v as nat, 8)),
    {
        let mut b: Vec<u8> = Vec::new();
        push_le(v, 8, &mut b);
        proof {
            lemma_le_bytes_len(v as nat, 8);
        }
        assert(b@ =~= le_bytes(v as nat, 8));
        self.write_bytes(addr, b.as_slice())
    }

    /// Copy `n` bytes from `from` to `to`; false (nothing written) when the
    /// source cannot be read or the destination written whole.
    pub fn memcpy(&mut self, to: u64, from: u64, n: usize) -> (ok: bool)
        requires
            old(self).wf(),
        ensures
            final(self).wf(),
            match bytes_at(old(self).regions@, from, n as int) {
                Some(b) => ok == (span(old(self).regions@, to, n as int) is Some) && wrote(
                    old(self).regions@,
                    final(self).regions@,
                    to,
                    b,
                ),
                None => !ok && final(self).regions@ == old(self).regions@,
            },
    {
        proof {
            lemma_span(self.regions@, from, n as int);
            if span(self.regions@, from, n as int) is Some {
                assert(region_wf(self.regions@[span(self.regions@, from, n as int)->0]));
            }
        }
        match self.read_bytes(from, n) {
            Some(b) => self.write_bytes(to, b.as_slice()),
            None => false,
        }
    }

    /// Fill `n` bytes at `addr` with `b`.
    pub fn memset(&mut self, addr: u64, b: u8, n: usize) -> (ok: bool)
        requires
            old(self).wf(),
        ensures
            final(self).wf(),
            ok == (span(old(self).regions@, addr, n as int) is Some),
            wrote(old(self).regions@, final(self).regions@, addr, Seq::new(n as nat, |_k: int| b)),
    {
        let fill: Vec<u8> = vec![b; n];
        assert(fill@ =~= Seq::new(n as nat, |_k: int| b));
        self.write_bytes(addr, fill.as_slice())
    }

    /// Write the UTF-8 bytes of `s` and a NUL at `addr`.
    pub fn write_string(&mut self, addr: u64, s: &str) -> (ok: bool)
        requires
            old(self).wf(),
        ensures
            final(self).wf(),
            ok == (span(old(self).regions@, addr, (encode_utf8(s@).len() + 1) as int) is Some),
            wrote(old(self).regions@, final(self).regions@, addr, encode_utf8(s@).push(0u8)),
    {
        let src = s.as_bytes();
        let mut b: Vec<u8> = Vec::new();
        let mut k: usize = 0;
        while k < src.len()
            invariant
                k <= src@.len(),
                b@ == src@.subrange(0, k as int),
            decreases src@.len() - k,
        {
            b.push(src[k]);
            k = k + 1;
        }
        b.push(0u8);
        assert(b@ =~= encode_utf8(s@).push(0u8));
        self.write_bytes(addr, b.as_slice())
    }

    /// Write `s` in UTF-16 (little-endian) and a 16-bit NUL at `addr`.
    pub fn write_wide_string(&mut self, addr: u64, s: &str) -> (ok: bool)
        requires
            old(self).wf(),
        ensures
            final(self).wf(),
            ok == (span(old(self).regions@, addr, (utf16le(s@).len() + 2) as int) is Some),
            wrote(old(self).regions@, final(self).regions@, addr, utf16le(s@) + seq![0u8, 0u8]),
    {
        let cs = chars_of(s);
        let mut b: Vec<u8> = Vec::new();
        let mut k: usize = 0;
        while k < cs.len()
            invariant
                k <= cs@.len(),
                cs@ == s@,
                b@ == utf16le(s@.subrange(0, k as int)),
            decreases cs@.len() - k,
        {
            let c = cs[k];
            assert(s@.subrange(0, k + 1).drop_last() =~= s@.subrange(0, k as int));
            push_utf16(c, &mut b);
            assert(b@ =~= utf16le(s@.subrange(0, k + 1)));
            k = k + 1;
        }
        assert(s@.subrange(0, cs@.len() as int) =~= s@);
        b.push(0u8);
        b.push(0u8);
        assert(b@ =~= utf16le(s@) + seq![0u8, 0u8]);
        self.write_bytes(addr, b.as_slice())
    }
}

/// What is written can be read back: after a write that fit, the bytes at
/// its address are the bytes written.
pub proof fn law_read_after_write(o: Seq<Mem64>, n: Seq<Mem64>, addr: u64, data: Seq<u8>)
    requires
        forall|i: int| 0 <= i < o.len() ==> region_wf(#[trigger] o[i]),
        span(o, addr, data.len() as int) is Some,
        wrote(o, n, addr, data),
    ensures
        bytes_at(n, addr, data.len() as int) == Some(data),
{
    let i = span(o, addr, data.len() as int)->0;
    lemma_region_index(o, addr, 0);
    lemma_same_holder(o, n, addr, i, 0);
    let off = addr - o[i].base;
    assert(n[i].mem@.subrange(off, off + data.len()) =~= data);
}

/// A write leaves every region's place in the address space unchanged, so
/// the region holding an address is the same before and after it.
proof fn lemma_same_holder(o: Seq<Mem64>, n: Seq<Mem64>, addr: u64, i: int, start: int)
    requires
        0 <= i < o.len(),
        n.len() == o.len(),
        n[i].base == o[i].base,
        n[i].size == o[i].size,
        forall|j: int| 0 <= j < o.len() && j != i ==> #[trigger] n[j] == o[j],
    ensures
        region_index(n, addr, start) == region_index(o, addr, start),
    decreases o.len() - start,
{
    if 0 <= start < o.len() {
        if start != i {
            assert(n[start] == o[start]);
        }
        lemma_same_holder(o, n, addr, i, start + 1);
    }
}

/// A write moves no region: the same spans can be read before and after it.
pub proof fn lemma_wrote_keeps_spans(o: Seq<Mem64>, n: Seq<Mem64>, addr: u64, data: Seq<u8>, a: u64, k: int)
    requires
        wrote(o, n, addr, data),
    ensures
        span(n, a, k) == span(o, a, k),
        (bytes_at(n, a, k) is Some) == (bytes_at(o, a, k) is Some),
{
    if let Some(i) = span(o, addr, data.len() as int) {
        lemma_region_index(o, addr, 0);
        lemma_region_index(o, a, 0);
        lemma_same_holder(o, n, a, i, 0);
        if let Some(j) = region_index(o, a, 0) {
            if j != i {
                assert(n[j] == o[j]);
            }
            assert(n[j].base == o[j].base && n[j].size == o[j].size);
        }
    }
}

/// Adding a region after the others changes no read that succeeded.
pub proof fn lemma_bytes_at_push(rs: Seq<Mem64>, x: Mem64, addr: u64, n: int)
    requires
        bytes_at(rs, addr, n) is Some,
    ensures
        bytes_at(rs.push(x), addr, n) == bytes_at(rs, addr, n),
{
    lemma_region_index_push(rs, x, addr, 0);
    lemma_region_index(rs, addr, 0);
}

proof fn lemma_region_index_push(rs: Seq<Mem64>, x: Mem64, addr: u64, k: int)
    requires
        region_index(rs, addr, k) is Some,
    ensures
        region_index(rs.push(x), addr, k) == region_index(rs, addr, k),
    decreases rs.len() - k,
{
    if 0 <= k < rs.len() {
        assert(rs.push(x)[k] == rs[k]);
        if !region_holds(rs[k], addr) {
            lemma_region_index_push(rs, x, addr, k + 1);
        }
    }
}

/// A write at or after the end of a span leaves the span's bytes alone.
pub proof fn lemma_write_after_span(o: Seq<Mem64>, n: Seq<Mem64>, addr: u64, data: Seq<u8>, a: u64, k: int)
    requires
        forall|i: int| 0 <= i < o.len() ==> region_wf(#[trigger] o[i]),
        wrote(o, n, addr, data),
        k >= 0,
        bytes_at(o, a, k) is Some,
        a + k <= addr,
    ensures
        bytes_at(n, a, k) == bytes_at(o, a, k),
{
    if let Some(j) = span(o, addr, data.len() as int) {
        lemma_span(o, addr, data.len() as int);
        lemma_span(o, a, k);
        lemma_same_holder(o, n, a, j, 0);
        let i = span(o, a, k)->0;
        assert(region_wf(o[i]));
        if i == j {
            let off = a - o[i].base;
            let off2 = addr - o[i].base;
            assert(splice(o[i].mem@, off2, data).subrange(off, off + k) =~= o[i].mem@.subrange(off, off + k));
        } else {
            assert(n[i] == o[i]);
        }
    }
}

/// A little-endian `u64` written as bytes reads back as the same value.
pub proof fn law_qword_bytes_roundtrip(v: u64)
    ensures
        le_u64(le_bytes(v as nat, 8), 0) == v,
{
    let b = le_bytes(v as nat, 8);
    reveal_with_fuel(le_bytes, 9);
    let v0 = v as nat;
    assert(b[0] == (v0 % 256) as u8);
    assert(b[1] == ((v0 / 256) % 256) as u8);
    assert(b[2] == ((v0 / 256 / 256) % 256) as u8);
    assert(b[3] == ((v0 / 256 / 256 / 256) % 256) as u8);
    assert(b[4] == ((v0 / 256 / 256 / 256 / 256) % 256) as u8);
    assert(b[5] == ((v0 / 256 / 256 / 256 / 256 / 256) % 256) as u8);
    assert(b[6] == ((v0 / 256 / 256 / 256 / 256 / 256 / 256) % 256) as u8);
    assert(b[7] == ((v0 / 256 / 256 / 256 / 256 / 256 / 256 / 256) % 256) as u8);
    assert(v0 == (v0 % 256) + 256 * ((v0 / 256) % 256) + 0x1_0000 * ((v0 / 256 / 256) % 256)
        + 0x100_0000 * ((v0 / 256 / 256 / 256) % 256) + 0x1_0000_0000 * ((v0 / 256 / 256 / 256 / 256)
        % 256) + 0x100_0000_0000 * ((v0 / 256 / 256 / 256 / 256 / 256) % 256) + 0x1_0000_0000_0000 * ((
    v0 / 256 / 256 / 256 / 256 / 256 / 256) % 256) + 0x100_0000_0000_0000 * ((v0 / 256 / 256 / 256
        / 256 / 256 / 256 / 256) % 256)) by (nonlinear_arith)
        requires
            v0 < 0x1_0000_0000_0000_0000,
    {
    }
}

} // verus!
