//! What the ELF loaders share: their error type, segment permissions and
//! the services they need from whoever hosts the image.

use vstd::prelude::*;

verus! {

/// `e_machine` of an AArch64 image.
pub const EM_AARCH64: u16 = 183;

/// Why an ELF image could not be parsed or loaded.
#[derive(Clone, Debug)]
pub struct ElfError {
    pub message: String,
}

impl ElfError {
    pub fn new(message: &str) -> (e: ElfError)
        ensures
            e.message@ == message@,
    {
        ElfError { message: message.to_owned() }
    }

    /// The error's text (what `Display` would show).
    pub fn to_string(&self) -> (s: String)
        ensures
            s@ == self.message@,
    {
        self.message.clone()
    }
}

/// Read permission bit of a [`Perm`].
pub const PERM_READ: u8 = 1;

/// Write permission bit of a [`Perm`].
pub const PERM_WRITE: u8 = 2;

/// Execute permission bit of a [`Perm`].
pub const PERM_EXECUTE: u8 = 4;

/// Memory permissions of a mapped region, as bits (read 1, write 2,
/// execute 4).
#[derive(Clone, Copy, Debug, PartialEq, Eq, Structural)]
pub struct Perm {
    pub bits: u8,
}

pub open spec fn perm_bits(read: bool, write: bool, execute: bool) -> u8 {
    ((if read {
        PERM_READ
    } else {
        0u8
    }) + (if write {
        PERM_WRITE
    } else {
        0u8
    }) + (if execute {
        PERM_EXECUTE
    } else {
        0u8
    })) as u8
}

impl Perm {
    pub fn from_flags(read: bool, write: bool, execute: bool) -> (p: Perm)
        ensures
            p.bits == perm_bits(read, write, execute),
    {
        let mut bits: u8 = 0;
        if read {
            bits = bits + PERM_READ;
        }
        if write {
            bits = bits + PERM_WRITE;
        }
        if execute {
            bits = bits + PERM_EXECUTE;
        }
        Perm { bits }
    }
}

/// One call made to an [`ElfLoader`] that changes the host, with what it
/// returned.
pub ghost enum ElfCall {
    MapRegion { name: Seq<char>, addr: u64, size: u64, perm: u8, at: Option<u64> },
    WriteBytes { addr: u64, data: Seq<u8>, ok: bool },
    WriteQword { addr: u64, val: u64, ok: bool },
}

/// What the ELF loaders need from whoever hosts the image. Its model is
/// the log of the calls that change the host: each appends its record,
/// with what it returned.
pub trait ElfLoader {
    /// The calls made to this loader so far, oldest first. A host that is
    /// not verified keeps this unmodelled default.
    closed spec fn calls(&self) -> Seq<ElfCall> {
        Seq::empty()
    }

    /// Map `size` bytes named `name` at (or near) `addr`; where it landed,
    /// or `None` when it cannot be mapped.
    fn map(&mut self, name: &str, addr: u64, size: u64, perm: Perm) -> (at: Option<u64>)
        ensures
            final(self).calls() == old(self).calls().push(
                ElfCall::MapRegion { name: name@, addr, size, perm: perm.bits, at },
            ),
    ;

    fn write_bytes(&mut self, addr: u64, data: &[u8]) -> (ok: bool)
        ensures
            final(self).calls() == old(self).calls().push(ElfCall::WriteBytes { addr, data: data@, ok }),
    ;

    fn write_qword(&mut self, addr: u64, val: u64) -> (ok: bool)
        ensures
            final(self).calls() == old(self).calls().push(ElfCall::WriteQword { addr, val, ok }),
    ;

    fn read_qword(&self, addr: u64) -> Option<u64>;
}

} // verus!
