//! Where the emulated Linux-kernel APIs find their arguments and put their
//! result, by the guest's instruction set.

use vstd::prelude::*;
use crate::bytes::le_u64;
use crate::emu::{with_rax, Arch, Emu};
use crate::memory::bytes_at;

verus! {

/// The calling convention of an emulated API.
#[derive(Clone, Copy, Debug, PartialEq, Eq, Structural)]
pub enum ApiAbi {
    /// Arguments in `x0`..`x30`, result in `x0`.
    Aarch64,
    /// System V: arguments in `rdi`, `rsi`, `rdx`, `rcx`, `r8`, `r9`, then
    /// on the stack from `rsp` on; result in `rax`.
    X86_64,
}

/// The `idx`-th argument under `abi` in the state `emu`; a stack argument
/// that cannot be read is 0.
pub open spec fn arg_spec(abi: ApiAbi, emu: Emu, idx: int) -> u64 {
    match abi {
        ApiAbi::Aarch64 => emu.regs_aarch64.x@[idx],
        ApiAbi::X86_64 => if idx == 0 {
            emu.regs.rdi
        } else if idx == 1 {
            emu.regs.rsi
        } else if idx == 2 {
            emu.regs.rdx
        } else if idx == 3 {
            emu.regs.rcx
        } else if idx == 4 {
            emu.regs.r8
        } else if idx == 5 {
            emu.regs.r9
        } else {
            match bytes_at(emu.maps.regions@, (emu.regs.rsp + (idx - 6) * 8) as u64, 8) {
                Some(b) => le_u64(b, 0),
                None => 0,
            }
        },
    }
}

impl ApiAbi {
    /// The convention of the guest's instruction set: x86-64 for an x86-64
    /// guest, AArch64 otherwise.
    pub fn from_emu(emu: &Emu) -> (r: Self)
        ensures
            r == (if emu.cfg.arch == Arch::X86_64 {
                ApiAbi::X86_64
            } else {
                ApiAbi::Aarch64
            }),
    {
        if emu.cfg.arch.is_x64() {
            ApiAbi::X86_64
        } else {
            ApiAbi::Aarch64
        }
    }

    /// The `idx`-th argument (see [`arg_spec`]). On AArch64 there are 31
    /// argument registers; on x86-64 argument `n >= 6` is the qword at
    /// `rsp + (n - 6) * 8`, the return address having been popped.
    pub fn arg(self, emu: &Emu, idx: usize) -> (r: u64)
        requires
            emu.maps.wf(),
            self == ApiAbi::Aarch64 ==> idx < 31,
            self == ApiAbi::X86_64 && idx >= 6 ==> emu.regs.rsp + (idx - 6) * 8 <= u64::MAX,
        ensures
            r == arg_spec(self, *emu, idx as int),
    {
        match self {
            ApiAbi::Aarch64 => emu.regs_aarch64.x[idx],
            ApiAbi::X86_64 => {
                if idx == 0 {
                    emu.regs().rdi
                } else if idx == 1 {
                    emu.regs().rsi
                } else if idx == 2 {
                    emu.regs().rdx
                } else if idx == 3 {
                    emu.regs().rcx
                } else if idx == 4 {
                    emu.regs().r8
                } else if idx == 5 {
                    emu.regs().r9
                } else {
                    let rsp = emu.regs().rsp;
                    let off = (idx as u64 - 6) * 8;
                    match emu.maps.read_qword(rsp + off) {
                        Some(v) => v,
                        None => 0,
                    }
                }
            },
        }
    }

    /// Return `value`: into `x0` on AArch64, `rax` on x86-64.
    pub fn set_ret(self, emu: &mut Emu, value: u64)
        ensures
            final(emu).cfg == old(emu).cfg,
            final(emu).maps == old(emu).maps,
            final(emu).heap_arenas == old(emu).heap_arenas,
            final(emu).handle_management == old(emu).handle_management,
            final(emu).exceptions == old(emu).exceptions,
            final(emu).is_running == old(emu).is_running,
            self == ApiAbi::Aarch64 ==> {
                &&& final(emu).regs_aarch64.x@ == old(emu).regs_aarch64.x@.update(0, value)
                &&& final(emu).regs_aarch64.sp == old(emu).regs_aarch64.sp
                &&& final(emu).regs_aarch64.pc == old(emu).regs_aarch64.pc
                &&& final(emu).regs == old(emu).regs
            },
            self == ApiAbi::X86_64 ==> {
                &&& final(emu).regs == with_rax(old(emu).regs, value)
                &&& final(emu).regs_aarch64 == old(emu).regs_aarch64
            },
    {
        match self {
            ApiAbi::Aarch64 => emu.regs_aarch64.x[0] = value,
            ApiAbi::X86_64 => emu.regs.rax = value,
        }
    }
}

} // verus!
