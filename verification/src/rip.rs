//! Where a jump of the 64-bit guest goes: the decision behind setting
//! `rip` with checks, from the target address and what the host knows of
//! it (is it mapped, which import is bound there).

use vstd::prelude::*;
use crate::text::{chars_eq, chars_of, lower_chars, lower_seq, split_first, split_first_chars, str_eq, string_from_chars, trim_chars, trim_seq};

verus! {

/// What the host knows and has configured when the guest jumps.
pub struct RipContext {
    /// A kernel environment is loaded (it decides its own jumps).
    pub kernel: bool,
    pub linux: bool,
    pub macos: bool,
    /// Linux: run the mapped libc for real.
    pub linux_real_libc: bool,
    /// Linux: the real `ld.so` drives the start-up.
    pub ld_bootstrap: bool,
    /// Windows: run the real DLL code down to the system calls.
    pub emulate_winapi: bool,
    /// Windows: record API calls instead of emulating them.
    pub skip_apicall: bool,
    /// Lowest address of the library range.
    pub libs_min: u64,
    /// The address a finished thread returns to.
    pub return_thread: u64,
}

/// What happens to a jump.
pub enum RipAction {
    /// The kernel environment's own rule decides.
    KernelPc,
    /// A thread finished: the main thread goes on.
    ThreadReturn,
    /// Nothing is mapped there (Linux): the jump is refused.
    Unmapped,
    /// Nothing is mapped there and no import is bound there: the jump
    /// raises the non-mapped-address exception and is refused.
    NonMappedFault,
    /// An `msvcrt.dll` import resolving into native msvcrt code: jump there.
    MsvcrtNative { target: u64 },
    /// An `msvcrt.dll` import with no native code: return to the caller as
    /// if the call were skipped.
    UnhandledImport { dll: String, api: String },
    /// Another import bound there: return to the caller and emulate
    /// `dll!api` through the import gateway.
    ImportGateway { dll: String, api: String },
    /// An ordinary jump to the address.
    Jump,
    /// A call into a Unix library, intercepted.
    UnixIntercept,
    /// An API call recorded and not run.
    SkipApiCall,
    /// A Windows API call, emulated.
    Winapi,
}

/// [`RipAction`] as plain values.
pub ghost enum RipModel {
    KernelPc,
    ThreadReturn,
    Unmapped,
    NonMappedFault,
    MsvcrtNative { target: u64 },
    UnhandledImport { dll: Seq<char>, api: Seq<char> },
    ImportGateway { dll: Seq<char>, api: Seq<char> },
    Jump,
    UnixIntercept,
    SkipApiCall,
    Winapi,
}

pub open spec fn rip_model(a: RipAction) -> RipModel {
    match a {
        RipAction::KernelPc => RipModel::KernelPc,
        RipAction::ThreadReturn => RipModel::ThreadReturn,
        RipAction::Unmapped => RipModel::Unmapped,
        RipAction::NonMappedFault => RipModel::NonMappedFault,
        RipAction::MsvcrtNative { target } => RipModel::MsvcrtNative { target },
        RipAction::UnhandledImport { dll, api } => RipModel::UnhandledImport { dll: dll@, api: api@ },
        RipAction::ImportGateway { dll, api } => RipModel::ImportGateway { dll: dll@, api: api@ },
        RipAction::Jump => RipModel::Jump,
        RipAction::UnixIntercept => RipModel::UnixIntercept,
        RipAction::SkipApiCall => RipModel::SkipApiCall,
        RipAction::Winapi => RipModel::Winapi,
    }
}

/// The DLL and the API of an import name `dll!api`; both empty when it
/// has no `!`.
pub open spec fn import_parts(import: Seq<char>) -> (Seq<char>, Seq<char>) {
    match split_first(import, '!') {
        Some(p) => p,
        None => (Seq::empty(), Seq::empty()),
    }
}

/// The DLL is `msvcrt.dll`, ignoring surrounding whitespace and ASCII case.
pub open spec fn is_msvcrt(dll: Seq<char>) -> bool {
    lower_seq(trim_seq(dll)) == "msvcrt.dll"@
}

/// Where a jump to `addr` goes. `mapped` says whether a map holds
/// `addr`; `import` is the import bound at `addr` (`dll!api`, empty when
/// none); `native` the native msvcrt code the import resolves to, if any;
/// `symbol` the Unix symbol at `addr`.
pub open spec fn rip_spec(
    addr: u64,
    ctx: RipContext,
    mapped: bool,
    import: Seq<char>,
    native: Option<u64>,
    symbol: Seq<char>,
) -> RipModel {
    if ctx.kernel {
        RipModel::KernelPc
    } else if addr == ctx.return_thread {
        RipModel::ThreadReturn
    } else if !mapped {
        if ctx.linux {
            RipModel::Unmapped
        } else if import.len() == 0 {
            RipModel::NonMappedFault
        } else {
            let (dll, api) = import_parts(import);
            if is_msvcrt(dll) {
                match native {
                    Some(t) => RipModel::MsvcrtNative { target: t },
                    None => RipModel::UnhandledImport { dll, api },
                }
            } else {
                RipModel::ImportGateway { dll, api }
            }
        }
    } else if addr < ctx.libs_min {
        RipModel::Jump
    } else if ctx.linux && ctx.linux_real_libc {
        if !ctx.ld_bootstrap && symbol == "__libc_start_main"@ {
            RipModel::UnixIntercept
        } else {
            RipModel::Jump
        }
    } else if ctx.linux || ctx.macos {
        RipModel::UnixIntercept
    } else if ctx.emulate_winapi {
        RipModel::Jump
    } else if ctx.skip_apicall {
        RipModel::SkipApiCall
    } else {
        RipModel::Winapi
    }
}

/// Decide where a jump of the 64-bit guest to `addr` goes (see
/// [`rip_spec`]).
pub fn rip_action(
    addr: u64,
    ctx: &RipContext,
    mapped: bool,
    import: &str,
    native: Option<u64>,
    symbol: &str,
) -> (r: RipAction)
    ensures
        rip_model(r) == rip_spec(addr, *ctx, mapped, import@, native, symbol@),
{
    if ctx.kernel {
        return RipAction::KernelPc;
    }
    if addr == ctx.return_thread {
        return RipAction::ThreadReturn;
    }
    if !mapped {
        if ctx.linux {
            return RipAction::Unmapped;
        }
        let ic = chars_of(import);
        if ic.len() == 0 {
            return RipAction::NonMappedFault;
        }
        let (dll, api) = match split_first_chars(ic.as_slice(), '!') {
            Some((d, a)) => (d, a),
            None => (Vec::new(), Vec::new()),
        };
        let key = lower_chars(trim_chars(dll.as_slice()).as_slice());
        let msvcrt = chars_of("msvcrt.dll");
        let dll_s = string_from_chars(dll.as_slice());
        let api_s = string_from_chars(api.as_slice());
        if chars_eq(key.as_slice(), msvcrt.as_slice()) {
            return match native {
                Some(t) => RipAction::MsvcrtNative { target: t },
                None => RipAction::UnhandledImport { dll: dll_s, api: api_s },
            };
        }
        return RipAction::ImportGateway { dll: dll_s, api: api_s };
    }
    if addr < ctx.libs_min {
        RipAction::Jump
    } else if ctx.linux && ctx.linux_real_libc {
        if !ctx.ld_bootstrap && str_eq(symbol, "__libc_start_main") {
            RipAction::UnixIntercept
        } else {
            RipAction::Jump
        }
    } else if ctx.linux || ctx.macos {
        RipAction::UnixIntercept
    } else if ctx.emulate_winapi {
        RipAction::Jump
    } else if ctx.skip_apicall {
        RipAction::SkipApiCall
    } else {
        RipAction::Winapi
    }
}

} // verus!
