# mwemu_core

Verified parts of a Windows/Linux binary emulator, written in Verus with
their contracts proved. The instruction decoder and the run loops that
drive it are not here.

- `src/` is the library. It holds the binary-format readers (PE sections,
  PE32 import binding, ELF32/ELF64 headers and relocatable objects), the
  export-index registry with its name/ordinal/address resolution and
  forwarder following, the guest memory map, the heap arenas and heap
  handles, the emulated Windows heap and CRT APIs (64-bit and 32-bit
  calling conventions), `GetProcAddress`, the API name resolvers and the
  parsing of forwarder strings met during a guest-module search, the
  kernel-module checks and import collection, the choice of loader for a
  sample, and the decision of where a guest jump goes.
- `tests/` runs the library on concrete inputs.
- `app/` is the unverified edge: serialisable copies of library types and
  the trace output.

Where the emulator searches the modules loaded in the guest (a walk of the
loader's module list), the library takes that search as a closure and
states its results in terms of what the closure answered. The loaders the
import binder and the ELF loaders call are traits; their contracts speak of
the log of calls made to them.
