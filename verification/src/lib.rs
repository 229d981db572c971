//! Verified core of a binary-loading and Windows-API emulation toolkit:
//! PE export-directory parsing, the runtime export-name registry with
//! forwarder resolution, the API name resolvers, import binding, ELF and
//! kernel-module loading, guest memory, the emulated Win32 heap and the
//! emulated C runtime.

pub mod text;
pub mod bytes;
pub mod pe_section;
pub mod binding;
pub mod elf;
pub mod elf32;
pub mod elf64;
pub mod relocatable;
pub mod export_index;
pub mod ahash_maps;
pub mod export_registry;
pub mod heap_handle;
pub mod handles;
pub mod emu;
pub mod memory;
pub mod heap;
pub mod winapi64;
pub mod winapi32;
pub mod abi;
pub mod wincrt;
pub mod kernel_module;
pub mod get_proc_address;
pub mod resolver;
pub mod resolver32;
pub mod msvcrt;
pub mod rip;
pub mod load_plan;

