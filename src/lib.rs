//! In-process entry-point patching for ELF dynamic objects.
//!
//! The library decides everything that a patch pass does: which rules apply,
//! which loaded objects are read, which symbol entries are rewritten, with
//! which bytes, and inside which page-protection window. Walking the dynamic
//! linker's memory, reading files and changing page protections are left to
//! the caller, which hands plain values in and carries out the plans that
//! come back.

pub mod bytes;
pub mod elf_symbols;
pub mod link_map;
pub mod patcher;
pub mod report;
pub mod rules;
pub mod shim;
pub mod trampoline;
