//! Read-only inspection of compiled object files held in memory.
//!
//! Given a byte buffer holding a binary of unknown container format, the
//! library determines the format from its magic bytes, parses that format's
//! section table and symbol table(s), and exposes uniform accessors for
//! sections and symbols across ELF, COFF/PE, Mach-O (including fat
//! containers) and WebAssembly.

pub mod bytes;
pub mod coff;
pub mod detect;
pub mod elf;
pub mod error;
pub mod file;
pub mod macho;
pub mod records;
pub mod wasm;
