//! Format detection: decide from a buffer's leading bytes (its magic number)
//! which container format it holds.  Detection inspects only the prefix a
//! format defines — never the full structure — and fails on buffers too short
//! to hold any known magic or whose prefix matches none.

use vstd::prelude::*;
use crate::bytes::u16_le;
use crate::error::{Error, ErrorKind};
use crate::records::BinaryFormat;

verus! {

/// The ELF magic: 0x7f 'E' 'L' 'F'.
pub open spec fn is_elf_magic(b: Seq<u8>) -> bool {
    b.len() >= 4 && b[0] == 0x7f && b[1] == 0x45 && b[2] == 0x4c && b[3] == 0x46
}

/// The WebAssembly magic: NUL 'a' 's' 'm'.
pub open spec fn is_wasm_magic(b: Seq<u8>) -> bool {
    b.len() >= 4 && b[0] == 0x00 && b[1] == 0x61 && b[2] == 0x73 && b[3] == 0x6d
}

/// A thin Mach-O magic, 32 or 64 bit, either byte order.
pub open spec fn is_thin_macho_magic(b: Seq<u8>) -> bool {
    b.len() >= 4 && ((b[0] == 0xfe && b[1] == 0xed && b[2] == 0xfa && (b[3] == 0xce || b[3]
        == 0xcf)) || ((b[0] == 0xce || b[0] == 0xcf) && b[1] == 0xfa && b[2] == 0xed && b[3]
        == 0xfe))
}

/// A fat (multi-architecture) Mach-O magic, either byte order.
pub open spec fn is_fat_macho_magic(b: Seq<u8>) -> bool {
    b.len() >= 4 && ((b[0] == 0xca && b[1] == 0xfe && b[2] == 0xba && b[3] == 0xbe) || (b[0]
        == 0xbe && b[1] == 0xba && b[2] == 0xfe && b[3] == 0xca))
}

pub open spec fn is_macho_magic(b: Seq<u8>) -> bool {
    is_thin_macho_magic(b) || is_fat_macho_magic(b)
}

/// The PE magic: the 'M' 'Z' DOS stub signature.
pub open spec fn is_pe_magic(b: Seq<u8>) -> bool {
    b.len() >= 2 && b[0] == 0x4d && b[1] == 0x5a
}

/// A known COFF machine code in the leading `u16`: i386, x86-64, ARM or
/// AArch64.  A bare COFF object starts directly with its file header, so the
/// machine field is the only prefix there is to inspect.
pub open spec fn is_coff_magic(b: Seq<u8>) -> bool {
    b.len() >= 2 && (u16_le(b, 0) == 0x014c || u16_le(b, 0) == 0x8664 || u16_le(b, 0) == 0x01c0
        || u16_le(b, 0) == 0xaa64)
}

/// What detection decides for a buffer: the matching format, or `None` when
/// no known magic matches.  Longer, more specific magics are tried first, so
/// the decision is unambiguous.
pub open spec fn detect_spec(b: Seq<u8>) -> Option<BinaryFormat> {
    if is_elf_magic(b) {
        Some(BinaryFormat::Elf)
    } else if is_macho_magic(b) {
        Some(BinaryFormat::MachO)
    } else if is_wasm_magic(b) {
        Some(BinaryFormat::Wasm)
    } else if is_pe_magic(b) {
        Some(BinaryFormat::Pe)
    } else if is_coff_magic(b) {
        Some(BinaryFormat::Coff)
    } else {
        None
    }
}

/// Decide which container format the buffer holds, from its magic bytes
/// alone; a buffer shorter than the shortest magic, or matching no known
/// magic, is a detection failure, never a crash.
pub fn detect_format(data: &Vec<u8>) -> (r: Result<BinaryFormat, Error>)
    ensures
        match r {
            Ok(f) => detect_spec(data@) == Some(f),
            Err(e) => detect_spec(data@) is None && e.kind == ErrorKind::DetectionFailure
                && e.offset == 0,
        },
{
    let n = data.len();
    if n >= 4 {
        let b0 = data[0];
        let b1 = data[1];
        let b2 = data[2];
        let b3 = data[3];
        if b0 == 0x7f && b1 == 0x45 && b2 == 0x4c && b3 == 0x46 {
            return Ok(BinaryFormat::Elf);
        }
        if (b0 == 0xfe && b1 == 0xed && b2 == 0xfa && (b3 == 0xce || b3 == 0xcf)) || ((b0 == 0xce
            || b0 == 0xcf) && b1 == 0xfa && b2 == 0xed && b3 == 0xfe) {
            return Ok(BinaryFormat::MachO);
        }
        if (b0 == 0xca && b1 == 0xfe && b2 == 0xba && b3 == 0xbe) || (b0 == 0xbe && b1 == 0xba && b2
            == 0xfe && b3 == 0xca) {
            return Ok(BinaryFormat::MachO);
        }
        if b0 == 0x00 && b1 == 0x61 && b2 == 0x73 && b3 == 0x6d {
            return Ok(BinaryFormat::Wasm);
        }
    }
    if n >= 2 {
        let b0 = data[0];
        let b1 = data[1];
        if b0 == 0x4d && b1 == 0x5a {
            return Ok(BinaryFormat::Pe);
        }
        let machine = crate::bytes::read_u16(data, 0, true);
        if machine == 0x014c || machine == 0x8664 || machine == 0x01c0 || machine == 0xaa64 {
            return Ok(BinaryFormat::Coff);
        }
    }
    Err(Error { kind: ErrorKind::DetectionFailure, offset: 0 })
}

} // verus!
