//! The ELF reader, for 32- and 64-bit files of either byte order.
//!
//! Word width and endianness are read from the identification bytes of the
//! header, never assumed.  The section table is located from the header; a
//! table that the header places beyond the end of the buffer is a truncation
//! error, never an out-of-bounds read.  Symbols come from the `SHT_SYMTAB`
//! sections, dynamic symbols from the `SHT_DYNSYM` sections, each in table
//! order; names resolve through the linked string tables and degrade to the
//! empty string when a string table or an offset is unusable.

use vstd::prelude::*;
use vstd::arithmetic::mul::lemma_mul_inequality;
use crate::bytes::{cstr_from, name_chars, read_u16, read_u32, read_u64, resolve_name, u16_at,
    u32_at, u64_at};
use crate::error::{Error, ErrorKind, ErrorRec};
use crate::file::{FileRec, ParsedFile};
use crate::records::{secs_rec, syms_rec, BinaryFormat, SectionInfo, SectionRec, SymbolInfo,
    SymbolKind, SymbolRec};

verus! {

/// `SHT_SYMTAB`: the regular symbol table.
pub const SYMTAB_TYPE: u32 = 2;

/// `SHT_DYNSYM`: the dynamic symbol table.
pub const DYNSYM_TYPE: u32 = 11;

/// `SHT_NOBITS`: a section with no file-backed bytes.
pub const NOBITS_TYPE: u32 = 8;

// ---------------------------------------------------------------------------
// Header fields.
// ---------------------------------------------------------------------------

/// The identification bytes hold a recognized class (32/64 bit) and a
/// recognized byte order.
pub open spec fn elf_ident_ok(b: Seq<u8>) -> bool {
    b.len() >= 6 && (b[4] == 1 || b[4] == 2) && (b[5] == 1 || b[5] == 2)
}

pub open spec fn elf_is64(b: Seq<u8>) -> bool {
    b[4] == 2
}

pub open spec fn elf_le(b: Seq<u8>) -> bool {
    b[5] == 1
}

pub open spec fn elf_ehsize(b: Seq<u8>) -> int {
    if elf_is64(b) {
        64
    } else {
        52
    }
}

/// The file offset of the `e_shoff` header field.
pub open spec fn elf_shoff_field(b: Seq<u8>) -> int {
    if elf_is64(b) {
        0x28
    } else {
        0x20
    }
}

/// The file offset of the `e_shentsize` header field.
pub open spec fn elf_shentsize_field(b: Seq<u8>) -> int {
    if elf_is64(b) {
        0x3a
    } else {
        0x2e
    }
}

pub open spec fn elf_shoff(b: Seq<u8>) -> int {
    if elf_is64(b) {
        u64_at(b, 0x28, elf_le(b))
    } else {
        u32_at(b, 0x20, elf_le(b))
    }
}

pub open spec fn elf_shentsize(b: Seq<u8>) -> int {
    u16_at(b, elf_shentsize_field(b), elf_le(b))
}

pub open spec fn elf_shnum(b: Seq<u8>) -> int {
    if elf_is64(b) {
        u16_at(b, 0x3c, elf_le(b))
    } else {
        u16_at(b, 0x30, elf_le(b))
    }
}

pub open spec fn elf_shstrndx(b: Seq<u8>) -> int {
    if elf_is64(b) {
        u16_at(b, 0x3e, elf_le(b))
    } else {
        u16_at(b, 0x32, elf_le(b))
    }
}

/// The section header entry size each class defines.
pub open spec fn elf_expected_entsize(b: Seq<u8>) -> int {
    if elf_is64(b) {
        64
    } else {
        40
    }
}

// ---------------------------------------------------------------------------
// Section header fields.
// ---------------------------------------------------------------------------

pub open spec fn elf_sh_base(b: Seq<u8>, i: int) -> int {
    elf_shoff(b) + i * elf_shentsize(b)
}

pub open spec fn elf_sh_name(b: Seq<u8>, i: int) -> int {
    u32_at(b, elf_sh_base(b, i), elf_le(b))
}

pub open spec fn elf_sh_type(b: Seq<u8>, i: int) -> int {
    u32_at(b, elf_sh_base(b, i) + 4, elf_le(b))
}

pub open spec fn elf_sh_addr(b: Seq<u8>, i: int) -> int {
    if elf_is64(b) {
        u64_at(b, elf_sh_base(b, i) + 0x10, elf_le(b))
    } else {
        u32_at(b, elf_sh_base(b, i) + 0x0c, elf_le(b))
    }
}

pub open spec fn elf_sh_offset(b: Seq<u8>, i: int) -> int {
    if elf_is64(b) {
        u64_at(b, elf_sh_base(b, i) + 0x18, elf_le(b))
    } else {
        u32_at(b, elf_sh_base(b, i) + 0x10, elf_le(b))
    }
}

pub open spec fn elf_sh_size(b: Seq<u8>, i: int) -> int {
    if elf_is64(b) {
        u64_at(b, elf_sh_base(b, i) + 0x20, elf_le(b))
    } else {
        u32_at(b, elf_sh_base(b, i) + 0x14, elf_le(b))
    }
}

pub open spec fn elf_sh_link(b: Seq<u8>, i: int) -> int {
    if elf_is64(b) {
        u32_at(b, elf_sh_base(b, i) + 0x28, elf_le(b))
    } else {
        u32_at(b, elf_sh_base(b, i) + 0x18, elf_le(b))
    }
}

pub open spec fn elf_sh_align(b: Seq<u8>, i: int) -> int {
    if elf_is64(b) {
        u64_at(b, elf_sh_base(b, i) + 0x30, elf_le(b))
    } else {
        u32_at(b, elf_sh_base(b, i) + 0x20, elf_le(b))
    }
}

/// The file offset of the `sh_offset` field of section header `i`: the
/// context an error about that section's table carries.
pub open spec fn elf_sh_offset_field(b: Seq<u8>, i: int) -> int {
    elf_sh_base(b, i) + (if elf_is64(b) {
        0x18int
    } else {
        0x10int
    })
}

// ---------------------------------------------------------------------------
// Normalized records.
// ---------------------------------------------------------------------------

/// Section `i`'s name: its `sh_name` bytes in the section name string table,
/// or empty when the header's string table index is out of range.
pub open spec fn elf_sec_name(b: Seq<u8>, i: int) -> Seq<char> {
    if 0 <= elf_shstrndx(b) < elf_shnum(b) {
        name_chars(
            cstr_from(
                b,
                elf_sh_offset(b, elf_shstrndx(b)) + elf_sh_name(b, i),
                elf_sh_offset(b, elf_shstrndx(b)) + elf_sh_size(b, elf_shstrndx(b)),
            ),
        )
    } else {
        Seq::empty()
    }
}

/// The normalized record of section `i`: `SHT_NOBITS` sections have no file
/// range; all others are backed by `[sh_offset, sh_offset + sh_size)`.
pub open spec fn elf_sec_rec(b: Seq<u8>, i: int) -> SectionRec {
    SectionRec {
        index: i,
        address: elf_sh_addr(b, i),
        size: elf_sh_size(b, i),
        align: elf_sh_align(b, i),
        file_range: if elf_sh_type(b, i) == NOBITS_TYPE {
            None
        } else {
            Some((elf_sh_offset(b, i), elf_sh_size(b, i)))
        },
        name: elf_sec_name(b, i),
    }
}

pub open spec fn elf_symsize(b: Seq<u8>) -> int {
    if elf_is64(b) {
        24
    } else {
        16
    }
}

/// The `st_info` byte of the symbol entry at `base`.
pub open spec fn elf_st_info(b: Seq<u8>, base: int) -> int {
    if elf_is64(b) {
        b[base + 4] as int
    } else {
        b[base + 12] as int
    }
}

/// The normalized kind of an ELF symbol type: object, function, section,
/// file and TLS symbols map to their kinds; every other type is `Unknown`.
pub open spec fn elf_sym_kind(t: int) -> SymbolKind {
    if t == 1 {
        SymbolKind::Data
    } else if t == 2 {
        SymbolKind::Text
    } else if t == 3 {
        SymbolKind::Section
    } else if t == 4 {
        SymbolKind::File
    } else if t == 6 {
        SymbolKind::Tls
    } else {
        SymbolKind::Unknown
    }
}

/// The name of the symbol entry at `base` of symbol table section `s`,
/// resolved through that table's linked string table (`sh_link`); empty when
/// the link is out of range.
pub open spec fn elf_sym_name(b: Seq<u8>, s: int, base: int) -> Seq<char> {
    if 0 <= elf_sh_link(b, s) < elf_shnum(b) {
        name_chars(
            cstr_from(
                b,
                elf_sh_offset(b, elf_sh_link(b, s)) + u32_at(b, base, elf_le(b)),
                elf_sh_offset(b, elf_sh_link(b, s)) + elf_sh_size(b, elf_sh_link(b, s)),
            ),
        )
    } else {
        Seq::empty()
    }
}

/// The normalized record of entry `j` of symbol table section `s`.  Entry 0
/// of every ELF symbol table is the reserved null symbol.
pub open spec fn elf_sym_rec(b: Seq<u8>, s: int, j: int) -> SymbolRec {
    let base = elf_sh_offset(b, s) + j * elf_symsize(b);
    SymbolRec {
        index: j,
        name: elf_sym_name(b, s, base),
        address: if elf_is64(b) {
            u64_at(b, base + 8, elf_le(b))
        } else {
            u32_at(b, base + 4, elf_le(b))
        },
        kind: if j == 0 {
            SymbolKind::Null
        } else {
            elf_sym_kind(elf_st_info(b, base) % 16)
        },
    }
}

/// How many whole entries symbol table section `s` holds.
pub open spec fn elf_table_count(b: Seq<u8>, s: int) -> int {
    elf_sh_size(b, s) / elf_symsize(b)
}

pub open spec fn elf_table_syms(b: Seq<u8>, s: int) -> Seq<SymbolRec> {
    Seq::new(elf_table_count(b, s) as nat, |j: int| elf_sym_rec(b, s, j))
}

/// Whether section `i` is a symbol table of the given type.
pub open spec fn elf_is_table(b: Seq<u8>, i: int, ty: int) -> bool {
    elf_sh_type(b, i) == ty
}

/// All symbols of the tables of type `ty`, from section `i` on, concatenated
/// in section order.
pub open spec fn elf_syms_from(b: Seq<u8>, ty: int, i: int) -> Seq<SymbolRec>
    decreases elf_shnum(b) - i,
{
    if i < 0 || i >= elf_shnum(b) {
        Seq::empty()
    } else if elf_is_table(b, i, ty) {
        elf_table_syms(b, i) + elf_syms_from(b, ty, i + 1)
    } else {
        elf_syms_from(b, ty, i + 1)
    }
}

// ---------------------------------------------------------------------------
// Validation.
// ---------------------------------------------------------------------------

/// Whether symbol table section `i` claims bytes beyond the buffer.
pub open spec fn elf_table_truncated(b: Seq<u8>, i: int) -> bool {
    elf_sh_offset(b, i) + elf_sh_size(b, i) > b.len()
}

/// The first symbol table section, of either type, that is truncated; -1
/// when none is.
pub open spec fn elf_first_bad(b: Seq<u8>, i: int) -> int
    decreases elf_shnum(b) - i,
{
    if i < 0 || i >= elf_shnum(b) {
        -1
    } else if (elf_is_table(b, i, SYMTAB_TYPE as int) || elf_is_table(b, i, DYNSYM_TYPE as int))
        && elf_table_truncated(b, i) {
        i
    } else {
        elf_first_bad(b, i + 1)
    }
}

/// What parsing an ELF buffer yields: the exact normalized tables, or the
/// exact typed failure.
pub open spec fn elf_outcome(b: Seq<u8>) -> Result<FileRec, ErrorRec> {
    if !elf_ident_ok(b) {
        Err(ErrorRec { kind: ErrorKind::MalformedHeader, offset: 4 })
    } else if b.len() < elf_ehsize(b) {
        Err(ErrorRec { kind: ErrorKind::MalformedHeader, offset: 0 })
    } else if elf_shoff(b) == 0 {
        Ok(
            FileRec {
                format: BinaryFormat::Elf,
                sections: Seq::empty(),
                symbols: Seq::empty(),
                dynamic: Seq::empty(),
            },
        )
    } else if elf_shentsize(b) != elf_expected_entsize(b) {
        Err(ErrorRec { kind: ErrorKind::MalformedHeader, offset: elf_shentsize_field(b) })
    } else if elf_shoff(b) + elf_shnum(b) * elf_shentsize(b) > b.len() {
        Err(ErrorRec { kind: ErrorKind::TruncatedTable, offset: elf_shoff_field(b) })
    } else if elf_first_bad(b, 0) >= 0 {
        Err(
            ErrorRec {
                kind: ErrorKind::TruncatedTable,
                offset: elf_sh_offset_field(b, elf_first_bad(b, 0)),
            },
        )
    } else {
        Ok(
            FileRec {
                format: BinaryFormat::Elf,
                sections: Seq::new(elf_shnum(b) as nat, |i: int| elf_sec_rec(b, i)),
                symbols: elf_syms_from(b, SYMTAB_TYPE as int, 0),
                dynamic: elf_syms_from(b, DYNSYM_TYPE as int, 0),
            },
        )
    }
}

/// Skipping sections that are not truncated symbol tables does not change
/// which truncated table is found first.
proof fn lemma_first_bad_skip(b: Seq<u8>, i: int)
    requires
        0 <= i <= elf_shnum(b),
        forall|k: int|
            0 <= k < i ==> !((elf_is_table(b, k, SYMTAB_TYPE as int) || elf_is_table(
                b,
                k,
                DYNSYM_TYPE as int,
            )) && elf_table_truncated(b, k)),
    ensures
        elf_first_bad(b, 0) == elf_first_bad(b, i),
    decreases i,
{
    if i > 0 {
        lemma_first_bad_skip_step(b, i - 1);
        lemma_first_bad_skip(b, i - 1);
    }
}

proof fn lemma_first_bad_skip_step(b: Seq<u8>, k: int)
    requires
        0 <= k < elf_shnum(b),
        !((elf_is_table(b, k, SYMTAB_TYPE as int) || elf_is_table(b, k, DYNSYM_TYPE as int))
            && elf_table_truncated(b, k)),
    ensures
        elf_first_bad(b, k) == elf_first_bad(b, k + 1),
{
}

/// A successful parse of an ELF buffer with a section table yields exactly
/// as many section records as the header's section count field declares,
/// each carrying its table position as its index.
pub proof fn lemma_elf_counts(b: Seq<u8>)
    requires
        elf_outcome(b) is Ok,
        elf_shoff(b) != 0,
    ensures
        (elf_outcome(b)->Ok_0).sections.len() == elf_shnum(b),
        forall|i: int|
            0 <= i < elf_shnum(b) ==> (#[trigger] (elf_outcome(b)->Ok_0).sections[i]).index == i,
{
}

// ---------------------------------------------------------------------------
// The reader.
// ---------------------------------------------------------------------------

/// The header fields the reader carries around, tied to the buffer by
/// [`hdr_ok`].
struct Hdr {
    is64: bool,
    le: bool,
    shoff: u64,
    shentsize: u16,
    shnum: u16,
    shstrndx: u16,
}

spec fn hdr_ok(h: Hdr, b: Seq<u8>) -> bool {
    &&& elf_ident_ok(b)
    &&& b.len() >= elf_ehsize(b)
    &&& h.is64 == elf_is64(b)
    &&& h.le == elf_le(b)
    &&& h.shoff == elf_shoff(b)
    &&& h.shentsize == elf_shentsize(b)
    &&& h.shnum == elf_shnum(b)
    &&& h.shstrndx == elf_shstrndx(b)
}

/// The section table is fully inside the buffer, with the entry size the
/// class defines.
spec fn table_ok(b: Seq<u8>) -> bool {
    &&& elf_shoff(b) > 0
    &&& elf_shentsize(b) == elf_expected_entsize(b)
    &&& elf_shoff(b) + elf_shnum(b) * elf_shentsize(b) <= b.len()
}

/// The file offset of section header `i`, with the bounds that make every
/// field of the entry readable.
fn sec_base(data: &Vec<u8>, h: &Hdr, i: usize) -> (base: usize)
    requires
        hdr_ok(*h, data@),
        table_ok(data@),
        i < h.shnum,
    ensures
        base == elf_sh_base(data@, i as int),
        base + elf_expected_entsize(data@) <= data@.len(),
        data@.len() <= usize::MAX,
{
    let ghost b = data@;
    let ent: usize = if h.is64 {
        64
    } else {
        40
    };
    proof {
        lemma_mul_inequality(i as int + 1, h.shnum as int, ent as int);
        assert((i as int + 1) * ent == i as int * ent + ent) by (nonlinear_arith);
    }
    let _n = data.len();
    let base = (h.shoff as usize) + i * ent;
    base
}

/// Read the `sh_offset` and `sh_size` fields of section header `i`.
fn sec_off_size(data: &Vec<u8>, h: &Hdr, i: usize) -> (r: (u64, u64))
    requires
        hdr_ok(*h, data@),
        table_ok(data@),
        i < h.shnum,
    ensures
        r.0 == elf_sh_offset(data@, i as int),
        r.1 == elf_sh_size(data@, i as int),
{
    let base = sec_base(data, h, i);
    if h.is64 {
        (read_u64(data, base + 0x18, h.le), read_u64(data, base + 0x20, h.le))
    } else {
        (read_u32(data, base + 0x10, h.le) as u64, read_u32(data, base + 0x14, h.le) as u64)
    }
}

/// Read section header `i` into its normalized record, resolving its name
/// through the section name string table at `[stroff, stroff + strsize)`.
fn read_section(data: &Vec<u8>, h: &Hdr, i: usize, has_str: bool, stroff: u64, strsize: u64) -> (r:
    SectionInfo)
    requires
        hdr_ok(*h, data@),
        table_ok(data@),
        i < h.shnum,
        has_str == (0 <= elf_shstrndx(data@) < elf_shnum(data@)),
        has_str ==> stroff == elf_sh_offset(data@, elf_shstrndx(data@)) && strsize == elf_sh_size(
            data@,
            elf_shstrndx(data@),
        ),
    ensures
        r@ == elf_sec_rec(data@, i as int),
{
    let base = sec_base(data, h, i);
    let name_off = read_u32(data, base, h.le);
    let sh_type = read_u32(data, base + 4, h.le);
    let (address, offset, size, align): (u64, u64, u64, u64) = if h.is64 {
        (
            read_u64(data, base + 0x10, h.le),
            read_u64(data, base + 0x18, h.le),
            read_u64(data, base + 0x20, h.le),
            read_u64(data, base + 0x30, h.le),
        )
    } else {
        (
            read_u32(data, base + 0x0c, h.le) as u64,
            read_u32(data, base + 0x10, h.le) as u64,
            read_u32(data, base + 0x14, h.le) as u64,
            read_u32(data, base + 0x20, h.le) as u64,
        )
    };
    let name: String = if has_str {
        resolve_name(data, stroff, strsize, name_off as u64)
    } else {
        String::new()
    };
    SectionInfo {
        index: i,
        address,
        size,
        align,
        file_range: if sh_type == NOBITS_TYPE {
            None
        } else {
            Some((offset, size))
        },
        name,
    }
}

/// The normalized kind of an ELF symbol type nibble.
fn sym_kind_of(t: u8) -> (r: SymbolKind)
    ensures
        r == elf_sym_kind(t as int),
{
    if t == 1 {
        SymbolKind::Data
    } else if t == 2 {
        SymbolKind::Text
    } else if t == 3 {
        SymbolKind::Section
    } else if t == 4 {
        SymbolKind::File
    } else if t == 6 {
        SymbolKind::Tls
    } else {
        SymbolKind::Unknown
    }
}

/// Append every entry of symbol table section `s`, normalized, to `out`.
fn append_table_symbols(data: &Vec<u8>, h: &Hdr, s: usize, out: &mut Vec<SymbolInfo>)
    requires
        hdr_ok(*h, data@),
        table_ok(data@),
        s < h.shnum,
        !elf_table_truncated(data@, s as int),
    ensures
        syms_rec(final(out)@) == syms_rec(old(out)@) + elf_table_syms(data@, s as int),
{
    let ghost b = data@;
    let (off, size) = sec_off_size(data, h, s);
    let n = data.len();
    let symsz: u64 = if h.is64 {
        24
    } else {
        16
    };
    let count = (size / symsz) as usize;
    proof {
        vstd::arithmetic::div_mod::lemma_fundamental_div_mod(size as int, symsz as int);
        assert(elf_table_count(b, s as int) == count);
    }
    // The linked string table, when its index is in range.
    let link = if h.is64 {
        read_u32(data, sec_base(data, h, s) + 0x28, h.le)
    } else {
        read_u32(data, sec_base(data, h, s) + 0x18, h.le)
    };
    let has_str = (link as u64) < (h.shnum as u64);
    let (stroff, strsize): (u64, u64) = if has_str {
        sec_off_size(data, h, link as usize)
    } else {
        (0, 0)
    };
    let off_us = off as usize;
    let mut j: usize = 0;
    while j < count
        invariant
            hdr_ok(*h, b),
            table_ok(b),
            b == data@,
            s < h.shnum,
            !elf_table_truncated(b, s as int),
            n == b.len(),
            off == elf_sh_offset(b, s as int),
            off_us == off,
            size == elf_sh_size(b, s as int),
            symsz == elf_symsize(b),
            count == elf_table_count(b, s as int),
            count as int * symsz as int <= size,
            has_str == (0 <= elf_sh_link(b, s as int) < elf_shnum(b)),
            has_str ==> stroff == elf_sh_offset(b, elf_sh_link(b, s as int)) && strsize
                == elf_sh_size(b, elf_sh_link(b, s as int)),
            j <= count,
            out@.len() == old(out)@.len() + j,
            forall|k: int| 0 <= k < old(out)@.len() ==> (#[trigger] out@[k])@ == old(out)@[k]@,
            forall|k: int|
                old(out)@.len() <= k < old(out)@.len() + j ==> (#[trigger] out@[k])@
                    == elf_sym_rec(b, s as int, k - old(out)@.len()),
        decreases count - j,
    {
        proof {
            lemma_mul_inequality(j as int + 1, count as int, symsz as int);
            assert((j as int + 1) * symsz == j as int * symsz + symsz) by (nonlinear_arith);
        }
        let base = off_us + j * (symsz as usize);
        let name_off = read_u32(data, base, h.le);
        let (address, info): (u64, u8) = if h.is64 {
            (read_u64(data, base + 8, h.le), data[base + 4])
        } else {
            (read_u32(data, base + 4, h.le) as u64, data[base + 12])
        };
        let name: String = if has_str {
            resolve_name(data, stroff, strsize, name_off as u64)
        } else {
            String::new()
        };
        let kind = if j == 0 {
            SymbolKind::Null
        } else {
            sym_kind_of(info % 16)
        };
        let rec = SymbolInfo { index: j, name, address, kind };
        assert(rec@ == elf_sym_rec(b, s as int, j as int));
        out.push(rec);
        j = j + 1;
    }
    assert(syms_rec(out@) =~= syms_rec(old(out)@) + elf_table_syms(b, s as int));
}

/// Parse an ELF buffer: its section table into normalized section records,
/// its `SHT_SYMTAB` tables into the regular symbol list and its `SHT_DYNSYM`
/// tables into the dynamic one, exactly as [`elf_outcome`] says, and never
/// reading out of bounds.
pub fn parse_elf(data: &Vec<u8>) -> (r: Result<ParsedFile, Error>)
    ensures
        match r {
            Ok(pf) => pf.wf() && elf_outcome(data@) == Ok::<FileRec, ErrorRec>(pf@),
            Err(e) => elf_outcome(data@) == Err::<FileRec, ErrorRec>(e@),
        },
{
    let ghost b = data@;
    let n = data.len();
    if n < 6 || (data[4] != 1 && data[4] != 2) || (data[5] != 1 && data[5] != 2) {
        return Err(Error { kind: ErrorKind::MalformedHeader, offset: 4 });
    }
    let is64 = data[4] == 2;
    let le = data[5] == 1;
    let ehsize: usize = if is64 {
        64
    } else {
        52
    };
    if n < ehsize {
        return Err(Error { kind: ErrorKind::MalformedHeader, offset: 0 });
    }
    let h = Hdr {
        is64,
        le,
        shoff: if is64 {
            read_u64(data, 0x28, le)
        } else {
            read_u32(data, 0x20, le) as u64
        },
        shentsize: if is64 {
            read_u16(data, 0x3a, le)
        } else {
            read_u16(data, 0x2e, le)
        },
        shnum: if is64 {
            read_u16(data, 0x3c, le)
        } else {
            read_u16(data, 0x30, le)
        },
        shstrndx: if is64 {
            read_u16(data, 0x3e, le)
        } else {
            read_u16(data, 0x32, le)
        },
    };
    assert(hdr_ok(h, b));
    if h.shoff == 0 {
        let pf = ParsedFile {
            format: BinaryFormat::Elf,
            sections: Vec::new(),
            symbols: Vec::new(),
            dynamic: Vec::new(),
        };
        assert(secs_rec(pf.sections@) =~= Seq::<SectionRec>::empty());
        assert(syms_rec(pf.symbols@) =~= Seq::<SymbolRec>::empty());
        return Ok(pf);
    }
    let exp: u16 = if is64 {
        64
    } else {
        40
    };
    if h.shentsize != exp {
        return Err(
            Error {
                kind: ErrorKind::MalformedHeader,
                offset: if is64 {
                    0x3a
                } else {
                    0x2e
                },
            },
        );
    }
    let n64 = n as u64;
    let need = (h.shnum as u64) * (h.shentsize as u64);
    if h.shoff > n64 || need > n64 - h.shoff {
        return Err(
            Error {
                kind: ErrorKind::TruncatedTable,
                offset: if is64 {
                    0x28
                } else {
                    0x20
                },
            },
        );
    }
    assert(table_ok(b));
    // The section name string table, when the header points at one.
    let has_str = h.shstrndx < h.shnum;
    let (stroff, strsize): (u64, u64) = if has_str {
        sec_off_size(data, &h, h.shstrndx as usize)
    } else {
        (0, 0)
    };
    // The section table.
    let shnum = h.shnum as usize;
    let mut sections: Vec<SectionInfo> = Vec::new();
    let mut i: usize = 0;
    while i < shnum
        invariant
            hdr_ok(h, b),
            table_ok(b),
            b == data@,
            shnum == h.shnum,
            has_str == (0 <= elf_shstrndx(b) < elf_shnum(b)),
            has_str ==> stroff == elf_sh_offset(b, elf_shstrndx(b)) && strsize == elf_sh_size(
                b,
                elf_shstrndx(b),
            ),
            i <= shnum,
            sections@.len() == i,
            forall|k: int| 0 <= k < i ==> (#[trigger] sections@[k])@ == elf_sec_rec(b, k),
        decreases shnum - i,
    {
        let s = read_section(data, &h, i, has_str, stroff, strsize);
        sections.push(s);
        i = i + 1;
    }
    // The symbol tables: bounds-check each, in section order, then collect.
    let mut symbols: Vec<SymbolInfo> = Vec::new();
    let mut dynamic: Vec<SymbolInfo> = Vec::new();
    let mut i: usize = 0;
    while i < shnum
        invariant
            hdr_ok(h, b),
            table_ok(b),
            b == data@,
            n == b.len(),
            is64 == elf_is64(b),
            shnum == h.shnum,
            i <= shnum,
            forall|k: int|
                0 <= k < i ==> !((elf_is_table(b, k, SYMTAB_TYPE as int) || elf_is_table(
                    b,
                    k,
                    DYNSYM_TYPE as int,
                )) && elf_table_truncated(b, k)),
            syms_rec(symbols@) + elf_syms_from(b, SYMTAB_TYPE as int, i as int) =~= elf_syms_from(
                b,
                SYMTAB_TYPE as int,
                0,
            ),
            syms_rec(dynamic@) + elf_syms_from(b, DYNSYM_TYPE as int, i as int) =~= elf_syms_from(
                b,
                DYNSYM_TYPE as int,
                0,
            ),
        decreases shnum - i,
    {
        let base = sec_base(data, &h, i);
        let sh_type = read_u32(data, base + 4, h.le);
        if sh_type == SYMTAB_TYPE || sh_type == DYNSYM_TYPE {
            let (off, size) = sec_off_size(data, &h, i);
            let n64 = n as u64;
            if off > n64 || size > n64 - off {
                proof {
                    lemma_first_bad_skip(b, i as int);
                    assert(elf_table_truncated(b, i as int));
                    assert(elf_first_bad(b, 0) == i as int);
                }
                return Err(
                    Error {
                        kind: ErrorKind::TruncatedTable,
                        offset: base + if is64 {
                            0x18
                        } else {
                            0x10
                        },
                    },
                );
            }
            if sh_type == SYMTAB_TYPE {
                append_table_symbols(data, &h, i, &mut symbols);
            } else {
                append_table_symbols(data, &h, i, &mut dynamic);
            }
        }
        proof {
            assert(elf_syms_from(b, SYMTAB_TYPE as int, i as int) == if elf_is_table(
                b,
                i as int,
                SYMTAB_TYPE as int,
            ) {
                elf_table_syms(b, i as int) + elf_syms_from(b, SYMTAB_TYPE as int, i as int + 1)
            } else {
                elf_syms_from(b, SYMTAB_TYPE as int, i as int + 1)
            });
            assert(elf_syms_from(b, DYNSYM_TYPE as int, i as int) == if elf_is_table(
                b,
                i as int,
                DYNSYM_TYPE as int,
            ) {
                elf_table_syms(b, i as int) + elf_syms_from(b, DYNSYM_TYPE as int, i as int + 1)
            } else {
                elf_syms_from(b, DYNSYM_TYPE as int, i as int + 1)
            });
        }
        i = i + 1;
    }
    proof {
        lemma_first_bad_skip(b, shnum as int);
    }
    let pf = ParsedFile { format: BinaryFormat::Elf, sections, symbols, dynamic };
    proof {
        assert(secs_rec(pf.sections@) =~= Seq::new(elf_shnum(b) as nat, |i: int| elf_sec_rec(b, i)));
        assert(syms_rec(pf.symbols@) =~= elf_syms_from(b, SYMTAB_TYPE as int, 0));
        assert(syms_rec(pf.dynamic@) =~= elf_syms_from(b, DYNSYM_TYPE as int, 0));
    }
    Ok(pf)
}

} // verus!
