//! The COFF reader, and the PE reader that wraps it: a PE image is a DOS
//! stub whose `e_lfanew` field points at the `PE\0\0` signature, followed by
//! a COFF file header; a bare COFF object starts with that header directly.
//!
//! COFF is little-endian throughout.  Sections come from the section table
//! behind the optional header; symbols from the COFF symbol table, whose
//! auxiliary records are skipped; long names resolve through the string
//! table that follows the symbol table.  Neither format keeps a dynamic
//! symbol table, so the dynamic list is always empty.

use vstd::prelude::*;
use vstd::arithmetic::mul::lemma_mul_inequality;
use crate::bytes::{cstr_from, name_chars, read_u16, read_u32, resolve_name, u16_le, u32_le};
use crate::error::{Error, ErrorKind, ErrorRec};
use crate::file::{FileRec, ParsedFile};
use crate::records::{secs_rec, syms_rec, BinaryFormat, SectionInfo, SectionRec, SymbolInfo,
    SymbolKind, SymbolRec};

verus! {

// ---------------------------------------------------------------------------
// Header fields, relative to the file header at `base`.
// ---------------------------------------------------------------------------

pub open spec fn coff_nsects(b: Seq<u8>, base: int) -> int {
    u16_le(b, base + 2)
}

pub open spec fn coff_symptr(b: Seq<u8>, base: int) -> int {
    u32_le(b, base + 8)
}

pub open spec fn coff_nsyms(b: Seq<u8>, base: int) -> int {
    u32_le(b, base + 12)
}

pub open spec fn coff_optsize(b: Seq<u8>, base: int) -> int {
    u16_le(b, base + 16)
}

/// Where the section table starts: after the file header and the optional
/// header.
pub open spec fn coff_sec_table(b: Seq<u8>, base: int) -> int {
    base + 20 + coff_optsize(b, base)
}

// ---------------------------------------------------------------------------
// Sections.
// ---------------------------------------------------------------------------

pub open spec fn coff_sec_base(b: Seq<u8>, base: int, i: int) -> int {
    coff_sec_table(b, base) + i * 40
}

pub open spec fn coff_sec_vsize(b: Seq<u8>, base: int, i: int) -> int {
    u32_le(b, coff_sec_base(b, base, i) + 8)
}

pub open spec fn coff_sec_vaddr(b: Seq<u8>, base: int, i: int) -> int {
    u32_le(b, coff_sec_base(b, base, i) + 12)
}

pub open spec fn coff_sec_rawsize(b: Seq<u8>, base: int, i: int) -> int {
    u32_le(b, coff_sec_base(b, base, i) + 16)
}

pub open spec fn coff_sec_rawptr(b: Seq<u8>, base: int, i: int) -> int {
    u32_le(b, coff_sec_base(b, base, i) + 20)
}

pub open spec fn coff_sec_chars(b: Seq<u8>, base: int, i: int) -> int {
    u32_le(b, coff_sec_base(b, base, i) + 36)
}

/// A section's size: its virtual size, or — in object files, where that
/// field is zero — its raw data size.
pub open spec fn coff_sec_size(b: Seq<u8>, base: int, i: int) -> int {
    if coff_sec_vsize(b, base, i) != 0 {
        coff_sec_vsize(b, base, i)
    } else {
        coff_sec_rawsize(b, base, i)
    }
}

/// A section's alignment, from the `IMAGE_SCN_ALIGN` nibble of its
/// characteristics: the nibble `n` encodes an alignment of `2^(n-1)` bytes,
/// with 0 meaning the default of 1.
pub open spec fn coff_sec_align(b: Seq<u8>, base: int, i: int) -> int {
    let n = (coff_sec_chars(b, base, i) / 0x10_0000) % 16;
    if n == 0 {
        1
    } else {
        (1u64 << ((n - 1) as u64)) as int
    }
}

/// A section's name: the NUL-terminated bytes of its 8-byte name field.  A
/// long name held in the string table is handed back in its raw `/offset`
/// form.
pub open spec fn coff_sec_name(b: Seq<u8>, base: int, i: int) -> Seq<char> {
    name_chars(cstr_from(b, coff_sec_base(b, base, i), coff_sec_base(b, base, i) + 8))
}

pub open spec fn coff_sec_rec(b: Seq<u8>, base: int, i: int) -> SectionRec {
    SectionRec {
        index: i,
        address: coff_sec_vaddr(b, base, i),
        size: coff_sec_size(b, base, i),
        align: coff_sec_align(b, base, i),
        file_range: if coff_sec_rawptr(b, base, i) == 0 {
            None
        } else {
            Some((coff_sec_rawptr(b, base, i), coff_sec_rawsize(b, base, i)))
        },
        name: coff_sec_name(b, base, i),
    }
}

// ---------------------------------------------------------------------------
// Symbols.
// ---------------------------------------------------------------------------

/// Where the string table starts: right behind the symbol table.
pub open spec fn coff_strtab(b: Seq<u8>, base: int) -> int {
    coff_symptr(b, base) + coff_nsyms(b, base) * 18
}

/// The string table's size, read from its own leading word; zero when even
/// that word is beyond the buffer.
pub open spec fn coff_strsize(b: Seq<u8>, base: int) -> int {
    if coff_strtab(b, base) + 4 <= b.len() {
        u32_le(b, coff_strtab(b, base))
    } else {
        0
    }
}

pub open spec fn coff_sym_base(b: Seq<u8>, base: int, i: int) -> int {
    coff_symptr(b, base) + i * 18
}

/// How many auxiliary records follow symbol entry `i`.
pub open spec fn coff_sym_naux(b: Seq<u8>, base: int, i: int) -> int {
    b[coff_sym_base(b, base, i) + 17] as int
}

/// A symbol's name: its 8 name bytes when they hold one, else — when their
/// first word is zero — the name at the offset their second word gives into
/// the string table.
pub open spec fn coff_sym_name(b: Seq<u8>, base: int, i: int) -> Seq<char> {
    let ebase = coff_sym_base(b, base, i);
    if u32_le(b, ebase) == 0 {
        name_chars(
            cstr_from(
                b,
                coff_strtab(b, base) + u32_le(b, ebase + 4),
                coff_strtab(b, base) + coff_strsize(b, base),
            ),
        )
    } else {
        name_chars(cstr_from(b, ebase, ebase + 8))
    }
}

/// The normalized kind of a COFF symbol: file records map to `File`, labels
/// to `Label`, functions (complex type `DT_FCN`) to `Text`, static symbols
/// at value 0 to `Section` markers, and everything else to `Data`.
pub open spec fn coff_sym_kind(class: int, typ: int, value: int) -> SymbolKind {
    if class == 103 {
        SymbolKind::File
    } else if class == 6 {
        SymbolKind::Label
    } else if (typ / 16) % 16 == 2 {
        SymbolKind::Text
    } else if class == 3 && value == 0 {
        SymbolKind::Section
    } else {
        SymbolKind::Data
    }
}

/// The normalized record of symbol entry `i`, as symbol number `ord` of the
/// parsed table.
pub open spec fn coff_sym_rec(b: Seq<u8>, base: int, i: int, ord: int) -> SymbolRec {
    let ebase = coff_sym_base(b, base, i);
    SymbolRec {
        index: ord,
        name: coff_sym_name(b, base, i),
        address: u32_le(b, ebase + 8),
        kind: coff_sym_kind(b[ebase + 16] as int, u16_le(b, ebase + 14), u32_le(b, ebase + 8)),
    }
}

/// The normalized symbols from entry `i` on: each entry yields one record
/// and its auxiliary records are skipped.
pub open spec fn coff_syms_from(b: Seq<u8>, base: int, i: int, ord: int) -> Seq<SymbolRec>
    decreases (if i <= coff_nsyms(b, base) {
        coff_nsyms(b, base) - i
    } else {
        0
    }),
{
    if i < 0 || i >= coff_nsyms(b, base) {
        Seq::empty()
    } else {
        seq![coff_sym_rec(b, base, i, ord)] + coff_syms_from(
            b,
            base,
            i + 1 + coff_sym_naux(b, base, i),
            ord + 1,
        )
    }
}

// ---------------------------------------------------------------------------
// Validation and outcome.
// ---------------------------------------------------------------------------

/// What parsing a COFF file header at `base`, labelled `fmt`, yields.
pub open spec fn coff_outcome(b: Seq<u8>, base: int, fmt: BinaryFormat) -> Result<
    FileRec,
    ErrorRec,
> {
    if base + 20 > b.len() {
        Err(ErrorRec { kind: ErrorKind::MalformedHeader, offset: base })
    } else if coff_sec_table(b, base) + coff_nsects(b, base) * 40 > b.len() {
        Err(ErrorRec { kind: ErrorKind::TruncatedTable, offset: base + 2 })
    } else if coff_symptr(b, base) != 0 && coff_nsyms(b, base) != 0 && coff_symptr(b, base)
        + coff_nsyms(b, base) * 18 > b.len() {
        Err(ErrorRec { kind: ErrorKind::TruncatedTable, offset: base + 8 })
    } else {
        Ok(
            FileRec {
                format: fmt,
                sections: Seq::new(
                    coff_nsects(b, base) as nat,
                    |i: int| coff_sec_rec(b, base, i),
                ),
                symbols: if coff_symptr(b, base) != 0 && coff_nsyms(b, base) != 0 {
                    coff_syms_from(b, base, 0, 0)
                } else {
                    Seq::empty()
                },
                dynamic: Seq::empty(),
            },
        )
    }
}

/// What parsing a PE image yields: the DOS stub's `e_lfanew` word is
/// followed to the `PE\0\0` signature, and the COFF header behind it is
/// parsed as above.
pub open spec fn pe_outcome(b: Seq<u8>) -> Result<FileRec, ErrorRec> {
    if b.len() < 0x40 {
        Err(ErrorRec { kind: ErrorKind::MalformedHeader, offset: 0x3c })
    } else if u32_le(b, 0x3c) + 4 > b.len() {
        Err(ErrorRec { kind: ErrorKind::MalformedHeader, offset: 0x3c })
    } else if !(b[u32_le(b, 0x3c)] == 0x50 && b[u32_le(b, 0x3c) + 1] == 0x45 && b[u32_le(b, 0x3c)
        + 2] == 0 && b[u32_le(b, 0x3c) + 3] == 0) {
        Err(ErrorRec { kind: ErrorKind::MalformedHeader, offset: u32_le(b, 0x3c) })
    } else {
        coff_outcome(b, u32_le(b, 0x3c) + 4, BinaryFormat::Pe)
    }
}

// ---------------------------------------------------------------------------
// The reader.
// ---------------------------------------------------------------------------

/// Parse the COFF structure whose file header sits at `base`.
fn parse_coff_at(data: &Vec<u8>, base: usize, pe: bool) -> (r: Result<ParsedFile, Error>)
    requires
        base + 20 <= data@.len(),
    ensures
        ({
            let fmt = if pe {
                BinaryFormat::Pe
            } else {
                BinaryFormat::Coff
            };
            match r {
                Ok(pf) => pf.wf() && coff_outcome(data@, base as int, fmt) == Ok::<
                    FileRec,
                    ErrorRec,
                >(pf@),
                Err(e) => coff_outcome(data@, base as int, fmt) == Err::<FileRec, ErrorRec>(e@),
            }
        }),
{
    let ghost b = data@;
    let ghost fmt_g = if pe {
        BinaryFormat::Pe
    } else {
        BinaryFormat::Coff
    };
    let n = data.len();
    let n64 = n as u64;
    let nsects = read_u16(data, base + 2, true);
    let symptr = read_u32(data, base + 8, true);
    let nsyms = read_u32(data, base + 12, true);
    let optsize = read_u16(data, base + 16, true);
    // The section table.
    let after_hdr: u64 = base as u64 + 20;
    let rem: u64 = n64 - after_hdr;
    let sec_need: u64 = (nsects as u64) * 40;
    if optsize as u64 > rem || sec_need > rem - optsize as u64 {
        return Err(Error { kind: ErrorKind::TruncatedTable, offset: base + 2 });
    }
    let sec_table: u64 = after_hdr + optsize as u64;
    let sec_table_us = sec_table as usize;
    let mut sections: Vec<SectionInfo> = Vec::new();
    let nsects_us = nsects as usize;
    let mut i: usize = 0;
    while i < nsects_us
        invariant
            b == data@,
            n == b.len(),
            base + 20 <= n,
            nsects_us == nsects,
            nsects == coff_nsects(b, base as int),
            sec_table_us == coff_sec_table(b, base as int),
            sec_table_us + nsects as int * 40 <= n,
            i <= nsects_us,
            sections@.len() == i,
            forall|k: int|
                0 <= k < i ==> (#[trigger] sections@[k])@ == coff_sec_rec(b, base as int, k),
        decreases nsects_us - i,
    {
        proof {
            lemma_mul_inequality(i as int + 1, nsects as int, 40);
            assert((i as int + 1) * 40 == i as int * 40 + 40) by (nonlinear_arith);
        }
        let sbase = sec_table_us + i * 40;
        let vsize = read_u32(data, sbase + 8, true);
        let vaddr = read_u32(data, sbase + 12, true);
        let rawsize = read_u32(data, sbase + 16, true);
        let rawptr = read_u32(data, sbase + 20, true);
        let chars = read_u32(data, sbase + 36, true);
        let alexp = ((chars >> 20) & 0xf) as u64;
        proof {
            assert((chars >> 20) & 0xf == (chars / 0x10_0000) % 16) by (bit_vector);
            assert((chars / 0x10_0000) % 16 < 16) by (bit_vector);
        }
        let align: u64 = if alexp == 0 {
            1
        } else {
            1u64 << (alexp - 1)
        };
        let name = crate::bytes::read_name(data, sbase, sbase + 8);
        let rec = SectionInfo {
            index: i,
            address: vaddr as u64,
            size: if vsize != 0 {
                vsize as u64
            } else {
                rawsize as u64
            },
            align,
            file_range: if rawptr == 0 {
                None
            } else {
                Some((rawptr as u64, rawsize as u64))
            },
            name,
        };
        assert(rec@ == coff_sec_rec(b, base as int, i as int));
        sections.push(rec);
        i = i + 1;
    }
    // The symbol table.
    let mut symbols: Vec<SymbolInfo> = Vec::new();
    if symptr != 0 && nsyms != 0 {
        let sym_need: u64 = (nsyms as u64) * 18;
        if symptr as u64 > n64 || sym_need > n64 - symptr as u64 {
            return Err(Error { kind: ErrorKind::TruncatedTable, offset: base + 8 });
        }
        let symptr_us = symptr as usize;
        // The string table sits right behind the symbol table.
        let strtab: u64 = symptr as u64 + sym_need;
        let strsize: u64 = if strtab + 4 <= n64 {
            read_u32(data, strtab as usize, true) as u64
        } else {
            0
        };
        let nsyms_us = nsyms as usize;
        let mut i: usize = 0;
        while i < nsyms_us
            invariant
                b == data@,
                n == b.len(),
                base + 20 <= n,
                nsyms_us == nsyms,
                nsyms == coff_nsyms(b, base as int),
                symptr == coff_symptr(b, base as int),
                symptr_us == symptr,
                symptr as int + nsyms as int * 18 <= n,
                strtab == coff_strtab(b, base as int),
                strsize == coff_strsize(b, base as int),
                i <= nsyms_us + 255,
                syms_rec(symbols@) + coff_syms_from(b, base as int, i as int, symbols@.len() as int)
                    =~= coff_syms_from(b, base as int, 0, 0),
            decreases nsyms_us + 256 - i,
        {
            proof {
                lemma_mul_inequality(i as int + 1, nsyms as int, 18);
                assert((i as int + 1) * 18 == i as int * 18 + 18) by (nonlinear_arith);
            }
            let ebase = symptr_us + i * 18;
            let name: String = if read_u32(data, ebase, true) == 0 {
                let off = read_u32(data, ebase + 4, true);
                resolve_name(data, strtab, strsize, off as u64)
            } else {
                crate::bytes::read_name(data, ebase, ebase + 8)
            };
            let value = read_u32(data, ebase + 8, true);
            let typ = read_u16(data, ebase + 14, true);
            let class = data[ebase + 16];
            let naux = data[ebase + 17];
            let kind = if class == 103 {
                SymbolKind::File
            } else if class == 6 {
                SymbolKind::Label
            } else if (typ >> 4) & 0xf == 2 {
                SymbolKind::Text
            } else if class == 3 && value == 0 {
                SymbolKind::Section
            } else {
                SymbolKind::Data
            };
            proof {
                assert((typ >> 4) & 0xf == (typ / 16) % 16) by (bit_vector);
            }
            let rec = SymbolInfo { index: symbols.len(), name, address: value as u64, kind };
            assert(rec@ == coff_sym_rec(b, base as int, i as int, symbols@.len() as int));
            let ghost prev = symbols@;
            let ghost i0 = i as int;
            let ghost ord = symbols@.len() as int;
            symbols.push(rec);
            i = i + 1 + naux as usize;
            proof {
                assert(coff_syms_from(b, base as int, i0, ord) =~= seq![
                    coff_sym_rec(b, base as int, i0, ord),
                ] + coff_syms_from(b, base as int, i as int, ord + 1));
                assert(syms_rec(symbols@) =~= syms_rec(prev) + seq![rec@]);
                assert(syms_rec(symbols@) + coff_syms_from(b, base as int, i as int, ord + 1)
                    =~= syms_rec(prev) + coff_syms_from(b, base as int, i0, ord));
            }
        }
        assert(coff_syms_from(b, base as int, i as int, symbols@.len() as int)
            =~= Seq::<SymbolRec>::empty());
    }
    let pf = ParsedFile {
        format: if pe {
            BinaryFormat::Pe
        } else {
            BinaryFormat::Coff
        },
        sections,
        symbols,
        dynamic: Vec::new(),
    };
    proof {
        assert(secs_rec(pf.sections@) =~= Seq::new(
            coff_nsects(b, base as int) as nat,
            |i: int| coff_sec_rec(b, base as int, i),
        ));
        if !(symptr != 0 && nsyms != 0) {
            assert(syms_rec(pf.symbols@) =~= Seq::<SymbolRec>::empty());
        } else {
            assert(syms_rec(pf.symbols@) =~= coff_syms_from(b, base as int, 0, 0));
        }
        assert(syms_rec(pf.dynamic@) =~= Seq::<SymbolRec>::empty());
    }
    Ok(pf)
}

/// Parse a bare COFF object: its file header starts the buffer.
pub fn parse_coff(data: &Vec<u8>) -> (r: Result<ParsedFile, Error>)
    ensures
        match r {
            Ok(pf) => pf.wf() && coff_outcome(data@, 0, BinaryFormat::Coff) == Ok::<
                FileRec,
                ErrorRec,
            >(pf@),
            Err(e) => coff_outcome(data@, 0, BinaryFormat::Coff) == Err::<FileRec, ErrorRec>(e@),
        },
{
    if data.len() < 20 {
        return Err(Error { kind: ErrorKind::MalformedHeader, offset: 0 });
    }
    parse_coff_at(data, 0, false)
}

/// Parse a PE image: follow `e_lfanew` to the signature, check it, and
/// parse the COFF header behind it.
pub fn parse_pe(data: &Vec<u8>) -> (r: Result<ParsedFile, Error>)
    ensures
        match r {
            Ok(pf) => pf.wf() && pe_outcome(data@) == Ok::<FileRec, ErrorRec>(pf@),
            Err(e) => pe_outcome(data@) == Err::<FileRec, ErrorRec>(e@),
        },
{
    let n = data.len();
    if n < 0x40 {
        return Err(Error { kind: ErrorKind::MalformedHeader, offset: 0x3c });
    }
    let pebase = read_u32(data, 0x3c, true);
    let n64 = n as u64;
    if pebase as u64 + 4 > n64 {
        return Err(Error { kind: ErrorKind::MalformedHeader, offset: 0x3c });
    }
    let pb = pebase as usize;
    if !(data[pb] == 0x50 && data[pb + 1] == 0x45 && data[pb + 2] == 0 && data[pb + 3] == 0) {
        return Err(Error { kind: ErrorKind::MalformedHeader, offset: pb });
    }
    if pb + 4 > n || n - (pb + 4) < 20 {
        return Err(Error { kind: ErrorKind::MalformedHeader, offset: pb + 4 });
    }
    parse_coff_at(data, pb + 4, true)
}

} // verus!
