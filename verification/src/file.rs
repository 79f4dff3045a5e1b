//! The unified file view: one parsed representation over all container
//! formats, with format-agnostic section and symbol queries.
//!
//! Parsing is single-shot — buffer in, [`ParsedFile`] out — and every query
//! dispatches to the tables parsed then; nothing is ever re-parsed.  Queries
//! hand back fresh snapshots, so two parsed files, or two queries on one,
//! never share mutable state.

use vstd::prelude::*;
use crate::error::{Error, ErrorKind, ErrorRec};
use crate::records::{secs_rec, syms_rec, BinaryFormat, SectionInfo, SectionRec, SymbolInfo,
    SymbolRec};

verus! {

/// The mathematical value of a [`ParsedFile`].
pub ghost struct FileRec {
    pub format: BinaryFormat,
    pub sections: Seq<SectionRec>,
    pub symbols: Seq<SymbolRec>,
    pub dynamic: Seq<SymbolRec>,
}

/// A parsed object file: its format, its normalized section table, and its
/// normalized regular and dynamic symbol tables, in each table's own order.
#[derive(Debug)]
pub struct ParsedFile {
    pub format: BinaryFormat,
    pub sections: Vec<SectionInfo>,
    pub symbols: Vec<SymbolInfo>,
    pub dynamic: Vec<SymbolInfo>,
}

impl View for ParsedFile {
    type V = FileRec;

    open spec fn view(&self) -> FileRec {
        FileRec {
            format: self.format,
            sections: secs_rec(self.sections@),
            symbols: syms_rec(self.symbols@),
            dynamic: syms_rec(self.dynamic@),
        }
    }
}

/// Whether a format keeps a dynamic symbol table at all: ELF and Mach-O do;
/// COFF/PE and WebAssembly do not.
pub open spec fn has_dynamic_table(f: BinaryFormat) -> bool {
    f == BinaryFormat::Elf || f == BinaryFormat::MachO
}

/// What parsing a buffer yields: detection picks the reader from the magic
/// bytes, and the chosen reader's outcome is the parse's outcome; a buffer
/// no known magic matches is a detection failure.
pub open spec fn parse_spec(b: Seq<u8>) -> Result<FileRec, ErrorRec> {
    match crate::detect::detect_spec(b) {
        None => Err(ErrorRec { kind: ErrorKind::DetectionFailure, offset: 0 }),
        Some(f) => if f == BinaryFormat::Elf {
            crate::elf::elf_outcome(b)
        } else if f == BinaryFormat::MachO {
            crate::macho::macho_outcome(b)
        } else if f == BinaryFormat::Wasm {
            crate::wasm::wasm_outcome(b)
        } else if f == BinaryFormat::Pe {
            crate::coff::pe_outcome(b)
        } else {
            crate::coff::coff_outcome(b, 0, BinaryFormat::Coff)
        },
    }
}

impl ParsedFile {
    /// Parse a buffer into a unified file view, single-shot: detect the
    /// format from the magic bytes, run that format's reader, and keep the
    /// normalized tables.  Never panics, never reads out of bounds; every
    /// structural inconsistency comes back as a typed [`Error`].
    pub fn parse(data: &Vec<u8>) -> (r: Result<ParsedFile, Error>)
        ensures
            match r {
                Ok(pf) => pf.wf() && parse_spec(data@) == Ok::<FileRec, ErrorRec>(pf@),
                Err(e) => parse_spec(data@) == Err::<FileRec, ErrorRec>(e@),
            },
    {
        match crate::detect::detect_format(data) {
            Err(e) => Err(e),
            Ok(f) => match f {
                BinaryFormat::Elf => crate::elf::parse_elf(data),
                BinaryFormat::MachO => crate::macho::parse_macho(data),
                BinaryFormat::Wasm => crate::wasm::parse_wasm(data),
                BinaryFormat::Pe => crate::coff::parse_pe(data),
                BinaryFormat::Coff => crate::coff::parse_coff(data),
                BinaryFormat::Unknown => Err(
                    Error { kind: ErrorKind::DetectionFailure, offset: 0 },
                ),
            },
        }
    }
}

impl ParsedFile {
    /// A well-formed parse result: a recognized format, every section record
    /// carrying its own position in the table as its index, and no dynamic
    /// symbols on formats without a dynamic symbol table.
    pub open spec fn wf(&self) -> bool {
        &&& self.format != BinaryFormat::Unknown
        &&& forall|i: int|
            0 <= i < self@.sections.len() ==> (#[trigger] self@.sections[i]).index == i
        &&& !has_dynamic_table(self.format) ==> self@.dynamic.len() == 0
    }

    /// The container format, fixed when parsing succeeded.
    pub fn format(&self) -> (r: BinaryFormat)
        ensures
            r == self.format,
    {
        self.format
    }

    /// The number of sections in the format's section table.
    pub fn section_count(&self) -> (r: usize)
        ensures
            r == self@.sections.len(),
    {
        self.sections.len()
    }

    /// A fresh, independent list of all symbols of the regular symbol
    /// table(s), in table order.
    pub fn symbols(&self) -> (r: Vec<SymbolInfo>)
        ensures
            syms_rec(r@) == self@.symbols,
    {
        copy_symbols(&self.symbols)
    }

    /// A fresh, independent list of all symbols of the dynamic symbol table,
    /// in table order; empty — not an error — on formats without one.
    pub fn dynamic_symbols(&self) -> (r: Vec<SymbolInfo>)
        ensures
            syms_rec(r@) == self@.dynamic,
    {
        copy_symbols(&self.dynamic)
    }

    /// Look a section up by name: a linear scan over the resolved names, in
    /// table order.  A name no section carries is a normal "not present"
    /// outcome, never an error.
    pub fn section_by_name(&self, name: &str) -> (r: Option<SectionInfo>)
        ensures
            match r {
                Some(s) => exists|i: int|
                    {
                        &&& 0 <= i < self@.sections.len()
                        &&& s@ == self@.sections[i]
                        &&& self@.sections[i].name == name@
                        &&& forall|k: int| 0 <= k < i ==> (#[trigger] self@.sections[k]).name
                            != name@
                    },
                None => forall|i: int|
                    0 <= i < self@.sections.len() ==> (#[trigger] self@.sections[i]).name
                        != name@,
            },
    {
        let key: String = name.to_owned();
        let n = self.sections.len();
        let mut i: usize = 0;
        while i < n
            invariant
                n == self.sections@.len(),
                i <= n,
                key@ == name@,
                forall|k: int| 0 <= k < i ==> (#[trigger] self@.sections[k]).name != name@,
            decreases n - i,
        {
            if self.sections[i].name == key {
                let found = self.sections[i].duplicate();
                assert(found@ == self@.sections[i as int]);
                return Some(found);
            }
            assert(self@.sections[i as int].name != name@);
            i = i + 1;
        }
        None
    }

    /// Look a section up by its index: constant-time access, validated
    /// against the live table.  An index at or beyond the section count is a
    /// contract violation and is reported as an `IndexOutOfRange` error —
    /// unlike by-name lookup, whose miss is a soft "not present".
    pub fn section_by_index(&self, index: usize) -> (r: Result<SectionInfo, Error>)
        ensures
            match r {
                Ok(s) => index < self@.sections.len() && s@ == self@.sections[index as int],
                Err(e) => index >= self@.sections.len() && e.kind == ErrorKind::IndexOutOfRange
                    && e.offset == index,
            },
    {
        if index < self.sections.len() {
            let s = self.sections[index].duplicate();
            Ok(s)
        } else {
            Err(Error { kind: ErrorKind::IndexOutOfRange, offset: index })
        }
    }
}

/// A fresh copy of a symbol list, value for value.
fn copy_symbols(v: &Vec<SymbolInfo>) -> (r: Vec<SymbolInfo>)
    ensures
        syms_rec(r@) == syms_rec(v@),
{
    let n = v.len();
    let mut out: Vec<SymbolInfo> = Vec::new();
    let mut i: usize = 0;
    while i < n
        invariant
            n == v@.len(),
            i <= n,
            out@.len() == i,
            forall|k: int| 0 <= k < i ==> (#[trigger] out@[k])@ == v@[k]@,
        decreases n - i,
    {
        out.push(v[i].duplicate());
        i = i + 1;
    }
    assert(syms_rec(out@) =~= syms_rec(v@));
    out
}

// ---------------------------------------------------------------------------
// Laws of the unified view.
// ---------------------------------------------------------------------------

/// Sections are index-addressable in both directions: in a well-formed parse
/// result, the record at position `i` of the full section list carries index
/// `i`, so looking position `i` up by index returns exactly that record.
pub proof fn lemma_section_round_trip(pf: ParsedFile, i: int)
    requires
        pf.wf(),
        0 <= i < pf@.sections.len(),
    ensures
        pf@.sections[i].index == i,
{
}

/// Parsing is deterministic: a pure function of the buffer's bytes, with no
/// other state.  Two buffers with the same contents — or one buffer parsed
/// twice, from any execution context — yield the same outcome, so parsed
/// files never interfere with one another.
pub proof fn lemma_parse_deterministic(b1: Seq<u8>, b2: Seq<u8>)
    requires
        b1 == b2,
    ensures
        parse_spec(b1) == parse_spec(b2),
{
}

/// Formats without a dynamic symbol table — COFF/PE and WebAssembly — hold
/// an empty dynamic symbol list in every well-formed parse result, so
/// querying them for dynamic symbols is an empty sequence, not an error.
pub proof fn lemma_no_dynamic_table(pf: ParsedFile)
    requires
        pf.wf(),
        pf.format == BinaryFormat::Coff || pf.format == BinaryFormat::Pe || pf.format
            == BinaryFormat::Wasm,
    ensures
        pf@.dynamic.len() == 0,
{
}

} // verus!
