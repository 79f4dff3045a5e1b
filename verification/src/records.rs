//! The normalized result records that every format is reduced to: container
//! formats, symbol kinds, and point-in-time section and symbol snapshots.

use vstd::prelude::*;

verus! {

/// The container formats this layer recognizes.
#[derive(Clone, Copy, Debug, PartialEq, Eq, Structural)]
pub enum BinaryFormat {
    Coff,
    Elf,
    MachO,
    Pe,
    Wasm,
    Unknown,
}

/// Symbol kinds, normalized across formats; a format lacking a distinction
/// maps each symbol to the closest kind, or to `Unknown`.
#[derive(Clone, Copy, Debug, PartialEq, Eq, Structural)]
pub enum SymbolKind {
    Data,
    File,
    Label,
    Null,
    Section,
    Text,
    Tls,
    Unknown,
}

/// The literal name of a format, as handed to callers.
pub open spec fn format_name(f: BinaryFormat) -> Seq<char> {
    match f {
        BinaryFormat::Coff => "Coff"@,
        BinaryFormat::Elf => "Elf"@,
        BinaryFormat::MachO => "MachO"@,
        BinaryFormat::Pe => "Pe"@,
        BinaryFormat::Wasm => "Wasm"@,
        BinaryFormat::Unknown => "Unknown"@,
    }
}

/// The format's name as a fresh string.
pub fn format_to_string(f: BinaryFormat) -> (r: String)
    ensures
        r@ == format_name(f),
{
    match f {
        BinaryFormat::Coff => "Coff".to_owned(),
        BinaryFormat::Elf => "Elf".to_owned(),
        BinaryFormat::MachO => "MachO".to_owned(),
        BinaryFormat::Pe => "Pe".to_owned(),
        BinaryFormat::Wasm => "Wasm".to_owned(),
        BinaryFormat::Unknown => "Unknown".to_owned(),
    }
}

/// The literal name of a symbol kind, as handed to callers.
pub open spec fn kind_name(k: SymbolKind) -> Seq<char> {
    match k {
        SymbolKind::Data => "Data"@,
        SymbolKind::File => "File"@,
        SymbolKind::Label => "Label"@,
        SymbolKind::Null => "Null"@,
        SymbolKind::Section => "Section"@,
        SymbolKind::Text => "Text"@,
        SymbolKind::Tls => "Tls"@,
        SymbolKind::Unknown => "Unknown"@,
    }
}

/// The kind's name as a fresh string.
pub fn kind_to_string(kind: SymbolKind) -> (r: String)
    ensures
        r@ == kind_name(kind),
{
    match kind {
        SymbolKind::Data => "Data".to_owned(),
        SymbolKind::File => "File".to_owned(),
        SymbolKind::Label => "Label".to_owned(),
        SymbolKind::Null => "Null".to_owned(),
        SymbolKind::Section => "Section".to_owned(),
        SymbolKind::Text => "Text".to_owned(),
        SymbolKind::Tls => "Tls".to_owned(),
        SymbolKind::Unknown => "Unknown".to_owned(),
    }
}

/// The mathematical value of a [`SectionInfo`] snapshot.
pub ghost struct SectionRec {
    pub index: int,
    pub address: int,
    pub size: int,
    pub align: int,
    pub file_range: Option<(int, int)>,
    pub name: Seq<char>,
}

/// A normalized section snapshot: its position in the format's section
/// table, its geometry, the file bytes backing it (absent for sections with
/// no file storage, such as BSS), and its resolved name (empty when the
/// format lacks a name, or resolution failed, for this section).
#[derive(Debug)]
pub struct SectionInfo {
    pub index: usize,
    pub address: u64,
    pub size: u64,
    pub align: u64,
    pub file_range: Option<(u64, u64)>,
    pub name: String,
}

impl View for SectionInfo {
    type V = SectionRec;

    open spec fn view(&self) -> SectionRec {
        SectionRec {
            index: self.index as int,
            address: self.address as int,
            size: self.size as int,
            align: self.align as int,
            file_range: match self.file_range {
                Some(p) => Some((p.0 as int, p.1 as int)),
                None => None,
            },
            name: self.name@,
        }
    }
}

impl SectionInfo {
    /// A fresh snapshot with the same value.
    pub fn duplicate(&self) -> (r: SectionInfo)
        ensures
            r@ == self@,
    {
        SectionInfo {
            index: self.index,
            address: self.address,
            size: self.size,
            align: self.align,
            file_range: self.file_range,
            name: self.name.clone(),
        }
    }
}

/// The mathematical value of a [`SymbolInfo`] snapshot.
pub ghost struct SymbolRec {
    pub index: int,
    pub name: Seq<char>,
    pub address: int,
    pub kind: SymbolKind,
}

/// A normalized symbol snapshot: its ordinal within its own symbol table,
/// its resolved name (empty when absent or unresolved), its address, and its
/// normalized kind.
#[derive(Debug)]
pub struct SymbolInfo {
    pub index: usize,
    pub name: String,
    pub address: u64,
    pub kind: SymbolKind,
}

impl View for SymbolInfo {
    type V = SymbolRec;

    open spec fn view(&self) -> SymbolRec {
        SymbolRec {
            index: self.index as int,
            name: self.name@,
            address: self.address as int,
            kind: self.kind,
        }
    }
}

impl SymbolInfo {
    /// A fresh snapshot with the same value.
    pub fn duplicate(&self) -> (r: SymbolInfo)
        ensures
            r@ == self@,
    {
        SymbolInfo {
            index: self.index,
            name: self.name.clone(),
            address: self.address,
            kind: self.kind,
        }
    }
}

/// The sequence of section values a section list stands for.
pub open spec fn secs_rec(v: Seq<SectionInfo>) -> Seq<SectionRec> {
    v.map_values(|s: SectionInfo| s@)
}

/// The sequence of symbol values a symbol list stands for.
pub open spec fn syms_rec(v: Seq<SymbolInfo>) -> Seq<SymbolRec> {
    v.map_values(|s: SymbolInfo| s@)
}

} // verus!
