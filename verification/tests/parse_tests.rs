use objview::detect::detect_format;
use objview::error::ErrorKind;
use objview::file::ParsedFile;
use objview::records::{format_to_string, kind_to_string, BinaryFormat, SymbolKind};

// ---------------------------------------------------------------------------
// Builders for synthetic binaries.
// ---------------------------------------------------------------------------

fn pad_to(v: &mut Vec<u8>, len: usize) {
    while v.len() < len {
        v.push(0);
    }
}

fn sh64(name: u32, typ: u32, addr: u64, off: u64, size: u64, link: u32, align: u64, entsize: u64) -> Vec<u8> {
    let mut v = Vec::new();
    v.extend(name.to_le_bytes());
    v.extend(typ.to_le_bytes());
    v.extend(0u64.to_le_bytes()); // flags
    v.extend(addr.to_le_bytes());
    v.extend(off.to_le_bytes());
    v.extend(size.to_le_bytes());
    v.extend(link.to_le_bytes());
    v.extend(0u32.to_le_bytes()); // info
    v.extend(align.to_le_bytes());
    v.extend(entsize.to_le_bytes());
    v
}

/// A minimal ELF64 little-endian object: six sections (null, .text,
/// .symtab, .strtab, .dynsym, .shstrtab), two symbols (the null entry and
/// "main"), and a dynamic symbol table aliasing the regular one.
fn build_elf64(shoff: u64) -> Vec<u8> {
    let mut v = Vec::new();
    // e_ident
    v.extend([0x7f, b'E', b'L', b'F', 2, 1, 1, 0]);
    v.extend([0u8; 8]);
    v.extend(2u16.to_le_bytes()); // e_type
    v.extend(0x3eu16.to_le_bytes()); // e_machine
    v.extend(1u32.to_le_bytes()); // e_version
    v.extend(0u64.to_le_bytes()); // e_entry
    v.extend(0u64.to_le_bytes()); // e_phoff
    v.extend(shoff.to_le_bytes()); // e_shoff
    v.extend(0u32.to_le_bytes()); // e_flags
    v.extend(64u16.to_le_bytes()); // e_ehsize
    v.extend(0u16.to_le_bytes()); // e_phentsize
    v.extend(0u16.to_le_bytes()); // e_phnum
    v.extend(64u16.to_le_bytes()); // e_shentsize
    v.extend(6u16.to_le_bytes()); // e_shnum
    v.extend(5u16.to_le_bytes()); // e_shstrndx
    assert_eq!(v.len(), 64);
    // .text content at 64
    v.extend([0xc3, 0x90, 0x90, 0x90]);
    pad_to(&mut v, 72);
    // symbol table at 72: null entry + "main"
    v.extend([0u8; 24]);
    v.extend(1u32.to_le_bytes()); // st_name -> "main"
    v.push(0x12); // st_info: GLOBAL | FUNC
    v.push(0);
    v.extend(1u16.to_le_bytes()); // st_shndx
    v.extend(0x1000u64.to_le_bytes()); // st_value
    v.extend(0u64.to_le_bytes()); // st_size
    assert_eq!(v.len(), 120);
    // .strtab at 120: "\0main\0"
    v.push(0);
    v.extend(b"main");
    v.push(0);
    assert_eq!(v.len(), 126);
    // .shstrtab at 126
    v.push(0);
    v.extend(b".text\0.symtab\0.strtab\0.dynsym\0.shstrtab\0");
    assert_eq!(v.len(), 167);
    pad_to(&mut v, 168);
    // section headers at 168
    v.extend([0u8; 64]); // null section
    v.extend(sh64(1, 1, 0x1000, 64, 4, 0, 16, 0)); // .text
    v.extend(sh64(7, 2, 0, 72, 48, 3, 8, 24)); // .symtab
    v.extend(sh64(15, 3, 0, 120, 6, 0, 1, 0)); // .strtab
    v.extend(sh64(23, 11, 0, 72, 48, 3, 8, 24)); // .dynsym
    v.extend(sh64(31, 3, 0, 126, 41, 0, 1, 0)); // .shstrtab
    assert_eq!(v.len(), 552);
    v
}

/// A minimal COFF x86-64 object: one .text section and one symbol "foo".
fn build_coff() -> Vec<u8> {
    let mut v = Vec::new();
    v.extend(0x8664u16.to_le_bytes()); // machine
    v.extend(1u16.to_le_bytes()); // number of sections
    v.extend(0u32.to_le_bytes()); // timestamp
    v.extend(64u32.to_le_bytes()); // symbol table at 64
    v.extend(1u32.to_le_bytes()); // one symbol
    v.extend(0u16.to_le_bytes()); // optional header size
    v.extend(0u16.to_le_bytes()); // characteristics
    assert_eq!(v.len(), 20);
    // section entry at 20
    v.extend(b".text\0\0\0");
    v.extend(0u32.to_le_bytes()); // virtual size
    v.extend(0x2000u32.to_le_bytes()); // virtual address
    v.extend(4u32.to_le_bytes()); // size of raw data
    v.extend(60u32.to_le_bytes()); // pointer to raw data
    v.extend([0u8; 12]); // relocations, line numbers
    v.extend(0x0030_0000u32.to_le_bytes()); // characteristics: align nibble 3 -> 4
    assert_eq!(v.len(), 60);
    v.extend([0xc3, 0, 0, 0]); // raw data at 60
    // symbol table at 64: "foo", value 5, section 1, type 0x20 (function)
    v.extend(b"foo\0\0\0\0\0");
    v.extend(5u32.to_le_bytes());
    v.extend(1u16.to_le_bytes());
    v.extend(0x20u16.to_le_bytes());
    v.push(2); // storage class: external
    v.push(0); // no aux records
    assert_eq!(v.len(), 82);
    // string table: just its size word
    v.extend(4u32.to_le_bytes());
    v
}

/// A minimal PE image with no sections and no symbols.
fn build_pe() -> Vec<u8> {
    let mut v = Vec::new();
    v.extend(b"MZ");
    pad_to(&mut v, 0x3c);
    v.extend(0x40u32.to_le_bytes()); // e_lfanew
    v.extend(b"PE\0\0");
    v.extend(0x8664u16.to_le_bytes());
    v.extend(0u16.to_le_bytes()); // no sections
    v.extend(0u32.to_le_bytes());
    v.extend(0u32.to_le_bytes()); // no symbol table
    v.extend(0u32.to_le_bytes());
    v.extend(0u16.to_le_bytes());
    v.extend(0u16.to_le_bytes());
    v
}

/// A minimal WebAssembly module: a type section, an export section with a
/// function "f" and a global "g", and a custom section named "hello".
fn build_wasm() -> Vec<u8> {
    let mut v = Vec::new();
    v.extend(b"\0asm");
    v.extend(1u32.to_le_bytes());
    // type section: id 1, payload [0x00]
    v.extend([1, 1, 0x60]);
    // export section: id 7, count 2, "f" func 0, "g" global 1
    v.extend([7, 9, 2]);
    v.extend([1, b'f', 0, 0]);
    v.extend([1, b'g', 3, 1]);
    // custom section: id 0, name "hello", no further payload
    v.extend([0, 6, 5]);
    v.extend(b"hello");
    v
}

fn put32le(v: &mut Vec<u8>, x: u32) {
    v.extend(x.to_le_bytes());
}

/// A minimal thin 64-bit little-endian Mach-O: one segment holding one
/// section, and optionally a symbol table with one symbol "main".
fn build_macho64(secname: &[u8], with_symtab: bool) -> Vec<u8> {
    let ncmds: u32 = if with_symtab { 2 } else { 1 };
    let sizeofcmds: u32 = 152 + if with_symtab { 24 } else { 0 };
    let mut v = Vec::new();
    v.extend([0xcf, 0xfa, 0xed, 0xfe]);
    put32le(&mut v, 0x0100_0007); // cputype x86_64
    put32le(&mut v, 3); // cpusubtype
    put32le(&mut v, 2); // filetype: executable
    put32le(&mut v, ncmds);
    put32le(&mut v, sizeofcmds);
    put32le(&mut v, 0); // flags
    put32le(&mut v, 0); // reserved
    assert_eq!(v.len(), 32);
    // LC_SEGMENT_64 with one section
    put32le(&mut v, 0x19);
    put32le(&mut v, 152);
    v.extend(b"__TEXT\0\0\0\0\0\0\0\0\0\0");
    v.extend(0x1000u64.to_le_bytes()); // vmaddr
    v.extend(0x1000u64.to_le_bytes()); // vmsize
    v.extend(0u64.to_le_bytes()); // fileoff
    v.extend(0u64.to_le_bytes()); // filesize
    put32le(&mut v, 7);
    put32le(&mut v, 5);
    put32le(&mut v, 1); // nsects
    put32le(&mut v, 0);
    // the section entry
    let mut name16 = [0u8; 16];
    name16[..secname.len()].copy_from_slice(secname);
    v.extend(name16);
    v.extend(b"__TEXT\0\0\0\0\0\0\0\0\0\0");
    v.extend(0x1100u64.to_le_bytes()); // addr
    v.extend(8u64.to_le_bytes()); // size
    put32le(&mut v, 0xd0); // offset
    put32le(&mut v, 4); // align exponent -> 16
    put32le(&mut v, 0); // reloff
    put32le(&mut v, 0); // nreloc
    put32le(&mut v, 0x8000_0400); // flags: regular, some attributes
    put32le(&mut v, 0);
    put32le(&mut v, 0);
    put32le(&mut v, 0);
    assert_eq!(v.len(), 184);
    if with_symtab {
        put32le(&mut v, 2); // LC_SYMTAB
        put32le(&mut v, 24);
        put32le(&mut v, 224); // symoff
        put32le(&mut v, 1); // nsyms
        put32le(&mut v, 240); // stroff
        put32le(&mut v, 6); // strsize
        pad_to(&mut v, 224);
        // one nlist64: "main", N_SECT | N_EXT, section 1, value 0x1100
        put32le(&mut v, 1);
        v.push(0x0f);
        v.push(1);
        v.extend(0u16.to_le_bytes());
        v.extend(0x1100u64.to_le_bytes());
        assert_eq!(v.len(), 240);
        v.push(0);
        v.extend(b"main\0");
    }
    v
}

/// A fat Mach-O container with two 64-bit slices at offsets 64 and 512.
fn build_fat() -> Vec<u8> {
    let slice1 = build_macho64(b"__sl1\0", false);
    let slice2 = build_macho64(b"__sl2\0", false);
    let mut v = Vec::new();
    v.extend([0xca, 0xfe, 0xba, 0xbe]);
    v.extend(2u32.to_be_bytes()); // two architectures
    v.extend(0x0100_0007u32.to_be_bytes());
    v.extend(3u32.to_be_bytes());
    v.extend(64u32.to_be_bytes()); // first slice offset
    v.extend((slice1.len() as u32).to_be_bytes());
    v.extend(0u32.to_be_bytes());
    v.extend(0x0000_0007u32.to_be_bytes());
    v.extend(3u32.to_be_bytes());
    v.extend(512u32.to_be_bytes()); // second slice offset
    v.extend((slice2.len() as u32).to_be_bytes());
    v.extend(0u32.to_be_bytes());
    pad_to(&mut v, 64);
    v.extend(&slice1);
    pad_to(&mut v, 512);
    v.extend(&slice2);
    v
}

// ---------------------------------------------------------------------------
// Detection.
// ---------------------------------------------------------------------------

#[test]
fn detect_all_magics() {
    assert_eq!(detect_format(&build_elf64(168)).unwrap(), BinaryFormat::Elf);
    assert_eq!(detect_format(&build_wasm()).unwrap(), BinaryFormat::Wasm);
    assert_eq!(detect_format(&build_pe()).unwrap(), BinaryFormat::Pe);
    assert_eq!(detect_format(&build_coff()).unwrap(), BinaryFormat::Coff);
    assert_eq!(detect_format(&build_macho64(b"__text", true)).unwrap(), BinaryFormat::MachO);
    assert_eq!(detect_format(&build_fat()).unwrap(), BinaryFormat::MachO);
    // every thin Mach-O magic, both byte orders and widths
    for magic in [[0xfeu8, 0xed, 0xfa, 0xce], [0xfe, 0xed, 0xfa, 0xcf], [0xce, 0xfa, 0xed, 0xfe],
        [0xcf, 0xfa, 0xed, 0xfe]] {
        assert_eq!(detect_format(&magic.to_vec()).unwrap(), BinaryFormat::MachO);
    }
}

#[test]
fn detect_failure_on_short_or_unknown() {
    for bad in [Vec::new(), vec![0x7f], vec![0x7f, b'E', b'L'], vec![1, 2, 3, 4], vec![0xff; 16]] {
        let e = detect_format(&bad).unwrap_err();
        assert_eq!(e.kind, ErrorKind::DetectionFailure);
        assert_eq!(e.message(), "unrecognized or too-short buffer");
        // parsing such a buffer fails the same way, never crashing
        let pe = ParsedFile::parse(&bad).unwrap_err();
        assert_eq!(pe.kind, ErrorKind::DetectionFailure);
    }
}

// ---------------------------------------------------------------------------
// ELF.
// ---------------------------------------------------------------------------

#[test]
fn elf_round_trip_sections_and_symbols() {
    let buf = build_elf64(168);
    let pf = ParsedFile::parse(&buf).unwrap();
    assert_eq!(pf.format(), BinaryFormat::Elf);
    assert_eq!(format_to_string(pf.format()), "Elf");
    // exactly as many section records as the header declares
    assert_eq!(pf.section_count(), 6);
    // and exactly as many symbol records as the table holds
    let syms = pf.symbols();
    assert_eq!(syms.len(), 2);
    assert_eq!(syms[0].kind, SymbolKind::Null);
    assert_eq!(syms[1].name, "main");
    assert_eq!(syms[1].address, 0x1000);
    assert_eq!(syms[1].kind, SymbolKind::Text);
    assert_eq!(kind_to_string(syms[1].kind), "Text");
    // index-addressable in both directions
    for i in 0..pf.section_count() {
        let s = pf.section_by_index(i).unwrap();
        assert_eq!(s.index, i);
        assert_eq!(s.name, pf.sections[i].name);
        assert_eq!(s.address, pf.sections[i].address);
        assert_eq!(s.size, pf.sections[i].size);
    }
    let text = pf.section_by_name(".text").unwrap();
    assert_eq!(text.index, 1);
    assert_eq!(text.address, 0x1000);
    assert_eq!(text.size, 4);
    assert_eq!(text.align, 16);
    assert_eq!(text.file_range, Some((64, 4)));
    // the dynamic table is its own index space
    let dsyms = pf.dynamic_symbols();
    assert_eq!(dsyms.len(), 2);
    assert_eq!(dsyms[1].name, "main");
}

#[test]
fn elf_truncated_section_table() {
    // the header claims a section table beyond the buffer end
    let buf = build_elf64(100_000);
    let e = ParsedFile::parse(&buf).unwrap_err();
    assert_eq!(e.kind, ErrorKind::TruncatedTable);
    assert_eq!(e.message(), "table offset or count beyond buffer end");
}

#[test]
fn elf_truncated_symbol_table() {
    let mut buf = build_elf64(168);
    // grow the symbol table past the buffer end: patch .symtab's sh_size
    let off = 168 + 2 * 64 + 0x20;
    buf[off..off + 8].copy_from_slice(&100_000u64.to_le_bytes());
    let e = ParsedFile::parse(&buf).unwrap_err();
    assert_eq!(e.kind, ErrorKind::TruncatedTable);
}

#[test]
fn elf_too_short_is_malformed() {
    let buf = vec![0x7f, b'E', b'L', b'F', 2, 1, 1, 0, 0, 0];
    let e = ParsedFile::parse(&buf).unwrap_err();
    assert_eq!(e.kind, ErrorKind::MalformedHeader);
}

#[test]
fn elf_no_section_table() {
    let buf = build_elf64(0);
    let pf = ParsedFile::parse(&buf).unwrap();
    assert_eq!(pf.section_count(), 0);
    assert_eq!(pf.symbols().len(), 0);
}

// ---------------------------------------------------------------------------
// COFF / PE.
// ---------------------------------------------------------------------------

#[test]
fn coff_sections_and_symbols() {
    let buf = build_coff();
    let pf = ParsedFile::parse(&buf).unwrap();
    assert_eq!(pf.format(), BinaryFormat::Coff);
    assert_eq!(pf.section_count(), 1);
    let s = pf.section_by_index(0).unwrap();
    assert_eq!(s.name, ".text");
    assert_eq!(s.address, 0x2000);
    assert_eq!(s.size, 4);
    assert_eq!(s.align, 4);
    assert_eq!(s.file_range, Some((60, 4)));
    let syms = pf.symbols();
    assert_eq!(syms.len(), 1);
    assert_eq!(syms[0].name, "foo");
    assert_eq!(syms[0].address, 5);
    assert_eq!(syms[0].kind, SymbolKind::Text);
}

#[test]
fn pe_parses_with_no_tables() {
    let pf = ParsedFile::parse(&build_pe()).unwrap();
    assert_eq!(pf.format(), BinaryFormat::Pe);
    assert_eq!(pf.section_count(), 0);
    assert_eq!(pf.symbols().len(), 0);
}

#[test]
fn dynamic_symbols_empty_not_error_without_dynamic_table() {
    // formats with no dynamic symbol table yield an empty sequence
    for buf in [build_coff(), build_pe(), build_wasm()] {
        let pf = ParsedFile::parse(&buf).unwrap();
        assert_eq!(pf.dynamic_symbols().len(), 0);
    }
}

#[test]
fn coff_truncated_section_table() {
    let mut buf = build_coff();
    buf[2..4].copy_from_slice(&100u16.to_le_bytes()); // claim 100 sections
    let e = ParsedFile::parse(&buf).unwrap_err();
    assert_eq!(e.kind, ErrorKind::TruncatedTable);
}

// ---------------------------------------------------------------------------
// WebAssembly.
// ---------------------------------------------------------------------------

#[test]
fn wasm_sections_and_exports() {
    let buf = build_wasm();
    let pf = ParsedFile::parse(&buf).unwrap();
    assert_eq!(pf.format(), BinaryFormat::Wasm);
    assert_eq!(pf.section_count(), 3);
    assert_eq!(pf.sections[0].name, "type");
    assert_eq!(pf.sections[1].name, "export");
    assert_eq!(pf.sections[2].name, "hello");
    assert_eq!(pf.sections[0].file_range, Some((10, 1)));
    assert_eq!(pf.sections[1].file_range, Some((13, 9)));
    assert_eq!(pf.sections[2].file_range, Some((24, 6)));
    let syms = pf.symbols();
    assert_eq!(syms.len(), 2);
    assert_eq!(syms[0].name, "f");
    assert_eq!(syms[0].kind, SymbolKind::Text);
    assert_eq!(syms[0].address, 0);
    assert_eq!(syms[1].name, "g");
    assert_eq!(syms[1].kind, SymbolKind::Data);
    assert_eq!(syms[1].address, 1);
}

#[test]
fn wasm_truncated_section() {
    let mut buf = build_wasm();
    let n = buf.len();
    buf[9] = 120; // the type section claims 120 payload bytes
    let _ = n;
    let e = ParsedFile::parse(&buf).unwrap_err();
    assert_eq!(e.kind, ErrorKind::TruncatedTable);
}

#[test]
fn wasm_bad_version_unsupported() {
    let mut buf = build_wasm();
    buf[4] = 2;
    let e = ParsedFile::parse(&buf).unwrap_err();
    assert_eq!(e.kind, ErrorKind::UnsupportedVariant);
}

// ---------------------------------------------------------------------------
// Mach-O.
// ---------------------------------------------------------------------------

#[test]
fn macho_thin_sections_and_symbols() {
    let buf = build_macho64(b"__text", true);
    let pf = ParsedFile::parse(&buf).unwrap();
    assert_eq!(pf.format(), BinaryFormat::MachO);
    assert_eq!(pf.section_count(), 1);
    let s = pf.section_by_index(0).unwrap();
    assert_eq!(s.name, "__text");
    assert_eq!(s.address, 0x1100);
    assert_eq!(s.size, 8);
    assert_eq!(s.align, 16);
    assert_eq!(s.file_range, Some((0xd0, 8)));
    let syms = pf.symbols();
    assert_eq!(syms.len(), 1);
    assert_eq!(syms[0].name, "main");
    assert_eq!(syms[0].address, 0x1100);
    assert_eq!(syms[0].kind, SymbolKind::Text);
}

#[test]
fn macho_fat_selects_one_slice_deterministically() {
    let buf = build_fat();
    let pf = ParsedFile::parse(&buf).unwrap();
    assert_eq!(pf.format(), BinaryFormat::MachO);
    // sections and symbols come from exactly one slice: the first
    assert_eq!(pf.section_count(), 1);
    assert_eq!(pf.sections[0].name, "__sl1");
    assert!(pf.section_by_name("__sl2").is_none());
    // repeated parses select the same slice
    for _ in 0..3 {
        let again = ParsedFile::parse(&buf).unwrap();
        assert_eq!(again.section_count(), 1);
        assert_eq!(again.sections[0].name, "__sl1");
    }
}

// ---------------------------------------------------------------------------
// The unified view.
// ---------------------------------------------------------------------------

#[test]
fn section_by_name_absent_is_none_on_every_format() {
    for buf in [build_elf64(168), build_coff(), build_pe(), build_wasm(),
        build_macho64(b"__text", true), build_fat()] {
        let pf = ParsedFile::parse(&buf).unwrap();
        assert!(pf.section_by_name("nonexistent").is_none());
    }
}

#[test]
fn section_by_index_out_of_range_is_error_on_every_format() {
    for buf in [build_elf64(168), build_coff(), build_pe(), build_wasm(),
        build_macho64(b"__text", true), build_fat()] {
        let pf = ParsedFile::parse(&buf).unwrap();
        let e = pf.section_by_index(pf.section_count()).unwrap_err();
        assert_eq!(e.kind, ErrorKind::IndexOutOfRange);
        let e2 = pf.section_by_index(1_000_000).unwrap_err();
        assert_eq!(e2.kind, ErrorKind::IndexOutOfRange);
        assert_eq!(e2.offset, 1_000_000);
    }
}

#[test]
fn two_parsed_files_queried_interleaved_stay_independent() {
    let elf = ParsedFile::parse(&build_elf64(168)).unwrap();
    let wasm = ParsedFile::parse(&build_wasm()).unwrap();
    // interleave queries on both views; neither affects the other
    assert_eq!(elf.format(), BinaryFormat::Elf);
    assert_eq!(wasm.format(), BinaryFormat::Wasm);
    let e1 = elf.section_by_name(".text").unwrap();
    let w1 = wasm.section_by_name("hello").unwrap();
    assert_eq!(elf.symbols().len(), 2);
    assert_eq!(wasm.symbols().len(), 2);
    let e2 = elf.section_by_name(".text").unwrap();
    let w2 = wasm.section_by_name("hello").unwrap();
    assert_eq!(e1.name, e2.name);
    assert_eq!(e1.address, e2.address);
    assert_eq!(w1.name, w2.name);
    assert_eq!(w1.index, w2.index);
    assert_eq!(elf.section_count(), 6);
    assert_eq!(wasm.section_count(), 3);
}

#[test]
fn queries_return_fresh_snapshots() {
    let pf = ParsedFile::parse(&build_elf64(168)).unwrap();
    let mut first = pf.symbols();
    first[1].name = String::from("changed");
    let second = pf.symbols();
    assert_eq!(second[1].name, "main");
}

fn sh64be(name: u32, typ: u32, addr: u64, off: u64, size: u64, align: u64) -> Vec<u8> {
    let mut v = Vec::new();
    v.extend(name.to_be_bytes());
    v.extend(typ.to_be_bytes());
    v.extend(0u64.to_be_bytes());
    v.extend(addr.to_be_bytes());
    v.extend(off.to_be_bytes());
    v.extend(size.to_be_bytes());
    v.extend(0u32.to_be_bytes());
    v.extend(0u32.to_be_bytes());
    v.extend(align.to_be_bytes());
    v.extend(0u64.to_be_bytes());
    v
}

/// A minimal big-endian ELF64: a null section, .text and .shstrtab.
fn build_elf64_be() -> Vec<u8> {
    let mut v = Vec::new();
    v.extend([0x7f, b'E', b'L', b'F', 2, 2, 1, 0]);
    v.extend([0u8; 8]);
    v.extend(2u16.to_be_bytes());
    v.extend(0x16u16.to_be_bytes());
    v.extend(1u32.to_be_bytes());
    v.extend(0u64.to_be_bytes());
    v.extend(0u64.to_be_bytes());
    v.extend(88u64.to_be_bytes()); // e_shoff
    v.extend(0u32.to_be_bytes());
    v.extend(64u16.to_be_bytes());
    v.extend(0u16.to_be_bytes());
    v.extend(0u16.to_be_bytes());
    v.extend(64u16.to_be_bytes()); // e_shentsize
    v.extend(3u16.to_be_bytes()); // e_shnum
    v.extend(2u16.to_be_bytes()); // e_shstrndx
    assert_eq!(v.len(), 64);
    v.extend([0x60, 0, 0, 0x20]); // .text content at 64
    v.push(0);
    v.extend(b".text\0.shstrtab\0");
    assert_eq!(v.len(), 85);
    pad_to(&mut v, 88);
    v.extend([0u8; 64]);
    v.extend(sh64be(1, 1, 0x4000, 64, 4, 8)); // .text
    v.extend(sh64be(7, 3, 0, 68, 17, 1)); // .shstrtab
    v
}

#[test]
fn elf_big_endian_sections() {
    let buf = build_elf64_be();
    let pf = ParsedFile::parse(&buf).unwrap();
    assert_eq!(pf.format(), BinaryFormat::Elf);
    assert_eq!(pf.section_count(), 3);
    let text = pf.section_by_name(".text").unwrap();
    assert_eq!(text.index, 1);
    assert_eq!(text.address, 0x4000);
    assert_eq!(text.size, 4);
    assert_eq!(text.align, 8);
    assert_eq!(text.file_range, Some((64, 4)));
}

#[test]
fn wasm_two_byte_leb_section_size() {
    let mut v = Vec::new();
    v.extend(b"\0asm");
    v.extend(1u32.to_le_bytes());
    // custom section with a 200-byte payload: the size takes two LEB bytes
    v.push(0);
    v.extend([0xc8, 0x01]);
    v.push(3);
    v.extend(b"abc");
    v.extend(vec![0u8; 196]);
    assert_eq!(v.len(), 211);
    let pf = ParsedFile::parse(&v).unwrap();
    assert_eq!(pf.section_count(), 1);
    assert_eq!(pf.sections[0].name, "abc");
    assert_eq!(pf.sections[0].size, 200);
    assert_eq!(pf.sections[0].file_range, Some((11, 200)));
}

/// A thin 64-bit Mach-O whose dysymtab marks its one symbol as externally
/// defined.
fn build_macho64_dyn() -> Vec<u8> {
    let mut v = build_macho64(b"__text", false);
    assert_eq!(v.len(), 184);
    // rewrite the header for three load commands
    v[16..20].copy_from_slice(&3u32.to_le_bytes());
    v[20..24].copy_from_slice(&256u32.to_le_bytes());
    // LC_SYMTAB
    put32le(&mut v, 2);
    put32le(&mut v, 24);
    put32le(&mut v, 320); // symoff
    put32le(&mut v, 1); // nsyms
    put32le(&mut v, 336); // stroff
    put32le(&mut v, 6); // strsize
    // LC_DYSYMTAB: one externally defined symbol, starting at 0
    put32le(&mut v, 0xb);
    put32le(&mut v, 80);
    put32le(&mut v, 0); // ilocalsym
    put32le(&mut v, 0); // nlocalsym
    put32le(&mut v, 0); // iextdefsym
    put32le(&mut v, 1); // nextdefsym
    for _ in 0..14 {
        put32le(&mut v, 0);
    }
    assert_eq!(v.len(), 288);
    pad_to(&mut v, 320);
    put32le(&mut v, 1); // n_strx -> "main"
    v.push(0x0f);
    v.push(1);
    v.extend(0u16.to_le_bytes());
    v.extend(0x1100u64.to_le_bytes());
    assert_eq!(v.len(), 336);
    v.push(0);
    v.extend(b"main\0");
    v
}

#[test]
fn macho_dynamic_symbols_from_dysymtab() {
    let pf = ParsedFile::parse(&build_macho64_dyn()).unwrap();
    assert_eq!(pf.symbols().len(), 1);
    let dsyms = pf.dynamic_symbols();
    assert_eq!(dsyms.len(), 1);
    assert_eq!(dsyms[0].name, "main");
    assert_eq!(dsyms[0].index, 0);
    assert_eq!(dsyms[0].address, 0x1100);
}

#[test]
fn format_and_kind_names() {
    assert_eq!(format_to_string(BinaryFormat::Coff), "Coff");
    assert_eq!(format_to_string(BinaryFormat::MachO), "MachO");
    assert_eq!(format_to_string(BinaryFormat::Unknown), "Unknown");
    assert_eq!(kind_to_string(SymbolKind::Data), "Data");
    assert_eq!(kind_to_string(SymbolKind::File), "File");
    assert_eq!(kind_to_string(SymbolKind::Label), "Label");
    assert_eq!(kind_to_string(SymbolKind::Null), "Null");
    assert_eq!(kind_to_string(SymbolKind::Section), "Section");
    assert_eq!(kind_to_string(SymbolKind::Text), "Text");
    assert_eq!(kind_to_string(SymbolKind::Tls), "Tls");
    assert_eq!(kind_to_string(SymbolKind::Unknown), "Unknown");
}
