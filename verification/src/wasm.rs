//! The WebAssembly reader.
//!
//! A module is the 8-byte magic/version header followed by a stream of
//! sections, each an id byte, a LEB128-encoded payload size, and the
//! payload.  Every section becomes one normalized section record: known
//! section ids carry their conventional names, a custom section carries the
//! name embedded at the head of its payload.  The export section stands in
//! for the symbol table — each export yields one symbol, functions as
//! `Text`, globals as `Data` — and the format has no dynamic symbol table.

use vstd::prelude::*;
use crate::bytes::{name_chars, read_lp_name, read_u32, u32_le};
use crate::error::{Error, ErrorKind, ErrorRec};
use crate::file::{FileRec, ParsedFile};
use crate::records::{secs_rec, syms_rec, BinaryFormat, SectionInfo, SectionRec, SymbolInfo,
    SymbolKind, SymbolRec};

verus! {

// ---------------------------------------------------------------------------
// LEB128, unsigned, at most 32 bits.
// ---------------------------------------------------------------------------

/// How many bytes the LEB128 value at `off` occupies, after `k` bytes were
/// already consumed; -1 when it runs past the buffer or past 5 bytes.
pub open spec fn leb_len(b: Seq<u8>, off: int, k: int) -> int
    decreases 5 - k,
{
    if k >= 5 || off + k < 0 || off + k >= b.len() {
        -1
    } else if b[off + k] < 128 {
        k + 1
    } else {
        leb_len(b, off, k + 1)
    }
}

/// A well-formed `u32` LEB128 value starts at `off`: it terminates within 5
/// bytes inside the buffer, and its fifth byte, if any, keeps the value
/// below 2^32.
pub open spec fn leb_ok(b: Seq<u8>, off: int) -> bool {
    leb_len(b, off, 0) >= 1 && (leb_len(b, off, 0) == 5 ==> b[off + 4] < 16)
}

/// The value of the `n` LEB128 bytes at `off`.
pub open spec fn leb_val(b: Seq<u8>, off: int, n: int) -> int
    decreases n,
{
    if n <= 0 {
        0
    } else {
        (b[off] as int) % 128 + 128 * leb_val(b, off + 1, n - 1)
    }
}

pub open spec fn leb_value(b: Seq<u8>, off: int) -> int {
    leb_val(b, off, leb_len(b, off, 0))
}

/// A LEB128 value is never negative.
pub proof fn lemma_leb_val_nonneg(b: Seq<u8>, off: int, n: int)
    ensures
        leb_val(b, off, n) >= 0,
    decreases n,
{
    if n > 0 {
        lemma_leb_val_nonneg(b, off + 1, n - 1);
    }
}

/// Read the LEB128 value at `off`: the value and the bytes it occupies, or
/// `None` exactly when no well-formed value starts there.
pub fn read_leb(data: &Vec<u8>, off: usize) -> (r: Option<(u32, usize)>)
    ensures
        match r {
            Some(p) => leb_ok(data@, off as int) && p.0 == leb_value(data@, off as int) && p.1
                == leb_len(data@, off as int, 0) && 1 <= p.1 <= 5 && off + p.1 <= data@.len(),
            None => !leb_ok(data@, off as int),
        },
{
    proof {
        reveal_with_fuel(leb_len, 6);
        reveal_with_fuel(leb_val, 6);
    }
    let n = data.len();
    if off >= n {
        return None;
    }
    let c0 = data[off];
    if c0 < 128 {
        return Some((c0 as u32, 1));
    }
    if n - off < 2 {
        return None;
    }
    let c1 = data[off + 1];
    if c1 < 128 {
        return Some(((c0 - 128) as u32 + 128 * (c1 as u32), 2));
    }
    if n - off < 3 {
        return None;
    }
    let c2 = data[off + 2];
    if c2 < 128 {
        return Some(((c0 - 128) as u32 + 128 * ((c1 - 128) as u32 + 128 * (c2 as u32)), 3));
    }
    if n - off < 4 {
        return None;
    }
    let c3 = data[off + 3];
    if c3 < 128 {
        return Some(
            (
                (c0 - 128) as u32 + 128 * ((c1 - 128) as u32 + 128 * ((c2 - 128) as u32 + 128 * (
                c3 as u32))),
                4,
            ),
        );
    }
    if n - off < 5 {
        return None;
    }
    let c4 = data[off + 4];
    if c4 < 16 {
        return Some(
            (
                (c0 - 128) as u32 + 128 * ((c1 - 128) as u32 + 128 * ((c2 - 128) as u32 + 128 * ((
                c3 - 128) as u32 + 128 * (c4 as u32)))),
                5,
            ),
        );
    }
    None
}

// ---------------------------------------------------------------------------
// Sections.
// ---------------------------------------------------------------------------

/// The name a custom section carries at the head of its payload
/// `[p, p + size)`: a LEB128 length followed by that many name bytes; empty
/// when the head does not fit the payload.
pub open spec fn wasm_custom_name(b: Seq<u8>, p: int, size: int) -> Seq<char> {
    if leb_ok(b, p) && leb_len(b, p, 0) + leb_value(b, p) <= size {
        name_chars(
            b.subrange(p + leb_len(b, p, 0), p + leb_len(b, p, 0) + leb_value(b, p)),
        )
    } else {
        Seq::empty()
    }
}

/// A section's name: the conventional name of its id, or the embedded name
/// of a custom section.
pub open spec fn wasm_sec_name(b: Seq<u8>, id: int, p: int, size: int) -> Seq<char> {
    if id == 0 {
        wasm_custom_name(b, p, size)
    } else if id == 1 {
        "type"@
    } else if id == 2 {
        "import"@
    } else if id == 3 {
        "function"@
    } else if id == 4 {
        "table"@
    } else if id == 5 {
        "memory"@
    } else if id == 6 {
        "global"@
    } else if id == 7 {
        "export"@
    } else if id == 8 {
        "start"@
    } else if id == 9 {
        "element"@
    } else if id == 10 {
        "code"@
    } else if id == 11 {
        "data"@
    } else if id == 12 {
        "datacount"@
    } else {
        Seq::empty()
    }
}

/// The normalized record of the section with ordinal `ord`, id `id` and
/// payload `[p, p + size)`: sections have no address and no declared
/// alignment, and are always file-backed by their payload.
pub open spec fn wasm_sec_rec(b: Seq<u8>, ord: int, id: int, p: int, size: int) -> SectionRec {
    SectionRec {
        index: ord,
        address: 0,
        size: size,
        align: 1,
        file_range: Some((p, size)),
        name: wasm_sec_name(b, id, p, size),
    }
}

// ---------------------------------------------------------------------------
// Export symbols.
// ---------------------------------------------------------------------------

/// The normalized kind of an export: functions are code, globals are data,
/// tables and memories have no counterpart.
pub open spec fn wasm_export_kind(k: int) -> SymbolKind {
    if k == 0 {
        SymbolKind::Text
    } else if k == 3 {
        SymbolKind::Data
    } else {
        SymbolKind::Unknown
    }
}

/// The symbols of the `cnt` remaining export entries at `off`, each a
/// LEB128 name length, the name bytes, a kind byte and a LEB128 index; the
/// exported index is the symbol's address.  Entries must stay inside the
/// section, which ends at `end`.
pub open spec fn wasm_exports(b: Seq<u8>, off: int, end: int, cnt: int, ord: int) -> Result<
    Seq<SymbolRec>,
    ErrorRec,
>
    decreases cnt,
{
    if cnt <= 0 {
        Ok(Seq::empty())
    } else if !leb_ok(b, off) {
        Err(ErrorRec { kind: ErrorKind::MalformedHeader, offset: off })
    } else {
        let nl = leb_value(b, off);
        let nstart = off + leb_len(b, off, 0);
        if nstart + nl + 1 > end {
            Err(ErrorRec { kind: ErrorKind::TruncatedTable, offset: off })
        } else {
            let idxoff = nstart + nl + 1;
            if !leb_ok(b, idxoff) {
                Err(ErrorRec { kind: ErrorKind::MalformedHeader, offset: idxoff })
            } else if idxoff + leb_len(b, idxoff, 0) > end {
                Err(ErrorRec { kind: ErrorKind::TruncatedTable, offset: idxoff })
            } else {
                let rec = SymbolRec {
                    index: ord,
                    name: name_chars(b.subrange(nstart, nstart + nl)),
                    address: leb_value(b, idxoff),
                    kind: wasm_export_kind(b[nstart + nl] as int),
                };
                match wasm_exports(b, idxoff + leb_len(b, idxoff, 0), end, cnt - 1, ord + 1) {
                    Ok(rest) => Ok(seq![rec] + rest),
                    Err(e) => Err(e),
                }
            }
        }
    }
}

/// The symbols of an export section with payload `[p, p + size)`: its entry
/// count followed by that many entries.
pub open spec fn wasm_exports_of(b: Seq<u8>, p: int, size: int) -> Result<
    Seq<SymbolRec>,
    ErrorRec,
> {
    if !leb_ok(b, p) {
        Err(ErrorRec { kind: ErrorKind::MalformedHeader, offset: p })
    } else {
        wasm_exports(b, p + leb_len(b, p, 0), p + size, leb_value(b, p), 0)
    }
}

// ---------------------------------------------------------------------------
// The walk over the section stream, and the outcome.
// ---------------------------------------------------------------------------

/// Walk the section stream from `off`: the sections met, with their
/// ordinals from `ord` on, and the symbols of every export section met.  An
/// unknown id or a broken size is a malformed header; a payload past the
/// end of the buffer is a truncation.
pub open spec fn wasm_walk(b: Seq<u8>, off: int, ord: int) -> Result<
    (Seq<SectionRec>, Seq<SymbolRec>),
    ErrorRec,
>
    decreases b.len() - off,
    via wasm_walk_decreases
{
    if off < 0 || off >= b.len() {
        Ok((Seq::empty(), Seq::empty()))
    } else if b[off] > 12 {
        Err(ErrorRec { kind: ErrorKind::MalformedHeader, offset: off })
    } else if !leb_ok(b, off + 1) {
        Err(ErrorRec { kind: ErrorKind::MalformedHeader, offset: off + 1 })
    } else {
        let size = leb_value(b, off + 1);
        let p = off + 1 + leb_len(b, off + 1, 0);
        if p + size > b.len() {
            Err(ErrorRec { kind: ErrorKind::TruncatedTable, offset: off + 1 })
        } else {
            let here = wasm_sec_rec(b, ord, b[off] as int, p, size);
            let syms_here: Result<Seq<SymbolRec>, ErrorRec> = if b[off] == 7 {
                wasm_exports_of(b, p, size)
            } else {
                Ok(Seq::empty())
            };
            match syms_here {
                Err(e) => Err(e),
                Ok(sy) => match wasm_walk(b, p + size, ord + 1) {
                    Ok(rest) => Ok((seq![here] + rest.0, sy + rest.1)),
                    Err(e) => Err(e),
                },
            }
        }
    }
}

#[via_fn]
proof fn wasm_walk_decreases(b: Seq<u8>, off: int, ord: int) {
    if 0 <= off < b.len() && b[off] <= 12 && leb_ok(b, off + 1) {
        lemma_leb_val_nonneg(b, off + 1, leb_len(b, off + 1, 0));
    }
}

/// What parsing a WebAssembly buffer yields: a version other than 1 is an
/// unsupported variant; otherwise the walk over the whole section stream.
pub open spec fn wasm_outcome(b: Seq<u8>) -> Result<FileRec, ErrorRec> {
    if b.len() < 8 {
        Err(ErrorRec { kind: ErrorKind::MalformedHeader, offset: 0 })
    } else if u32_le(b, 4) != 1 {
        Err(ErrorRec { kind: ErrorKind::UnsupportedVariant, offset: 4 })
    } else {
        match wasm_walk(b, 8, 0) {
            Ok(pair) => Ok(
                FileRec {
                    format: BinaryFormat::Wasm,
                    sections: pair.0,
                    symbols: pair.1,
                    dynamic: Seq::empty(),
                },
            ),
            Err(e) => Err(e),
        }
    }
}

// ---------------------------------------------------------------------------
// The reader.
// ---------------------------------------------------------------------------

/// Parse one export section's payload into its symbols.
fn parse_exports(data: &Vec<u8>, p: usize, size: u32) -> (r: Result<Vec<SymbolInfo>, Error>)
    requires
        p + size <= data@.len(),
    ensures
        match r {
            Ok(v) => wasm_exports_of(data@, p as int, size as int) == Ok::<
                Seq<SymbolRec>,
                ErrorRec,
            >(syms_rec(v@)),
            Err(e) => wasm_exports_of(data@, p as int, size as int) == Err::<
                Seq<SymbolRec>,
                ErrorRec,
            >(e@),
        },
{
    let ghost b = data@;
    let n = data.len();
    let end = p + size as usize;
    let (cnt, lc) = match read_leb(data, p) {
        None => {
            return Err(Error { kind: ErrorKind::MalformedHeader, offset: p });
        },
        Some(q) => q,
    };
    let ghost estart = p + lc;
    let mut ex: Vec<SymbolInfo> = Vec::new();
    let mut eoff: usize = p + lc;
    let mut rem: u32 = cnt;
    while rem > 0
        invariant
            b == data@,
            n == b.len(),
            p + size <= n,
            end == p + size,
            eoff <= n,
            leb_ok(b, p as int),
            lc == leb_len(b, p as int, 0),
            cnt == leb_value(b, p as int),
            estart == p + lc,
            ex@.len() + rem == cnt,
            forall|k: int| 0 <= k < ex@.len() ==> (#[trigger] ex@[k])@.index == k,
            ({
                let full = wasm_exports(b, estart as int, end as int, cnt as int, 0);
                let tail = wasm_exports(b, eoff as int, end as int, rem as int, ex@.len() as int);
                match tail {
                    Ok(rest) => full == Ok::<Seq<SymbolRec>, ErrorRec>(syms_rec(ex@) + rest),
                    Err(e) => full == Err::<Seq<SymbolRec>, ErrorRec>(e),
                }
            }),
        decreases rem,
    {
        let ghost tail0 = wasm_exports(b, eoff as int, end as int, rem as int, ex@.len() as int);
        let (nl, l1) = match read_leb(data, eoff) {
            None => {
                return Err(Error { kind: ErrorKind::MalformedHeader, offset: eoff });
            },
            Some(q) => q,
        };
        let nstart = eoff + l1;
        if nstart > end || nl as u64 + 1 > (end - nstart) as u64 {
            return Err(Error { kind: ErrorKind::TruncatedTable, offset: eoff });
        }
        let kind_b = data[nstart + nl as usize];
        let idxoff = nstart + nl as usize + 1;
        let (iv, il) = match read_leb(data, idxoff) {
            None => {
                return Err(Error { kind: ErrorKind::MalformedHeader, offset: idxoff });
            },
            Some(q) => q,
        };
        if idxoff + il > end {
            return Err(Error { kind: ErrorKind::TruncatedTable, offset: idxoff });
        }
        let name = read_lp_name(data, nstart, nl as usize);
        let kind = if kind_b == 0 {
            SymbolKind::Text
        } else if kind_b == 3 {
            SymbolKind::Data
        } else {
            SymbolKind::Unknown
        };
        let rec = SymbolInfo { index: ex.len(), name, address: iv as u64, kind };
        let ghost prev = ex@;
        let ghost ord = ex@.len() as int;
        assert(rec@ == SymbolRec {
            index: ord,
            name: name_chars(b.subrange(nstart as int, nstart as int + nl as int)),
            address: leb_value(b, idxoff as int),
            kind: wasm_export_kind(b[nstart as int + nl as int] as int),
        });
        ex.push(rec);
        eoff = idxoff + il;
        rem = rem - 1;
        proof {
            reveal_with_fuel(wasm_exports, 2);
            assert(syms_rec(ex@) =~= syms_rec(prev) + seq![rec@]);
            match wasm_exports(b, eoff as int, end as int, rem as int, ord + 1) {
                Ok(rest2) => {
                    assert(tail0 == Ok::<Seq<SymbolRec>, ErrorRec>(seq![rec@] + rest2));
                    assert(syms_rec(prev) + (seq![rec@] + rest2) =~= syms_rec(ex@) + rest2);
                },
                Err(e2) => {
                    assert(tail0 == Err::<Seq<SymbolRec>, ErrorRec>(e2));
                },
            }
        }
    }
    Ok(ex)
}

/// Parse a WebAssembly buffer: its section stream into normalized section
/// records and its export sections into symbols, exactly as
/// [`wasm_outcome`] says, never reading out of bounds.
pub fn parse_wasm(data: &Vec<u8>) -> (r: Result<ParsedFile, Error>)
    ensures
        match r {
            Ok(pf) => pf.wf() && wasm_outcome(data@) == Ok::<FileRec, ErrorRec>(pf@),
            Err(e) => wasm_outcome(data@) == Err::<FileRec, ErrorRec>(e@),
        },
{
    let ghost b = data@;
    let n = data.len();
    if n < 8 {
        return Err(Error { kind: ErrorKind::MalformedHeader, offset: 0 });
    }
    if read_u32(data, 4, true) != 1 {
        return Err(Error { kind: ErrorKind::UnsupportedVariant, offset: 4 });
    }
    let mut secs: Vec<SectionInfo> = Vec::new();
    let mut syms: Vec<SymbolInfo> = Vec::new();
    let mut off: usize = 8;
    while off < n
        invariant
            b == data@,
            n == b.len(),
            n >= 8,
            u32_le(b, 4) == 1,
            8 <= off <= n,
            forall|k: int| 0 <= k < secs@.len() ==> (#[trigger] secs@[k])@.index == k,
            ({
                let full = wasm_walk(b, 8, 0);
                let tail = wasm_walk(b, off as int, secs@.len() as int);
                match tail {
                    Ok(rest) => full == Ok::<(Seq<SectionRec>, Seq<SymbolRec>), ErrorRec>(
                        (secs_rec(secs@) + rest.0, syms_rec(syms@) + rest.1),
                    ),
                    Err(e) => full == Err::<(Seq<SectionRec>, Seq<SymbolRec>), ErrorRec>(e),
                }
            }),
        decreases n - off,
    {
        let ghost tail0 = wasm_walk(b, off as int, secs@.len() as int);
        let id = data[off];
        if id > 12 {
            return Err(Error { kind: ErrorKind::MalformedHeader, offset: off });
        }
        let (size32, l) = match read_leb(data, off + 1) {
            None => {
                return Err(Error { kind: ErrorKind::MalformedHeader, offset: off + 1 });
            },
            Some(q) => q,
        };
        let p64 = off as u64 + 1 + l as u64;
        if size32 as u64 > n as u64 - p64 {
            return Err(Error { kind: ErrorKind::TruncatedTable, offset: off + 1 });
        }
        let p = p64 as usize;
        let size_us = size32 as usize;
        let name: String = if id == 0 {
            match read_leb(data, p) {
                Some((cnl, cll)) => {
                    if cll as u64 + cnl as u64 <= size32 as u64 {
                        read_lp_name(data, p + cll, cnl as usize)
                    } else {
                        String::new()
                    }
                },
                None => String::new(),
            }
        } else if id == 1 {
            "type".to_owned()
        } else if id == 2 {
            "import".to_owned()
        } else if id == 3 {
            "function".to_owned()
        } else if id == 4 {
            "table".to_owned()
        } else if id == 5 {
            "memory".to_owned()
        } else if id == 6 {
            "global".to_owned()
        } else if id == 7 {
            "export".to_owned()
        } else if id == 8 {
            "start".to_owned()
        } else if id == 9 {
            "element".to_owned()
        } else if id == 10 {
            "code".to_owned()
        } else if id == 11 {
            "data".to_owned()
        } else {
            "datacount".to_owned()
        };
        let rec = SectionInfo {
            index: secs.len(),
            address: 0,
            size: size32 as u64,
            align: 1,
            file_range: Some((p as u64, size32 as u64)),
            name,
        };
        assert(rec@ == wasm_sec_rec(b, secs@.len() as int, id as int, p as int, size32 as int));
        let ghost off0 = off as int;
        let ghost ord0 = secs@.len() as int;
        let ghost prev_secs = secs@;
        let ghost syms_entry = syms@;
        let ghost mut sy_spec: Seq<SymbolRec> = Seq::empty();
        if id == 7 {
            let ex = match parse_exports(data, p, size32) {
                Err(e) => {
                    return Err(e);
                },
                Ok(v) => v,
            };
            proof {
                sy_spec = syms_rec(ex@);
            }
            let mut ex_mut = ex;
            syms.append(&mut ex_mut);
            assert(syms_rec(syms@) =~= syms_rec(syms_entry) + sy_spec);
        }
        secs.push(rec);
        off = p + size_us;
        proof {
            reveal_with_fuel(wasm_walk, 2);
            assert(syms_rec(syms@) =~= syms_rec(syms_entry) + sy_spec);
            assert(secs_rec(secs@) =~= secs_rec(prev_secs) + seq![rec@]);
            match wasm_walk(b, off as int, ord0 + 1) {
                Ok(rest2) => {
                    assert(tail0 == Ok::<(Seq<SectionRec>, Seq<SymbolRec>), ErrorRec>(
                        (seq![rec@] + rest2.0, sy_spec + rest2.1),
                    ));
                    assert(secs_rec(prev_secs) + (seq![rec@] + rest2.0) =~= secs_rec(secs@)
                        + rest2.0);
                    assert(syms_rec(syms_entry) + (sy_spec + rest2.1) =~= syms_rec(syms@)
                        + rest2.1);
                },
                Err(e2) => {
                    assert(tail0 == Err::<(Seq<SectionRec>, Seq<SymbolRec>), ErrorRec>(e2));
                },
            }
        }
    }
    let pf = ParsedFile { format: BinaryFormat::Wasm, sections: secs, symbols: syms, dynamic: Vec::new() };
    proof {
        assert(syms_rec(pf.dynamic@) =~= Seq::<SymbolRec>::empty());
        assert(secs_rec(pf.sections@) + Seq::<SectionRec>::empty() =~= secs_rec(pf.sections@));
        assert(syms_rec(pf.symbols@) + Seq::<SymbolRec>::empty() =~= syms_rec(pf.symbols@));
    }
    Ok(pf)
}

} // verus!
