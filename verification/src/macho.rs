//! The Mach-O reader, for 32- and 64-bit files of either byte order, and
//! for fat (multi-architecture) containers.
//!
//! Sections come from the `LC_SEGMENT`/`LC_SEGMENT_64` load commands, in
//! command order; symbols from the first `LC_SYMTAB` command; dynamic
//! symbols are the externally defined range the first `LC_DYSYMTAB` command
//! names within that table.  A fat container is parsed by selecting exactly
//! one slice — always the first, so selection is deterministic — and
//! parsing it as a thin file at its offset.  All file offsets inside a
//! slice are relative to the slice; the records report them relative to the
//! whole buffer.  The nlist entry does not distinguish code from data, so
//! symbols defined in a section are normalized to `Text` and all others to
//! `Unknown`.

use vstd::prelude::*;
use vstd::arithmetic::mul::lemma_mul_inequality;
use crate::bytes::{cstr_from, name_chars, read_u32, read_u64, resolve_name, u32_at, u64_at};
use crate::error::{Error, ErrorKind, ErrorRec};
use crate::file::{FileRec, ParsedFile};
use crate::records::{secs_rec, syms_rec, BinaryFormat, SectionInfo, SectionRec, SymbolInfo,
    SymbolKind, SymbolRec};

verus! {

/// `LC_SEGMENT`.
pub const SEG32_CMD: u32 = 1;

/// `LC_SEGMENT_64`.
pub const SEG64_CMD: u32 = 0x19;

/// `LC_SYMTAB`.
pub const SYMTAB_CMD: u32 = 2;

/// `LC_DYSYMTAB`.
pub const DYSYMTAB_CMD: u32 = 0xb;

// ---------------------------------------------------------------------------
// Magic and header.
// ---------------------------------------------------------------------------

/// A thin Mach-O magic at `s`, 4 bytes of either byte order and width.
pub open spec fn macho_thin_magic(b: Seq<u8>, s: int) -> bool {
    s + 4 <= b.len() && ((b[s] == 0xfe && b[s + 1] == 0xed && b[s + 2] == 0xfa && (b[s + 3]
        == 0xce || b[s + 3] == 0xcf)) || ((b[s] == 0xce || b[s] == 0xcf) && b[s + 1] == 0xfa && b[s
        + 2] == 0xed && b[s + 3] == 0xfe))
}

/// The slice at `s` is little-endian (the magic is byte-swapped).
pub open spec fn macho_le(b: Seq<u8>, s: int) -> bool {
    b[s] == 0xce || b[s] == 0xcf
}

/// The slice at `s` is 64-bit.
pub open spec fn macho_is64(b: Seq<u8>, s: int) -> bool {
    if macho_le(b, s) {
        b[s] == 0xcf
    } else {
        b[s + 3] == 0xcf
    }
}

pub open spec fn macho_hdrsize(b: Seq<u8>, s: int) -> int {
    if macho_is64(b, s) {
        32
    } else {
        28
    }
}

pub open spec fn macho_ncmds(b: Seq<u8>, s: int) -> int {
    u32_at(b, s + 16, macho_le(b, s))
}

// ---------------------------------------------------------------------------
// Sections from the segment commands.
// ---------------------------------------------------------------------------

/// How many sections the segment command at `off` declares.
pub open spec fn macho_nsects(b: Seq<u8>, le: bool, is64: bool, off: int) -> int {
    if is64 {
        u32_at(b, off + 64, le)
    } else {
        u32_at(b, off + 48, le)
    }
}

/// The segment command's own header size and its per-section entry size.
pub open spec fn macho_seg_hs(is64: bool) -> int {
    if is64 {
        72
    } else {
        56
    }
}

pub open spec fn macho_sec_es(is64: bool) -> int {
    if is64 {
        80
    } else {
        68
    }
}

/// The normalized record of the section entry at `e`, with ordinal `idx`.
/// Zero-fill sections have no file range; the alignment field is a power
/// exponent.
pub open spec fn macho_sec_rec(b: Seq<u8>, s: int, le: bool, is64: bool, e: int, idx: int)
    -> SectionRec {
    let size = if is64 {
        u64_at(b, e + 40, le)
    } else {
        u32_at(b, e + 36, le)
    };
    let aexp = if is64 {
        u32_at(b, e + 52, le)
    } else {
        u32_at(b, e + 44, le)
    };
    let fileoff = if is64 {
        u32_at(b, e + 48, le)
    } else {
        u32_at(b, e + 40, le)
    };
    let flags = if is64 {
        u32_at(b, e + 64, le)
    } else {
        u32_at(b, e + 56, le)
    };
    let t = flags % 256;
    SectionRec {
        index: idx,
        address: if is64 {
            u64_at(b, e + 32, le)
        } else {
            u32_at(b, e + 32, le)
        },
        size: size,
        align: if aexp <= 63 {
            (1u64 << (aexp as u64)) as int
        } else {
            1
        },
        file_range: if t == 1 || t == 0xc || t == 0x12 {
            None
        } else {
            Some((s + fileoff, size))
        },
        name: name_chars(cstr_from(b, e, e + 16)),
    }
}

/// The section records of the segment command at `off`, with ordinals from
/// `ord` on.
pub open spec fn macho_seg_secs(b: Seq<u8>, s: int, le: bool, is64: bool, off: int, ord: int)
    -> Seq<SectionRec> {
    Seq::new(
        macho_nsects(b, le, is64, off) as nat,
        |j: int| macho_sec_rec(b, s, le, is64, off + macho_seg_hs(is64) + j * macho_sec_es(is64),
            ord + j),
    )
}

/// Walk the `k` load commands at `off`, collecting the section records of
/// every segment command; a command that does not fit `[off, lim)`, or a
/// segment whose section entries do not fit the command, is malformed.
pub open spec fn macho_secs_walk(
    b: Seq<u8>,
    s: int,
    lim: int,
    le: bool,
    is64: bool,
    off: int,
    k: int,
    ord: int,
) -> Result<Seq<SectionRec>, ErrorRec>
    decreases k,
{
    if k <= 0 {
        Ok(Seq::empty())
    } else if off + 8 > lim {
        Err(ErrorRec { kind: ErrorKind::MalformedHeader, offset: off })
    } else {
        let cmd = u32_at(b, off, le);
        let csize = u32_at(b, off + 4, le);
        if csize < 8 || off + csize > lim {
            Err(ErrorRec { kind: ErrorKind::MalformedHeader, offset: off + 4 })
        } else if (cmd == SEG32_CMD && !is64) || (cmd == SEG64_CMD && is64) {
            if csize < macho_seg_hs(is64) {
                Err(ErrorRec { kind: ErrorKind::MalformedHeader, offset: off })
            } else if macho_seg_hs(is64) + macho_nsects(b, le, is64, off) * macho_sec_es(is64)
                > csize {
                Err(ErrorRec { kind: ErrorKind::MalformedHeader, offset: off })
            } else {
                match macho_secs_walk(
                    b,
                    s,
                    lim,
                    le,
                    is64,
                    off + csize,
                    k - 1,
                    ord + macho_nsects(b, le, is64, off),
                ) {
                    Ok(rest) => Ok(macho_seg_secs(b, s, le, is64, off, ord) + rest),
                    Err(e) => Err(e),
                }
            }
        } else {
            match macho_secs_walk(b, s, lim, le, is64, off + csize, k - 1, ord) {
                Ok(rest) => Ok(rest),
                Err(e) => Err(e),
            }
        }
    }
}

/// The offset of the first command with id `want` among the `k` commands at
/// `off`; -1 when there is none (or the walk breaks, which the section walk
/// reports).
pub open spec fn macho_find_cmd(
    b: Seq<u8>,
    lim: int,
    le: bool,
    off: int,
    k: int,
    want: int,
) -> int
    decreases k,
{
    if k <= 0 || off + 8 > lim {
        -1
    } else {
        let cmd = u32_at(b, off, le);
        let csize = u32_at(b, off + 4, le);
        if csize < 8 || off + csize > lim {
            -1
        } else if cmd == want {
            off
        } else {
            macho_find_cmd(b, lim, le, off + csize, k - 1, want)
        }
    }
}

// ---------------------------------------------------------------------------
// Symbols from the symbol table command.
// ---------------------------------------------------------------------------

pub open spec fn macho_nlsize(is64: bool) -> int {
    if is64 {
        16
    } else {
        12
    }
}

/// The normalized kind of an nlist type byte: symbols defined in a section
/// are code (`Text`); stabs and all others carry no kind this layer can
/// name.
pub open spec fn macho_sym_kind(t: int) -> SymbolKind {
    if t / 32 != 0 {
        SymbolKind::Unknown
    } else if (t / 2) % 8 == 7 {
        SymbolKind::Text
    } else {
        SymbolKind::Unknown
    }
}

/// The normalized record of nlist entry `j`, as symbol number `idx` of its
/// list; names resolve through the string table the command names.
pub open spec fn macho_sym_rec(
    b: Seq<u8>,
    s: int,
    le: bool,
    is64: bool,
    symoff: int,
    stroff: int,
    strsize: int,
    j: int,
    idx: int,
) -> SymbolRec {
    let e = s + symoff + j * macho_nlsize(is64);
    SymbolRec {
        index: idx,
        name: name_chars(
            cstr_from(b, s + stroff + u32_at(b, e, le), s + stroff + strsize),
        ),
        address: if is64 {
            u64_at(b, e + 8, le)
        } else {
            u32_at(b, e + 8, le)
        },
        kind: macho_sym_kind(b[e + 4] as int),
    }
}

// ---------------------------------------------------------------------------
// Outcomes.
// ---------------------------------------------------------------------------

/// What parsing the thin Mach-O slice `[s, lim)` yields.
pub open spec fn macho_thin_outcome(b: Seq<u8>, s: int, lim: int) -> Result<FileRec, ErrorRec> {
    if !macho_thin_magic(b, s) || s + macho_hdrsize(b, s) > lim {
        Err(ErrorRec { kind: ErrorKind::MalformedHeader, offset: s })
    } else {
        let le = macho_le(b, s);
        let is64 = macho_is64(b, s);
        let cmds0 = s + macho_hdrsize(b, s);
        let k = macho_ncmds(b, s);
        match macho_secs_walk(b, s, lim, le, is64, cmds0, k, 0) {
            Err(e) => Err(e),
            Ok(secs) => {
                let st = macho_find_cmd(b, lim, le, cmds0, k, SYMTAB_CMD as int);
                if st < 0 {
                    Ok(
                        FileRec {
                            format: BinaryFormat::MachO,
                            sections: secs,
                            symbols: Seq::empty(),
                            dynamic: Seq::empty(),
                        },
                    )
                } else if u32_at(b, st + 4, le) < 24 {
                    Err(ErrorRec { kind: ErrorKind::MalformedHeader, offset: st })
                } else {
                    let symoff = u32_at(b, st + 8, le);
                    let nsyms = u32_at(b, st + 12, le);
                    let stroff = u32_at(b, st + 16, le);
                    let strsize = u32_at(b, st + 20, le);
                    if s + symoff + nsyms * macho_nlsize(macho_is64(b, s)) > lim {
                        Err(ErrorRec { kind: ErrorKind::TruncatedTable, offset: st + 8 })
                    } else {
                        let syms = Seq::new(
                            nsyms as nat,
                            |j: int| macho_sym_rec(b, s, le, is64, symoff, stroff, strsize, j, j),
                        );
                        let dy = macho_find_cmd(b, lim, le, cmds0, k, DYSYMTAB_CMD as int);
                        if dy < 0 {
                            Ok(
                                FileRec {
                                    format: BinaryFormat::MachO,
                                    sections: secs,
                                    symbols: syms,
                                    dynamic: Seq::empty(),
                                },
                            )
                        } else if u32_at(b, dy + 4, le) < 24 {
                            Err(ErrorRec { kind: ErrorKind::MalformedHeader, offset: dy })
                        } else {
                            let iext = u32_at(b, dy + 16, le);
                            let next = u32_at(b, dy + 20, le);
                            if iext + next > nsyms {
                                Err(
                                    ErrorRec {
                                        kind: ErrorKind::TruncatedTable,
                                        offset: dy + 16,
                                    },
                                )
                            } else {
                                Ok(
                                    FileRec {
                                        format: BinaryFormat::MachO,
                                        sections: secs,
                                        symbols: syms,
                                        dynamic: Seq::new(
                                            next as nat,
                                            |j: int| macho_sym_rec(
                                                b,
                                                s,
                                                le,
                                                is64,
                                                symoff,
                                                stroff,
                                                strsize,
                                                iext + j,
                                                j,
                                            ),
                                        ),
                                    },
                                )
                            }
                        }
                    }
                }
            },
        }
    }
}

/// A fat container magic at the head of the buffer, either byte order.
pub open spec fn macho_fat_magic(b: Seq<u8>) -> bool {
    b.len() >= 4 && ((b[0] == 0xca && b[1] == 0xfe && b[2] == 0xba && b[3] == 0xbe) || (b[0]
        == 0xbe && b[1] == 0xba && b[2] == 0xfe && b[3] == 0xca))
}

/// A fat header whose magic reads swapped is little-endian.
pub open spec fn macho_fat_le(b: Seq<u8>) -> bool {
    b[0] == 0xbe
}

/// What parsing a Mach-O buffer yields: a fat container selects its first
/// slice and parses it as a thin file; anything without a Mach-O magic is
/// an unsupported variant.
pub open spec fn macho_outcome(b: Seq<u8>) -> Result<FileRec, ErrorRec> {
    if macho_fat_magic(b) {
        let le = macho_fat_le(b);
        if b.len() < 8 {
            Err(ErrorRec { kind: ErrorKind::MalformedHeader, offset: 0 })
        } else if u32_at(b, 4, le) == 0 {
            Err(ErrorRec { kind: ErrorKind::MalformedHeader, offset: 4 })
        } else if 8 + u32_at(b, 4, le) * 20 > b.len() {
            Err(ErrorRec { kind: ErrorKind::TruncatedTable, offset: 4 })
        } else {
            let off = u32_at(b, 16, le);
            let size = u32_at(b, 20, le);
            if off + size > b.len() {
                Err(ErrorRec { kind: ErrorKind::TruncatedTable, offset: 16 })
            } else {
                macho_thin_outcome(b, off, off + size)
            }
        }
    } else if macho_thin_magic(b, 0) {
        macho_thin_outcome(b, 0, b.len() as int)
    } else {
        Err(ErrorRec { kind: ErrorKind::UnsupportedVariant, offset: 0 })
    }
}

// ---------------------------------------------------------------------------
// The reader.
// ---------------------------------------------------------------------------

/// Append the normalized sections of the segment command at `off`.
fn append_segment_sections(
    data: &Vec<u8>,
    s: usize,
    le: bool,
    is64: bool,
    off: usize,
    csize: u32,
    nsects: u32,
    secs: &mut Vec<SectionInfo>,
)
    requires
        s <= 0xffff_ffff,
        off + csize <= data@.len(),
        csize >= macho_seg_hs(is64),
        nsects == macho_nsects(data@, le, is64, off as int),
        macho_seg_hs(is64) + nsects * macho_sec_es(is64) <= csize,
    ensures
        secs_rec(final(secs)@) == secs_rec(old(secs)@) + macho_seg_secs(
            data@,
            s as int,
            le,
            is64,
            off as int,
            old(secs)@.len() as int,
        ),
        final(secs)@.len() == old(secs)@.len() + nsects,
        forall|k: int|
            0 <= k < old(secs)@.len() ==> (#[trigger] final(secs)@[k])@ == old(secs)@[k]@,
        forall|k: int|
            old(secs)@.len() <= k < final(secs)@.len() ==> (#[trigger] final(secs)@[k])@.index
                == k,
{
    let ghost b = data@;
    let n = data.len();
    let hs: usize = if is64 {
        72
    } else {
        56
    };
    let es: usize = if is64 {
        80
    } else {
        68
    };
    let ghost ord0 = secs@.len() as int;
    let nsects_us = nsects as usize;
    let mut j: usize = 0;
    while j < nsects_us
        invariant
            b == data@,
            n == b.len(),
            s <= 0xffff_ffff,
            off + csize <= n,
            csize >= macho_seg_hs(is64),
            nsects_us == nsects,
            nsects == macho_nsects(b, le, is64, off as int),
            macho_seg_hs(is64) + nsects * macho_sec_es(is64) <= csize,
            hs == macho_seg_hs(is64),
            es == macho_sec_es(is64),
            j <= nsects_us,
            secs@.len() == ord0 + j,
            forall|k: int| 0 <= k < ord0 ==> (#[trigger] secs@[k])@ == old(secs)@[k]@,
            forall|k: int|
                ord0 <= k < ord0 + j ==> (#[trigger] secs@[k])@ == macho_sec_rec(
                    b,
                    s as int,
                    le,
                    is64,
                    off + macho_seg_hs(is64) + (k - ord0) * macho_sec_es(is64),
                    k,
                ),
        decreases nsects_us - j,
    {
        proof {
            lemma_mul_inequality(j as int + 1, nsects as int, es as int);
            assert((j as int + 1) * es == j as int * es + es) by (nonlinear_arith);
        }
        let e = off + hs + j * es;
        let name = crate::bytes::read_name(data, e, e + 16);
        let (address, size): (u64, u64) = if is64 {
            (read_u64(data, e + 32, le), read_u64(data, e + 40, le))
        } else {
            (read_u32(data, e + 32, le) as u64, read_u32(data, e + 36, le) as u64)
        };
        let fileoff = if is64 {
            read_u32(data, e + 48, le)
        } else {
            read_u32(data, e + 40, le)
        };
        let aexp = if is64 {
            read_u32(data, e + 52, le)
        } else {
            read_u32(data, e + 44, le)
        };
        let flags = if is64 {
            read_u32(data, e + 64, le)
        } else {
            read_u32(data, e + 56, le)
        };
        let t = flags % 256;
        let rec = SectionInfo {
            index: secs.len(),
            address,
            size,
            align: if aexp <= 63 {
                1u64 << (aexp as u64)
            } else {
                1
            },
            file_range: if t == 1 || t == 0xc || t == 0x12 {
                None
            } else {
                Some((s as u64 + fileoff as u64, size))
            },
            name,
        };
        assert(rec@ == macho_sec_rec(b, s as int, le, is64, e as int, ord0 + j));
        let ghost prev = secs@;
        secs.push(rec);
        proof {
            assert forall|k: int| ord0 <= k < ord0 + j + 1 implies (#[trigger] secs@[k])@
                == macho_sec_rec(
                b,
                s as int,
                le,
                is64,
                off + macho_seg_hs(is64) + (k - ord0) * macho_sec_es(is64),
                k,
            ) by {
                if k < ord0 + j {
                    assert(secs@[k] == prev[k]);
                } else {
                    assert(secs@[k] == rec);
                    assert((k - ord0) * macho_sec_es(is64) == j as int * es as int);
                }
            }
        }
        j = j + 1;
    }
    assert(secs_rec(secs@) =~= secs_rec(old(secs)@) + macho_seg_secs(
        b,
        s as int,
        le,
        is64,
        off as int,
        ord0,
    ));
}

/// Parse the thin Mach-O slice `[s, lim)` of the buffer.
#[verifier::rlimit(60)]
fn parse_macho_at(data: &Vec<u8>, s: usize, lim: usize) -> (r: Result<ParsedFile, Error>)
    requires
        s <= lim <= data@.len(),
        s <= 0xffff_ffff,
    ensures
        match r {
            Ok(pf) => pf.wf() && macho_thin_outcome(data@, s as int, lim as int) == Ok::<
                FileRec,
                ErrorRec,
            >(pf@),
            Err(e) => macho_thin_outcome(data@, s as int, lim as int) == Err::<
                FileRec,
                ErrorRec,
            >(e@),
        },
{
    let ghost b = data@;
    let n = data.len();
    if n - s < 4 || lim - s < 4 {
        return Err(Error { kind: ErrorKind::MalformedHeader, offset: s });
    }
    let m0 = data[s];
    let m1 = data[s + 1];
    let m2 = data[s + 2];
    let m3 = data[s + 3];
    let thin = (m0 == 0xfe && m1 == 0xed && m2 == 0xfa && (m3 == 0xce || m3 == 0xcf)) || ((m0
        == 0xce || m0 == 0xcf) && m1 == 0xfa && m2 == 0xed && m3 == 0xfe);
    if !thin {
        return Err(Error { kind: ErrorKind::MalformedHeader, offset: s });
    }
    let le = m0 == 0xce || m0 == 0xcf;
    let is64 = if le {
        m0 == 0xcf
    } else {
        m3 == 0xcf
    };
    let hdrsize: usize = if is64 {
        32
    } else {
        28
    };
    if lim - s < hdrsize {
        return Err(Error { kind: ErrorKind::MalformedHeader, offset: s });
    }
    let ncmds = read_u32(data, s + 16, le);
    let cmds0 = s + hdrsize;
    let mut secs: Vec<SectionInfo> = Vec::new();
    let mut st_off: Option<usize> = None;
    let mut dy_off: Option<usize> = None;
    let mut off: usize = cmds0;
    let mut k: u32 = ncmds;
    while k > 0
        invariant
            b == data@,
            n == b.len(),
            s <= lim <= n,
            s <= 0xffff_ffff,
            macho_thin_magic(b, s as int),
            le == macho_le(b, s as int),
            is64 == macho_is64(b, s as int),
            cmds0 == s + macho_hdrsize(b, s as int),
            cmds0 <= lim,
            ncmds == macho_ncmds(b, s as int),
            off <= lim,
            forall|k2: int| 0 <= k2 < secs@.len() ==> (#[trigger] secs@[k2])@.index == k2,
            ({
                let full = macho_secs_walk(
                    b,
                    s as int,
                    lim as int,
                    le,
                    is64,
                    cmds0 as int,
                    ncmds as int,
                    0,
                );
                let tail = macho_secs_walk(
                    b,
                    s as int,
                    lim as int,
                    le,
                    is64,
                    off as int,
                    k as int,
                    secs@.len() as int,
                );
                match tail {
                    Ok(rest) => full == Ok::<Seq<SectionRec>, ErrorRec>(secs_rec(secs@) + rest),
                    Err(e) => full == Err::<Seq<SectionRec>, ErrorRec>(e),
                }
            }),
            ({
                let f = macho_find_cmd(
                    b,
                    lim as int,
                    le,
                    cmds0 as int,
                    ncmds as int,
                    SYMTAB_CMD as int,
                );
                match st_off {
                    Some(v) => f == v && v + 8 <= lim && v + u32_at(b, v as int + 4, le) <= lim
                        && u32_at(b, v as int + 4, le) >= 8,
                    None => f == macho_find_cmd(
                        b,
                        lim as int,
                        le,
                        off as int,
                        k as int,
                        SYMTAB_CMD as int,
                    ),
                }
            }),
            ({
                let f = macho_find_cmd(
                    b,
                    lim as int,
                    le,
                    cmds0 as int,
                    ncmds as int,
                    DYSYMTAB_CMD as int,
                );
                match dy_off {
                    Some(v) => f == v && v + 8 <= lim && v + u32_at(b, v as int + 4, le) <= lim
                        && u32_at(b, v as int + 4, le) >= 8,
                    None => f == macho_find_cmd(
                        b,
                        lim as int,
                        le,
                        off as int,
                        k as int,
                        DYSYMTAB_CMD as int,
                    ),
                }
            }),
        decreases k,
    {
        let ghost off0 = off as int;
        let ghost k0 = k as int;
        let ghost ord0g = secs@.len() as int;
        let ghost prev_secs = secs@;
        let ghost tail0 = macho_secs_walk(b, s as int, lim as int, le, is64, off0, k0, ord0g);
        let ghost mut seg_spec: Seq<SectionRec> = Seq::empty();
        if lim - off < 8 {
            return Err(Error { kind: ErrorKind::MalformedHeader, offset: off });
        }
        let cmd = read_u32(data, off, le);
        let csize = read_u32(data, off + 4, le);
        if csize < 8 || csize as u64 > (lim - off) as u64 {
            return Err(Error { kind: ErrorKind::MalformedHeader, offset: off + 4 });
        }
        if (cmd == SEG32_CMD && !is64) || (cmd == SEG64_CMD && is64) {
            let hs: u32 = if is64 {
                72
            } else {
                56
            };
            let es: u32 = if is64 {
                80
            } else {
                68
            };
            if csize < hs {
                return Err(Error { kind: ErrorKind::MalformedHeader, offset: off });
            }
            let nsects = if is64 {
                read_u32(data, off + 64, le)
            } else {
                read_u32(data, off + 48, le)
            };
            if nsects as u64 * es as u64 > (csize - hs) as u64 {
                return Err(Error { kind: ErrorKind::MalformedHeader, offset: off });
            }
            proof {
                seg_spec = macho_seg_secs(b, s as int, le, is64, off0, ord0g);
            }
            append_segment_sections(data, s, le, is64, off, csize, nsects, &mut secs);
        }
        if cmd == SYMTAB_CMD && st_off.is_none() {
            st_off = Some(off);
        }
        if cmd == DYSYMTAB_CMD && dy_off.is_none() {
            dy_off = Some(off);
        }
        off = off + csize as usize;
        k = k - 1;
        proof {
            reveal_with_fuel(macho_secs_walk, 2);
            reveal_with_fuel(macho_find_cmd, 2);
            assert(secs_rec(secs@) =~= secs_rec(prev_secs) + seg_spec);
            match macho_secs_walk(b, s as int, lim as int, le, is64, off as int, k as int,
                secs@.len() as int) {
                Ok(rest2) => {
                    assert(Seq::<SectionRec>::empty() + rest2 =~= rest2);
                    assert(tail0 == Ok::<Seq<SectionRec>, ErrorRec>(seg_spec + rest2));
                    assert(secs_rec(prev_secs) + (seg_spec + rest2) =~= secs_rec(secs@) + rest2);
                },
                Err(e2) => {
                    assert(tail0 == Err::<Seq<SectionRec>, ErrorRec>(e2));
                },
            }
        }
    }
    proof {
        assert(macho_secs_walk(b, s as int, lim as int, le, is64, off as int, k as int,
            secs@.len() as int) == Ok::<Seq<SectionRec>, ErrorRec>(Seq::empty()));
        assert(secs_rec(secs@) + Seq::<SectionRec>::empty() =~= secs_rec(secs@));
        assert(macho_find_cmd(b, lim as int, le, off as int, k as int, SYMTAB_CMD as int) == -1);
        assert(macho_find_cmd(b, lim as int, le, off as int, k as int, DYSYMTAB_CMD as int) == -1);
    }
    // The symbol table command, if any.
    let st = match st_off {
        None => {
            let pf = ParsedFile {
                format: BinaryFormat::MachO,
                sections: secs,
                symbols: Vec::new(),
                dynamic: Vec::new(),
            };
            assert(syms_rec(pf.symbols@) =~= Seq::<SymbolRec>::empty());
            return Ok(pf);
        },
        Some(v) => v,
    };
    let csize_st = read_u32(data, st + 4, le);
    if csize_st < 24 {
        return Err(Error { kind: ErrorKind::MalformedHeader, offset: st });
    }
    let symoff = read_u32(data, st + 8, le);
    let nsyms = read_u32(data, st + 12, le);
    let stroff = read_u32(data, st + 16, le);
    let strsize = read_u32(data, st + 20, le);
    let nlsz: usize = if is64 {
        16
    } else {
        12
    };
    if s as u64 + symoff as u64 > lim as u64 || nsyms as u64 * nlsz as u64 > lim as u64 - (s as u64
        + symoff as u64) {
        return Err(Error { kind: ErrorKind::TruncatedTable, offset: st + 8 });
    }
    let tab = s + symoff as usize;
    let mut symbols: Vec<SymbolInfo> = Vec::new();
    let nsyms_us = nsyms as usize;
    let mut j: usize = 0;
    while j < nsyms_us
        invariant
            b == data@,
            n == b.len(),
            s <= lim <= n,
            s <= 0xffff_ffff,
            le == macho_le(b, s as int),
            is64 == macho_is64(b, s as int),
            nlsz == macho_nlsize(is64),
            nsyms_us == nsyms,
            tab == s + symoff,
            s + symoff + nsyms as int * macho_nlsize(is64) <= lim,
            j <= nsyms_us,
            symbols@.len() == j,
            forall|k2: int|
                0 <= k2 < j ==> (#[trigger] symbols@[k2])@ == macho_sym_rec(
                    b,
                    s as int,
                    le,
                    is64,
                    symoff as int,
                    stroff as int,
                    strsize as int,
                    k2,
                    k2,
                ),
        decreases nsyms_us - j,
    {
        proof {
            lemma_mul_inequality(j as int + 1, nsyms as int, nlsz as int);
            assert((j as int + 1) * nlsz == j as int * nlsz + nlsz) by (nonlinear_arith);
        }
        let e = tab + j * nlsz;
        let strx = read_u32(data, e, le);
        let t = data[e + 4];
        let address: u64 = if is64 {
            read_u64(data, e + 8, le)
        } else {
            read_u32(data, e + 8, le) as u64
        };
        let name = resolve_name(data, s as u64 + stroff as u64, strsize as u64, strx as u64);
        let kind = if t >= 32 {
            SymbolKind::Unknown
        } else if (t / 2) % 8 == 7 {
            SymbolKind::Text
        } else {
            SymbolKind::Unknown
        };
        let rec = SymbolInfo { index: j, name, address, kind };
        assert(rec@ == macho_sym_rec(b, s as int, le, is64, symoff as int, stroff as int,
            strsize as int, j as int, j as int));
        symbols.push(rec);
        j = j + 1;
    }
    // The dynamic symbol range, if a dysymtab command names one.
    let mut dynamic: Vec<SymbolInfo> = Vec::new();
    let ghost dyn_spec: Seq<SymbolRec>;
    match dy_off {
        None => {
            proof {
                dyn_spec = Seq::empty();
            }
        },
        Some(dy) => {
            let csize_dy = read_u32(data, dy + 4, le);
            if csize_dy < 24 {
                return Err(Error { kind: ErrorKind::MalformedHeader, offset: dy });
            }
            let iext = read_u32(data, dy + 16, le);
            let next = read_u32(data, dy + 20, le);
            if iext as u64 + next as u64 > nsyms as u64 {
                return Err(Error { kind: ErrorKind::TruncatedTable, offset: dy + 16 });
            }
            let next_us = next as usize;
            let iext_us = iext as usize;
            let mut j2: usize = 0;
            while j2 < next_us
                invariant
                    b == data@,
                    n == b.len(),
                    s <= lim <= n,
                    s <= 0xffff_ffff,
                    le == macho_le(b, s as int),
                    is64 == macho_is64(b, s as int),
                    nlsz == macho_nlsize(is64),
                    tab == s + symoff,
                    s + symoff + nsyms as int * macho_nlsize(is64) <= lim,
                    iext_us == iext,
                    next_us == next,
                    iext as int + next as int <= nsyms,
                    j2 <= next_us,
                    dynamic@.len() == j2,
                    forall|k2: int|
                        0 <= k2 < j2 ==> (#[trigger] dynamic@[k2])@ == macho_sym_rec(
                            b,
                            s as int,
                            le,
                            is64,
                            symoff as int,
                            stroff as int,
                            strsize as int,
                            iext + k2,
                            k2,
                        ),
                decreases next_us - j2,
            {
                proof {
                    lemma_mul_inequality(iext as int + j2 + 1, nsyms as int, nlsz as int);
                    assert((iext as int + j2 as int + 1) * nlsz == (iext as int + j2 as int) * nlsz
                        + nlsz) by (nonlinear_arith);
                }
                let e = tab + (iext_us + j2) * nlsz;
                let strx = read_u32(data, e, le);
                let t = data[e + 4];
                let address: u64 = if is64 {
                    read_u64(data, e + 8, le)
                } else {
                    read_u32(data, e + 8, le) as u64
                };
                let name = resolve_name(
                    data,
                    s as u64 + stroff as u64,
                    strsize as u64,
                    strx as u64,
                );
                let kind = if t >= 32 {
                    SymbolKind::Unknown
                } else if (t / 2) % 8 == 7 {
                    SymbolKind::Text
                } else {
                    SymbolKind::Unknown
                };
                let rec = SymbolInfo { index: j2, name, address, kind };
                assert(rec@ == macho_sym_rec(b, s as int, le, is64, symoff as int, stroff as int,
                    strsize as int, iext as int + j2 as int, j2 as int));
                dynamic.push(rec);
                j2 = j2 + 1;
            }
            proof {
                dyn_spec = Seq::new(
                    next as nat,
                    |j3: int| macho_sym_rec(b, s as int, le, is64, symoff as int, stroff as int,
                        strsize as int, iext + j3, j3),
                );
                assert(syms_rec(dynamic@) =~= dyn_spec);
            }
        },
    }
    let pf = ParsedFile { format: BinaryFormat::MachO, sections: secs, symbols, dynamic };
    proof {
        assert(syms_rec(pf.symbols@) =~= Seq::new(
            nsyms as nat,
            |j3: int| macho_sym_rec(b, s as int, le, is64, symoff as int, stroff as int,
                strsize as int, j3, j3),
        ));
        assert(syms_rec(pf.dynamic@) =~= dyn_spec);
    }
    Ok(pf)
}

/// Parse a Mach-O buffer: a fat container through its first slice, a thin
/// file whole, exactly as [`macho_outcome`] says, never reading out of
/// bounds.
pub fn parse_macho(data: &Vec<u8>) -> (r: Result<ParsedFile, Error>)
    ensures
        match r {
            Ok(pf) => pf.wf() && macho_outcome(data@) == Ok::<FileRec, ErrorRec>(pf@),
            Err(e) => macho_outcome(data@) == Err::<FileRec, ErrorRec>(e@),
        },
{
    let ghost b = data@;
    let n = data.len();
    if n >= 4 && ((data[0] == 0xca && data[1] == 0xfe && data[2] == 0xba && data[3] == 0xbe) || (
    data[0] == 0xbe && data[1] == 0xba && data[2] == 0xfe && data[3] == 0xca)) {
        let le = data[0] == 0xbe;
        if n < 8 {
            return Err(Error { kind: ErrorKind::MalformedHeader, offset: 0 });
        }
        let nfat = read_u32(data, 4, le);
        if nfat == 0 {
            return Err(Error { kind: ErrorKind::MalformedHeader, offset: 4 });
        }
        if nfat as u64 * 20 > n as u64 - 8 {
            return Err(Error { kind: ErrorKind::TruncatedTable, offset: 4 });
        }
        proof {
            lemma_mul_inequality(1, nfat as int, 20);
        }
        let off = read_u32(data, 16, le);
        let size = read_u32(data, 20, le);
        if off as u64 + size as u64 > n as u64 {
            return Err(Error { kind: ErrorKind::TruncatedTable, offset: 16 });
        }
        return parse_macho_at(data, off as usize, off as usize + size as usize);
    }
    if n >= 4 && ((data[0] == 0xfe && data[1] == 0xed && data[2] == 0xfa && (data[3] == 0xce
        || data[3] == 0xcf)) || ((data[0] == 0xce || data[0] == 0xcf) && data[1] == 0xfa && data[2]
        == 0xed && data[3] == 0xfe)) {
        return parse_macho_at(data, 0, n);
    }
    Err(Error { kind: ErrorKind::UnsupportedVariant, offset: 0 })
}

} // verus!
