//! Bounds-checked readers for the integer fields and strings that object-file
//! headers are made of, together with the spec functions that say exactly
//! which value each reader extracts from the underlying byte sequence.

use vstd::prelude::*;

verus! {

// ---------------------------------------------------------------------------
// Integer fields, little and big endian, as functions of the byte sequence.
// ---------------------------------------------------------------------------

pub open spec fn u16_le(b: Seq<u8>, off: int) -> int {
    b[off] + 0x100 * b[off + 1]
}

pub open spec fn u16_be(b: Seq<u8>, off: int) -> int {
    b[off + 1] + 0x100 * b[off]
}

pub open spec fn u32_le(b: Seq<u8>, off: int) -> int {
    b[off] + 0x100 * b[off + 1] + 0x1_0000 * b[off + 2] + 0x100_0000 * b[off + 3]
}

pub open spec fn u32_be(b: Seq<u8>, off: int) -> int {
    b[off + 3] + 0x100 * b[off + 2] + 0x1_0000 * b[off + 1] + 0x100_0000 * b[off]
}

pub open spec fn u64_le(b: Seq<u8>, off: int) -> int {
    u32_le(b, off) + 0x1_0000_0000 * u32_le(b, off + 4)
}

pub open spec fn u64_be(b: Seq<u8>, off: int) -> int {
    u32_be(b, off + 4) + 0x1_0000_0000 * u32_be(b, off)
}

/// The `u16` field at `off`, read in the byte order selected by `le`.
pub open spec fn u16_at(b: Seq<u8>, off: int, le: bool) -> int {
    if le {
        u16_le(b, off)
    } else {
        u16_be(b, off)
    }
}

pub open spec fn u32_at(b: Seq<u8>, off: int, le: bool) -> int {
    if le {
        u32_le(b, off)
    } else {
        u32_be(b, off)
    }
}

pub open spec fn u64_at(b: Seq<u8>, off: int, le: bool) -> int {
    if le {
        u64_le(b, off)
    } else {
        u64_be(b, off)
    }
}

pub fn read_u16(data: &Vec<u8>, off: usize, le: bool) -> (r: u16)
    requires
        off + 2 <= data@.len(),
    ensures
        r == u16_at(data@, off as int, le),
{
    let _n = data.len();
    let b0 = data[off] as u16;
    let b1 = data[off + 1] as u16;
    if le {
        b0 + 0x100 * b1
    } else {
        b1 + 0x100 * b0
    }
}

pub fn read_u32(data: &Vec<u8>, off: usize, le: bool) -> (r: u32)
    requires
        off + 4 <= data@.len(),
    ensures
        r == u32_at(data@, off as int, le),
{
    let _n = data.len();
    let b0 = data[off] as u32;
    let b1 = data[off + 1] as u32;
    let b2 = data[off + 2] as u32;
    let b3 = data[off + 3] as u32;
    if le {
        b0 + 0x100 * b1 + 0x1_0000 * b2 + 0x100_0000 * b3
    } else {
        b3 + 0x100 * b2 + 0x1_0000 * b1 + 0x100_0000 * b0
    }
}

pub fn read_u64(data: &Vec<u8>, off: usize, le: bool) -> (r: u64)
    requires
        off + 8 <= data@.len(),
    ensures
        r == u64_at(data@, off as int, le),
{
    let _n = data.len();
    let mid = off + 4;
    if le {
        let lo = read_u32(data, off, true) as u64;
        let hi = read_u32(data, mid, true) as u64;
        lo + 0x1_0000_0000 * hi
    } else {
        let lo = read_u32(data, mid, false) as u64;
        let hi = read_u32(data, off, false) as u64;
        lo + 0x1_0000_0000 * hi
    }
}

// ---------------------------------------------------------------------------
// NUL-terminated names.
// ---------------------------------------------------------------------------

/// The bytes from `i` up to the first NUL, staying below `end` and below the
/// end of the buffer; empty when `i` is already outside either bound.
pub open spec fn cstr_from(b: Seq<u8>, i: int, end: int) -> Seq<u8>
    decreases end - i,
{
    if i < 0 || i >= end || i >= b.len() || b[i] == 0 {
        Seq::empty()
    } else {
        seq![b[i]] + cstr_from(b, i + 1, end)
    }
}

pub proof fn lemma_cstr_split(b: Seq<u8>, s: int, j: int, end: int)
    requires
        0 <= s <= j <= end,
        j <= b.len(),
        forall|k: int| s <= k < j ==> b[k] != 0,
    ensures
        cstr_from(b, s, end) =~= b.subrange(s, j) + cstr_from(b, j, end),
    decreases j - s,
{
    if s < j {
        lemma_cstr_split(b, s + 1, j, end);
        assert(cstr_from(b, s, end) =~= seq![b[s]] + cstr_from(b, s + 1, end));
        assert(b.subrange(s, j) =~= seq![b[s]] + b.subrange(s + 1, j));
    } else {
        assert(b.subrange(s, j) =~= Seq::<u8>::empty());
    }
}

/// Clamping the end bound of a NUL-terminated read at the end of the buffer
/// does not change the bytes read.
pub proof fn lemma_cstr_clamp(b: Seq<u8>, i: int, e: int, c: int)
    requires
        c == if e <= b.len() {
            e
        } else {
            b.len() as int
        },
    ensures
        cstr_from(b, i, e) =~= cstr_from(b, i, c),
    decreases c - i,
{
    if 0 <= i && i < c && i < b.len() && b[i] != 0 {
        lemma_cstr_clamp(b, i + 1, e, c);
    }
}

// ---------------------------------------------------------------------------
// ASCII decoding.
// ---------------------------------------------------------------------------

pub open spec fn all_ascii(s: Seq<u8>) -> bool {
    forall|i: int| 0 <= i < s.len() ==> s[i] < 128
}

/// The characters a byte sequence names: its bytes decoded one to one when
/// all of them are ASCII, and the empty name otherwise (name resolution
/// degrades to an empty string instead of failing).
pub open spec fn name_chars(s: Seq<u8>) -> Seq<char> {
    if all_ascii(s) {
        s.map_values(|x: u8| x as char)
    } else {
        Seq::empty()
    }
}

/// Relies on `String::from_utf8`: ASCII bytes decode to the string of the
/// characters with the same codes, one character per byte.
#[verifier::external_body]
fn ascii_to_string(bytes: Vec<u8>) -> (r: String)
    requires
        all_ascii(bytes@),
    ensures
        r@ == bytes@.map_values(|x: u8| x as char),
{
    String::from_utf8(bytes).unwrap_or_default()
}

/// The NUL-terminated name starting at `start` in `data`, stopping at `end`
/// or at the end of the buffer, decoded as ASCII; empty when the name bytes
/// are not all ASCII.
pub fn read_name(data: &Vec<u8>, start: usize, end: usize) -> (r: String)
    ensures
        r@ == name_chars(cstr_from(data@, start as int, end as int)),
{
    let len = data.len();
    let stop: usize = if end < len {
        end
    } else {
        len
    };
    if start >= stop {
        assert(cstr_from(data@, start as int, end as int) =~= Seq::<u8>::empty());
        return String::new();
    }
    let mut out: Vec<u8> = Vec::new();
    let mut ok = true;
    let mut j = start;
    while j < stop && data[j] != 0
        invariant
            start <= j <= stop <= len,
            len == data@.len(),
            stop == if end < len { end } else { len },
            out@ =~= data@.subrange(start as int, j as int),
            forall|k: int| start <= k < j ==> data@[k] != 0,
            ok == all_ascii(out@),
        decreases stop - j,
    {
        let byte = data[j];
        let ghost prev = out@;
        out.push(byte);
        if byte >= 128 {
            ok = false;
        }
        proof {
            assert(out@ =~= data@.subrange(start as int, j + 1));
            assert(out@ == prev.push(byte));
            assert(out@[prev.len() as int] == byte);
            if byte >= 128 {
                assert(!all_ascii(out@));
            } else if !all_ascii(prev) {
                let k = choose|k: int| 0 <= k < prev.len() && prev[k] >= 128;
                assert(out@[k] >= 128);
                assert(!all_ascii(out@));
            } else {
                assert(forall|k: int| 0 <= k < out@.len() ==> out@[k] < 128);
            }
        }
        j = j + 1;
    }
    proof {
        lemma_cstr_split(data@, start as int, j as int, end as int);
        assert(cstr_from(data@, j as int, end as int) =~= Seq::<u8>::empty());
        assert(cstr_from(data@, start as int, end as int) =~= out@);
    }
    if ok {
        ascii_to_string(out)
    } else {
        String::new()
    }
}

/// The `count` bytes at `start`, decoded as an ASCII name: for names that
/// carry their length instead of a terminator.
pub fn read_lp_name(data: &Vec<u8>, start: usize, count: usize) -> (r: String)
    requires
        start + count <= data@.len(),
    ensures
        r@ == name_chars(data@.subrange(start as int, start as int + count as int)),
{
    let n = data.len();
    let mut out: Vec<u8> = Vec::new();
    let mut ok = true;
    let mut j: usize = 0;
    while j < count
        invariant
            start + count <= n,
            n == data@.len(),
            j <= count,
            out@ =~= data@.subrange(start as int, start as int + j as int),
            ok == all_ascii(out@),
        decreases count - j,
    {
        let byte = data[start + j];
        let ghost prev = out@;
        out.push(byte);
        if byte >= 128 {
            ok = false;
        }
        proof {
            assert(out@ =~= data@.subrange(start as int, start as int + j as int + 1));
            assert(out@[prev.len() as int] == byte);
            if byte >= 128 {
                assert(!all_ascii(out@));
            } else if !all_ascii(prev) {
                let k = choose|k: int| 0 <= k < prev.len() && prev[k] >= 128;
                assert(out@[k] >= 128);
                assert(!all_ascii(out@));
            } else {
                assert(forall|k: int| 0 <= k < out@.len() ==> out@[k] < 128);
            }
        }
        j = j + 1;
    }
    if ok {
        ascii_to_string(out)
    } else {
        String::new()
    }
}

/// The name at offset `name_off` of the string table spanning
/// `[str_off, str_off + str_size)` in `data`: its NUL-terminated bytes,
/// decoded as ASCII.  Offsets beyond the buffer resolve to the empty name,
/// as the spec function says they do.
pub fn resolve_name(data: &Vec<u8>, str_off: u64, str_size: u64, name_off: u64) -> (r: String)
    ensures
        r@ == name_chars(
            cstr_from(
                data@,
                str_off as int + name_off as int,
                str_off as int + str_size as int,
            ),
        ),
{
    let n = data.len();
    let n64 = n as u64;
    if str_off >= n64 || name_off >= n64 - str_off {
        assert(cstr_from(data@, str_off as int + name_off as int, str_off as int + str_size as int)
            =~= Seq::<u8>::empty());
        return String::new();
    }
    let start = (str_off + name_off) as usize;
    let end: usize = if str_size > n64 - str_off {
        n
    } else {
        (str_off + str_size) as usize
    };
    proof {
        lemma_cstr_clamp(data@, start as int, str_off as int + str_size as int, end as int);
    }
    read_name(data, start, end)
}

} // verus!
