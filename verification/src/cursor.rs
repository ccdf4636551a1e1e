//! Cursor-style byte primitives: big-endian fixed-width integers read at a
//! byte offset, and NUL scanning. Each primitive has a spec-level twin that
//! the decoders' contracts are stated over.

use vstd::prelude::*;

verus! {

/// Big-endian unsigned 16-bit integer at offset `i` of `s`.
pub open spec fn be_u16_at(s: Seq<u8>, i: int) -> u16
    recommends
        0 <= i,
        i + 2 <= s.len(),
{
    (s[i] * 0x100 + s[i + 1]) as u16
}

/// Big-endian signed 16-bit integer at offset `i` of `s` (two's complement).
pub open spec fn be_i16_at(s: Seq<u8>, i: int) -> i16
    recommends
        0 <= i,
        i + 2 <= s.len(),
{
    if be_u16_at(s, i) < 0x8000 {
        be_u16_at(s, i) as i16
    } else {
        (be_u16_at(s, i) - 0x10000) as i16
    }
}

/// Big-endian unsigned 32-bit integer at offset `i` of `s`.
pub open spec fn be_u32_at(s: Seq<u8>, i: int) -> u32
    recommends
        0 <= i,
        i + 4 <= s.len(),
{
    (s[i] * 0x1000000 + s[i + 1] * 0x10000 + s[i + 2] * 0x100 + s[i + 3]) as u32
}

/// Big-endian unsigned 64-bit integer at offset `i` of `s`.
pub open spec fn be_u64_at(s: Seq<u8>, i: int) -> u64
    recommends
        0 <= i,
        i + 8 <= s.len(),
{
    (be_u32_at(s, i) * 0x100000000 + be_u32_at(s, i + 4)) as u64
}

/// Offset of the first NUL byte in `s[from..end]`, if any.
pub open spec fn find_nul(s: Seq<u8>, from: int, end: int) -> Option<int>
    recommends
        0 <= from,
        end <= s.len(),
    decreases end - from,
{
    if from >= end {
        None
    } else if s[from] == 0 {
        Some(from)
    } else {
        find_nul(s, from + 1, end)
    }
}

pub proof fn lemma_find_nul_found(s: Seq<u8>, from: int, end: int, k: int)
    requires
        0 <= from <= k < end <= s.len(),
        s[k] == 0,
        forall|j: int| from <= j < k ==> s[j] != 0,
    ensures
        find_nul(s, from, end) == Some(k),
    decreases k - from,
{
    if from < k {
        lemma_find_nul_found(s, from + 1, end, k);
    }
}

pub proof fn lemma_find_nul_some(s: Seq<u8>, from: int, end: int, k: int)
    requires
        0 <= from,
        end <= s.len(),
        find_nul(s, from, end) == Some(k),
    ensures
        from <= k < end,
        s[k] == 0,
        forall|j: int| from <= j < k ==> s[j] != 0,
    decreases end - from,
{
    if from < end && s[from] != 0 {
        lemma_find_nul_some(s, from + 1, end, k);
    }
}

pub proof fn lemma_find_nul_none(s: Seq<u8>, from: int, end: int)
    requires
        0 <= from,
        end <= s.len(),
        forall|j: int| from <= j < end ==> s[j] != 0,
    ensures
        find_nul(s, from, end) is None,
    decreases end - from,
{
    if from < end {
        lemma_find_nul_none(s, from + 1, end);
    }
}

/// Reads the byte at offset `pos`.
pub fn u8_at(s: &[u8], pos: u64) -> (r: u8)
    requires
        pos + 1 <= s@.len(),
    ensures
        r == s@[pos as int],
{
    s[pos as usize]
}

/// Reads a big-endian u16 at offset `pos`.
pub fn read_be_u16(s: &[u8], pos: u64) -> (r: u16)
    requires
        pos + 2 <= s@.len(),
    ensures
        r == be_u16_at(s@, pos as int),
{
    let p = pos as usize;
    (s[p] as u16) * 0x100 + (s[p + 1] as u16)
}

/// Reads a big-endian i16 at offset `pos`.
pub fn read_be_i16(s: &[u8], pos: u64) -> (r: i16)
    requires
        pos + 2 <= s@.len(),
    ensures
        r == be_i16_at(s@, pos as int),
{
    let v = read_be_u16(s, pos);
    if v < 0x8000 {
        v as i16
    } else {
        (v as i32 - 0x10000) as i16
    }
}

/// Reads a big-endian u32 at offset `pos`.
pub fn read_be_u32(s: &[u8], pos: u64) -> (r: u32)
    requires
        pos + 4 <= s@.len(),
    ensures
        r == be_u32_at(s@, pos as int),
{
    let p = pos as usize;
    (s[p] as u32) * 0x1000000 + (s[p + 1] as u32) * 0x10000 + (s[p + 2] as u32) * 0x100 + (s[p
        + 3] as u32)
}

/// Reads a big-endian u64 at offset `pos`.
pub fn read_be_u64(s: &[u8], pos: u64) -> (r: u64)
    requires
        pos + 8 <= s@.len(),
    ensures
        r == be_u64_at(s@, pos as int),
{
    let hi = read_be_u32(s, pos);
    let n = s.len();
    assert(pos + 8 <= n);
    let p = pos as usize;
    let lo = (s[p + 4] as u32) * 0x1000000 + (s[p + 5] as u32) * 0x10000 + (s[p + 6] as u32) * 0x100
        + (s[p + 7] as u32);
    assert(lo == be_u32_at(s@, pos + 4));
    (hi as u64) * 0x100000000 + (lo as u64)
}

/// Scans `s[from..end]` for the first NUL byte.
pub fn scan_nul(s: &[u8], from: u64, end: u64) -> (r: Option<u64>)
    requires
        end <= s@.len(),
    ensures
        r is Some <==> find_nul(s@, from as int, end as int) is Some,
        r matches Some(k) ==> find_nul(s@, from as int, end as int) == Some(k as int),
{
    let mut i: u64 = from;
    while i < end
        invariant
            from <= i,
            i <= end || i == from,
            end <= s@.len(),
            forall|j: int| from <= j < i ==> s@[j] != 0,
        decreases end - i,
    {
        if s[i as usize] == 0 {
            proof {
                lemma_find_nul_found(s@, from as int, end as int, i as int);
            }
            return Some(i);
        }
        i = i + 1;
    }
    proof {
        if from <= end {
            lemma_find_nul_none(s@, from as int, end as int);
        }
    }
    None
}

} // verus!
