//! Fixed-width integer fields of the binary tag layouts: little-endian
//! 32-bit words (APE), and the big-endian 24-bit block length of FLAC.

use vstd::prelude::*;

verus! {

/// The value a 4-byte little-endian field holds.
pub open spec fn spec_u32_le(b: Seq<u8>) -> u32
    recommends
        b.len() == 4,
{
    (b[0] + b[1] * 0x100 + b[2] * 0x1_0000 + b[3] * 0x100_0000) as u32
}

/// The 4-byte little-endian encoding of a 32-bit value.
pub open spec fn spec_u32_le_bytes(v: u32) -> Seq<u8> {
    seq![
        (v & 0xff) as u8,
        ((v >> 8) & 0xff) as u8,
        ((v >> 16) & 0xff) as u8,
        ((v >> 24) & 0xff) as u8,
    ]
}

/// The value a 3-byte big-endian field holds.
pub open spec fn spec_u24_be(b: Seq<u8>) -> u32
    recommends
        b.len() == 3,
{
    (b[0] * 0x1_0000 + b[1] * 0x100 + b[2]) as u32
}

pub proof fn lemma_u32_le_round_trip(v: u32)
    ensures
        spec_u32_le(spec_u32_le_bytes(v)) == v,
{
    assert(spec_u32_le(spec_u32_le_bytes(v)) == v) by (bit_vector);
}

/// Read the 4-byte little-endian word at `pos`.
pub fn read_u32_le(data: &[u8], pos: usize) -> (r: Option<u32>)
    ensures
        r is Some <==> pos + 4 <= data@.len(),
        r is Some ==> r->0 == spec_u32_le(data@.subrange(pos as int, pos + 4)),
{
    if pos < data.len() && data.len() - pos >= 4 {
        let b = data[pos] as u32 | (data[pos + 1] as u32) << 8 | (data[pos + 2] as u32) << 16
            | (data[pos + 3] as u32) << 24;
        proof {
            let s = data@.subrange(pos as int, pos + 4);
            let s0 = s[0];
            let s1 = s[1];
            let s2 = s[2];
            let s3 = s[3];
            assert(s0 as u32 | (s1 as u32) << 8 | (s2 as u32) << 16 | (s3 as u32) << 24
                == (s0 + s1 * 0x100 + s2 * 0x1_0000 + s3 * 0x100_0000) as u32) by (bit_vector);
        }
        Some(b)
    } else {
        None
    }
}

/// Read the 3-byte big-endian word at `pos`.
pub fn read_u24_be(data: &[u8], pos: usize) -> (r: Option<u32>)
    ensures
        r is Some <==> pos + 3 <= data@.len(),
        r is Some ==> r->0 == spec_u24_be(data@.subrange(pos as int, pos + 3)),
{
    if pos < data.len() && data.len() - pos >= 3 {
        let b = (data[pos] as u32) << 16 | (data[pos + 1] as u32) << 8 | data[pos + 2] as u32;
        proof {
            let s = data@.subrange(pos as int, pos + 3);
            let s0 = s[0];
            let s1 = s[1];
            let s2 = s[2];
            assert((s0 as u32) << 16 | (s1 as u32) << 8 | s2 as u32
                == (s0 * 0x1_0000 + s1 * 0x100 + s2) as u32) by (bit_vector);
        }
        Some(b)
    } else {
        None
    }
}

/// Append all of `src` to `out`.
pub fn extend_bytes(out: &mut Vec<u8>, src: &[u8])
    ensures
        final(out)@ == old(out)@ + src@,
{
    let mut i: usize = 0;
    while i < src.len()
        invariant
            0 <= i <= src@.len(),
            out@ =~= old(out)@ + src@.take(i as int),
        decreases src@.len() - i,
    {
        out.push(src[i]);
        proof {
            assert(out@ =~= old(out)@ + src@.take(i + 1));
        }
        i += 1;
    }
    proof {
        assert(src@.take(src@.len() as int) =~= src@);
    }
}

/// Append the 4-byte little-endian encoding of `v`.
pub fn push_u32_le(out: &mut Vec<u8>, v: u32)
    ensures
        final(out)@ =~= old(out)@ + spec_u32_le_bytes(v),
{
    out.push((v & 0xff) as u8);
    out.push(((v >> 8) & 0xff) as u8);
    out.push(((v >> 16) & 0xff) as u8);
    out.push(((v >> 24) & 0xff) as u8);
}

/// The position of the first NUL byte at or after `from`, or -1.
pub open spec fn spec_find_nul(data: Seq<u8>, from: int) -> int
    decreases data.len() - from,
{
    if from < 0 || from >= data.len() {
        -1
    } else if data[from] == 0 {
        from
    } else {
        spec_find_nul(data, from + 1)
    }
}

pub proof fn lemma_find_nul(data: Seq<u8>, from: int)
    requires
        0 <= from,
    ensures
        spec_find_nul(data, from) >= -1,
        spec_find_nul(data, from) == -1 ==> forall|i: int| from <= i < data.len() ==> data[i] != 0,
        spec_find_nul(data, from) >= 0 ==> from <= spec_find_nul(data, from) < data.len()
            && data[spec_find_nul(data, from)] == 0 && forall|i: int|
            from <= i < spec_find_nul(data, from) ==> data[i] != 0,
    decreases data.len() - from,
{
    if from < data.len() && data[from] != 0 {
        lemma_find_nul(data, from + 1);
    }
}


/// Find the first NUL byte at or after `from`.
pub fn find_nul(data: &[u8], from: usize) -> (r: Option<usize>)
    ensures
        r is None <==> spec_find_nul(data@, from as int) == -1,
        r is Some ==> r->0 == spec_find_nul(data@, from as int),
{
    proof {
        lemma_find_nul(data@, from as int);
    }
    let mut k: usize = from;
    while k < data.len()
        invariant
            from <= k,
            forall|i: int| from <= i < k ==> data@[i] != 0,
        decreases data@.len() - k,
    {
        if data[k] == 0 {
            proof {
                lemma_find_nul(data@, from as int);
                let f = spec_find_nul(data@, from as int);
                if f == -1 {
                    assert(data@[k as int] != 0);
                } else if f < k {
                    assert(data@[f] != 0);
                } else if f > k {
                    assert(data@[k as int] != 0);
                }
            }
            return Some(k);
        }
        k += 1;
    }
    proof {
        lemma_find_nul(data@, from as int);
        let f = spec_find_nul(data@, from as int);
        if f >= 0 {
            assert(data@[f] != 0);
        }
    }
    None
}


/// The value a 4-byte big-endian field holds.
pub open spec fn spec_u32_be(b: Seq<u8>) -> u32
    recommends
        b.len() == 4,
{
    (b[0] * 0x100_0000 + b[1] * 0x1_0000 + b[2] * 0x100 + b[3]) as u32
}

/// Read the 4-byte big-endian word at `pos`.
pub fn read_u32_be(data: &[u8], pos: usize) -> (r: Option<u32>)
    ensures
        r is Some <==> pos + 4 <= data@.len(),
        r is Some ==> r->0 == spec_u32_be(data@.subrange(pos as int, pos + 4)),
{
    if pos < data.len() && data.len() - pos >= 4 {
        let b = (data[pos] as u32) << 24 | (data[pos + 1] as u32) << 16
            | (data[pos + 2] as u32) << 8 | data[pos + 3] as u32;
        proof {
            let s = data@.subrange(pos as int, pos + 4);
            let s0 = s[0];
            let s1 = s[1];
            let s2 = s[2];
            let s3 = s[3];
            assert((s0 as u32) << 24 | (s1 as u32) << 16 | (s2 as u32) << 8 | s3 as u32
                == (s0 * 0x100_0000 + s1 * 0x1_0000 + s2 * 0x100 + s3) as u32) by (bit_vector);
        }
        Some(b)
    } else {
        None
    }
}

/// The position of the first double-NUL pair at or after `from`,
/// stepping two bytes at a time, or -1.
pub open spec fn spec_find_nul2(data: Seq<u8>, from: int) -> int
    decreases data.len() - from,
{
    if from < 0 || from + 1 >= data.len() {
        -1
    } else if data[from] == 0 && data[from + 1] == 0 {
        from
    } else {
        spec_find_nul2(data, from + 2)
    }
}

pub proof fn lemma_find_nul2(data: Seq<u8>, from: int)
    requires
        0 <= from,
    ensures
        spec_find_nul2(data, from) >= -1,
        spec_find_nul2(data, from) >= 0 ==> from <= spec_find_nul2(data, from)
            && spec_find_nul2(data, from) + 1 < data.len() && data[spec_find_nul2(data, from)] == 0
            && data[spec_find_nul2(data, from) + 1] == 0,
    decreases data.len() - from,
{
    if from + 1 < data.len() && !(data[from] == 0 && data[from + 1] == 0) {
        lemma_find_nul2(data, from + 2);
    }
}

/// Find the first double-NUL pair at or after `from`, stepping two
/// bytes at a time.
pub fn find_nul2(data: &[u8], from: usize) -> (r: Option<usize>)
    ensures
        r is None <==> spec_find_nul2(data@, from as int) == -1,
        r is Some ==> r->0 == spec_find_nul2(data@, from as int),
{
    let mut k: usize = from;
    while k < data.len() && data.len() - k >= 2
        invariant
            from <= k,
            (k - from) % 2 == 0,
            spec_find_nul2(data@, from as int) == spec_find_nul2(data@, k as int),
        decreases data@.len() - k,
    {
        if data[k] == 0 && data[k + 1] == 0 {
            return Some(k);
        }
        k += 2;
    }
    None
}


} // verus!
