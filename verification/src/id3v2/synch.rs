//! Synchsafe integers and the unsynchronization transform: the two
//! devices ID3v2 uses to keep false MPEG sync patterns out of a tag.

use vstd::prelude::*;

verus! {

/// The 28-bit value of a 4-byte synchsafe field, or nothing when a
/// byte has its high bit set, which is a structural corruption.
pub open spec fn spec_synchsafe_u28(b0: u8, b1: u8, b2: u8, b3: u8) -> Option<u32> {
    if b0 < 0x80 && b1 < 0x80 && b2 < 0x80 && b3 < 0x80 {
        Option::Some((b0 * 0x20_0000 + b1 * 0x4000 + b2 * 0x80 + b3) as u32)
    } else {
        Option::None
    }
}

/// Decode a 4-byte synchsafe size field.
pub fn synchsafe_u28(b0: u8, b1: u8, b2: u8, b3: u8) -> (r: Option<u32>)
    ensures
        r == spec_synchsafe_u28(b0, b1, b2, b3),
{
    if b0 < 0x80 && b1 < 0x80 && b2 < 0x80 && b3 < 0x80 {
        Some(
            (b0 as u32) * 0x20_0000 + (b1 as u32) * 0x4000 + (b2 as u32) * 0x80 + (b3 as u32),
        )
    } else {
        None
    }
}

/// What reading an unsynchronized stream yields: every `FF 00` pair
/// collapses to `FF`, everything else passes through.
pub open spec fn spec_unsynch_decode(s: Seq<u8>) -> Seq<u8>
    decreases s.len(),
{
    if s.len() == 0 {
        Seq::empty()
    } else if s.len() >= 2 && s[0] == 0xff && s[1] == 0x00 {
        seq![0xffu8] + spec_unsynch_decode(s.skip(2))
    } else {
        seq![s[0]] + spec_unsynch_decode(s.skip(1))
    }
}

/// What writing through the transform yields: a stuffing `00` after
/// every `FF`.
pub open spec fn spec_unsynch_encode(s: Seq<u8>) -> Seq<u8>
    decreases s.len(),
{
    if s.len() == 0 {
        Seq::empty()
    } else if s[0] == 0xff {
        seq![0xffu8, 0x00u8] + spec_unsynch_encode(s.skip(1))
    } else {
        seq![s[0]] + spec_unsynch_encode(s.skip(1))
    }
}

/// Unsynchronization symmetry: decoding an encoded stream returns the
/// original bytes, whatever they were.
pub proof fn lemma_unsynch_round_trip(s: Seq<u8>)
    ensures
        spec_unsynch_decode(spec_unsynch_encode(s)) == s,
    decreases s.len(),
{
    if s.len() > 0 {
        lemma_unsynch_round_trip(s.skip(1));
        let e = spec_unsynch_encode(s);
        if s[0] == 0xff {
            assert(e == seq![0xffu8, 0x00u8] + spec_unsynch_encode(s.skip(1)));
            assert(e.skip(2) =~= spec_unsynch_encode(s.skip(1)));
            assert(spec_unsynch_decode(e) =~= s);
        } else {
            assert(e == seq![s[0]] + spec_unsynch_encode(s.skip(1)));
            assert(e.skip(1) =~= spec_unsynch_encode(s.skip(1)));
            if e.len() >= 2 && e[0] == 0xff && e[1] == 0x00 {
                assert(false);
            }
            assert(spec_unsynch_decode(e) =~= s);
        }
    }
}

/// In an encoded stream every `FF` byte is followed by a stuffing
/// `00`, so no false sync pattern can appear.
pub proof fn lemma_unsynch_no_sync(s: Seq<u8>, i: int)
    requires
        0 <= i < spec_unsynch_encode(s).len(),
        spec_unsynch_encode(s)[i] == 0xff,
    ensures
        i + 1 < spec_unsynch_encode(s).len() && spec_unsynch_encode(s)[i + 1] == 0x00,
    decreases s.len(),
{
    if s.len() > 0 {
        let e = spec_unsynch_encode(s);
        if s[0] == 0xff {
            if i >= 2 {
                assert(e[i] == spec_unsynch_encode(s.skip(1))[i - 2]);
                lemma_unsynch_no_sync(s.skip(1), i - 2);
                assert(e[i + 1] == spec_unsynch_encode(s.skip(1))[i - 1]);
            }
        } else {
            if i >= 1 {
                assert(e[i] == spec_unsynch_encode(s.skip(1))[i - 1]);
                lemma_unsynch_no_sync(s.skip(1), i - 1);
                assert(e[i + 1] == spec_unsynch_encode(s.skip(1))[i]);
            }
        }
    }
}

/// Read an unsynchronized byte stream back to its plain form.
pub fn unsynch_decode(data: &[u8]) -> (r: Vec<u8>)
    ensures
        r@ == spec_unsynch_decode(data@),
{
    let mut out: Vec<u8> = Vec::new();
    let mut i: usize = 0;
    proof {
        assert(data@.skip(0) =~= data@);
    }
    while i < data.len()
        invariant
            0 <= i <= data@.len(),
            spec_unsynch_decode(data@) == out@ + spec_unsynch_decode(data@.skip(i as int)),
        decreases data@.len() - i,
    {
        let ghost rest = data@.skip(i as int);
        if data[i] == 0xff && i + 1 < data.len() && data[i + 1] == 0x00 {
            proof {
                assert(rest[0] == 0xff && rest[1] == 0x00);
                assert(rest.skip(2) =~= data@.skip(i + 2));
            }
            out.push(0xff);
            i += 2;
        } else {
            proof {
                assert(rest[0] == data@[i as int]);
                assert(!(rest.len() >= 2 && rest[0] == 0xff && rest[1] == 0x00));
                assert(rest.skip(1) =~= data@.skip(i + 1));
            }
            let b = data[i];
            out.push(b);
            i += 1;
        }
    }
    proof {
        assert(data@.skip(i as int) =~= Seq::<u8>::empty());
    }
    out
}

/// Write a byte stream through the unsynchronization transform.
pub fn unsynch_encode(data: &[u8]) -> (r: Vec<u8>)
    ensures
        r@ == spec_unsynch_encode(data@),
{
    let mut out: Vec<u8> = Vec::new();
    let mut i: usize = 0;
    proof {
        assert(data@.skip(0) =~= data@);
    }
    while i < data.len()
        invariant
            0 <= i <= data@.len(),
            spec_unsynch_encode(data@) == out@ + spec_unsynch_encode(data@.skip(i as int)),
        decreases data@.len() - i,
    {
        let ghost rest = data@.skip(i as int);
        proof {
            assert(rest[0] == data@[i as int]);
            assert(rest.skip(1) =~= data@.skip(i + 1));
        }
        let b = data[i];
        if b == 0xff {
            out.push(0xff);
            out.push(0x00);
        } else {
            out.push(b);
        }
        i += 1;
    }
    proof {
        assert(data@.skip(i as int) =~= Seq::<u8>::empty());
    }
    out
}

} // verus!
