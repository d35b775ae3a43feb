//! The text encodings ID3v2 frames declare, and the byte-level
//! decoders and encoders for each.

use vstd::prelude::*;
use vstd::std_specs::iter::IteratorSpec;
use vstd::utf8::encode_utf8;
use crate::TagError;
use crate::id3v2::header::Id3v2Version;
use crate::text::{
    bytes_to_string, lemma_encode_utf8_push, lemma_scalar_char, str_to_bytes, utf8_decode,
};

verus! {

broadcast use vstd::string::next_postcondition, vstd::string::axiom_spec_iter;

/// The encodings a frame's text can declare.
#[derive(Clone, Copy, Debug, PartialEq, Eq, Structural)]
pub enum TextEncoding {
    Latin1,
    UTF16,
    UTF16BE,
    UTF8,
}

/// The byte code an encoding is written as.
pub open spec fn spec_encoding_byte(e: TextEncoding) -> u8 {
    match e {
        TextEncoding::Latin1 => 0,
        TextEncoding::UTF16 => 1,
        TextEncoding::UTF16BE => 2,
        TextEncoding::UTF8 => 3,
    }
}

pub fn encoding_byte(e: TextEncoding) -> (r: u8)
    ensures
        r == spec_encoding_byte(e),
{
    match e {
        TextEncoding::Latin1 => 0,
        TextEncoding::UTF16 => 1,
        TextEncoding::UTF16BE => 2,
        TextEncoding::UTF8 => 3,
    }
}

/// The encoding a byte declares, within what the tag version permits:
/// the oldest version allows only Latin-1 and UTF-16 with BOM, later
/// ones all four; anything else is a hard decode error.
pub open spec fn spec_verify_encoding(b: u8, version: Id3v2Version) -> Result<
    TextEncoding,
    TagError,
> {
    let e = if b == 0 {
        Result::Ok(TextEncoding::Latin1)
    } else if b == 1 {
        Result::Ok(TextEncoding::UTF16)
    } else if b == 2 {
        Result::Ok(TextEncoding::UTF16BE)
    } else if b == 3 {
        Result::Ok(TextEncoding::UTF8)
    } else {
        Result::Err(TagError::Decode)
    };
    match e {
        Result::Ok(enc) => {
            if version == Id3v2Version::V2 && !(enc == TextEncoding::Latin1 || enc
                == TextEncoding::UTF16) {
                Result::Err(TagError::Decode)
            } else {
                Result::Ok(enc)
            }
        },
        Result::Err(err) => Result::Err(err),
    }
}

pub fn verify_encoding(b: u8, version: Id3v2Version) -> (r: Result<TextEncoding, TagError>)
    ensures
        r == spec_verify_encoding(b, version),
{
    let e = if b == 0 {
        TextEncoding::Latin1
    } else if b == 1 {
        TextEncoding::UTF16
    } else if b == 2 {
        TextEncoding::UTF16BE
    } else if b == 3 {
        TextEncoding::UTF8
    } else {
        return Err(TagError::Decode);
    };
    match (version, e) {
        (Id3v2Version::V2, TextEncoding::UTF16BE) => Err(TagError::Decode),
        (Id3v2Version::V2, TextEncoding::UTF8) => Err(TagError::Decode),
        _ => Ok(e),
    }
}

/// The characters a Latin-1 byte string denotes: one character per
/// byte, with the byte's own code point.
pub open spec fn spec_latin1_chars(b: Seq<u8>) -> Seq<char> {
    Seq::new(b.len(), |i: int| ((b[i] as u32) as char))
}

/// The Latin-1 bytes a character string is written as: each character
/// truncated to its low byte.
pub open spec fn spec_chars_latin1(cs: Seq<char>) -> Seq<u8> {
    Seq::new(cs.len(), |i: int| (((cs[i] as u32) & 0xFF) as u8))
}

/// A string of characters below 0x100 survives Latin-1 encoding and
/// decoding unchanged, and so does any Latin-1 byte string the other
/// way round.
pub proof fn lemma_latin1_round_trip(b: Seq<u8>)
    ensures
        spec_chars_latin1(spec_latin1_chars(b)) == b,
{
    assert forall|i: int| 0 <= i < b.len() implies spec_chars_latin1(spec_latin1_chars(b))[i]
        == b[i] by {
        lemma_scalar_char(b[i] as u32);
        let v = b[i] as u32;
        assert(v & 0xFF == v) by (bit_vector)
            requires
                v < 0x100,
        ;
    }
    assert(spec_chars_latin1(spec_latin1_chars(b)) =~= b);
}

/// Decode Latin-1 bytes into a string.
pub fn latin1_decode(data: &[u8]) -> (r: String)
    ensures
        r@ == spec_latin1_chars(data@),
{
    let mut out: Vec<u8> = Vec::new();
    let ghost mut chars: Seq<char> = Seq::empty();
    let mut i: usize = 0;
    proof {
        assert(encode_utf8(Seq::<char>::empty()) =~= Seq::<u8>::empty());
    }
    while i < data.len()
        invariant
            0 <= i <= data@.len(),
            chars =~= spec_latin1_chars(data@.take(i as int)),
            out@ == encode_utf8(chars),
        decreases data@.len() - i,
    {
        let b = data[i];
        proof {
            lemma_encode_utf8_push(chars, (b as u32) as char);
            lemma_scalar_char(b as u32);
            chars = chars.push((b as u32) as char);
            assert(chars =~= spec_latin1_chars(data@.take(i + 1)));
        }
        crate::text::emit_scalar_utf8(&mut out, b as u32);
        i += 1;
    }
    proof {
        assert(data@.take(data@.len() as int) =~= data@);
        vstd::utf8::encode_utf8_valid_utf8(chars);
        vstd::utf8::encode_utf8_decode_utf8(chars);
    }
    bytes_to_string(out)
}

/// Encode a string into Latin-1 bytes, truncating each character to
/// its low byte.
pub fn latin1_encode(s: &str) -> (r: Vec<u8>)
    ensures
        r@ == spec_chars_latin1(s@),
{
    let mut out: Vec<u8> = Vec::new();
    let mut it = s.chars();
    let ghost total = s@;
    let ghost mut idx: int = 0;
    loop
        invariant
            0 <= idx <= total.len(),
            it.remaining() =~= total.skip(idx),
            out@ =~= spec_chars_latin1(total.take(idx)),
        ensures
            idx == total.len(),
            out@ =~= spec_chars_latin1(total.take(idx)),
        decreases total.len() - idx,
    {
        let ghost rem = it.remaining();
        match it.next() {
            Some(c) => {
                proof {
                    assert(rem[0] == total[idx]);
                    assert(rem.drop_first() =~= total.skip(idx + 1));
                }
                out.push(((c as u32) & 0xFF) as u8);
                proof {
                    idx = idx + 1;
                    assert(out@ =~= spec_chars_latin1(total.take(idx)));
                }
            },
            None => {
                proof {
                    assert(rem.len() == 0);
                    assert(idx == total.len());
                }
                break;
            },
        }
    }
    proof {
        assert(total.take(total.len() as int) =~= total);
    }
    out
}

/// A 16-bit code unit from two bytes in the given byte order.
pub open spec fn spec_unit16(x: u8, y: u8, be: bool) -> u16 {
    if be {
        (x * 0x100 + y) as u16
    } else {
        (y * 0x100 + x) as u16
    }
}

/// The characters a UTF-16 code-unit stream denotes, or nothing when
/// a unit is an unpaired surrogate or a byte is left over.
pub open spec fn spec_utf16_chars(b: Seq<u8>, be: bool) -> Option<Seq<char>>
    decreases b.len(),
{
    if b.len() == 0 {
        Option::Some(Seq::empty())
    } else if b.len() == 1 {
        Option::None
    } else {
        let u = spec_unit16(b[0], b[1], be);
        if u < 0xD800 || u >= 0xE000 {
            match spec_utf16_chars(b.skip(2), be) {
                Option::Some(t) => Option::Some(seq![((u as u32) as char)] + t),
                Option::None => Option::None,
            }
        } else if u < 0xDC00 {
            if b.len() < 4 {
                Option::None
            } else {
                let u2 = spec_unit16(b[2], b[3], be);
                if 0xDC00 <= u2 < 0xE000 {
                    let scalar = (0x10000 + (u - 0xD800) * 0x400 + (u2 - 0xDC00)) as u32;
                    match spec_utf16_chars(b.skip(4), be) {
                        Option::Some(t) => Option::Some(seq![(scalar as char)] + t),
                        Option::None => Option::None,
                    }
                } else {
                    Option::None
                }
            }
        } else {
            Option::None
        }
    }
}

/// What a UTF-16 byte string with its byte-order mark denotes.
pub open spec fn spec_utf16_decode(b: Seq<u8>) -> Option<Seq<char>> {
    if b.len() < 2 {
        Option::None
    } else if b[0] == 0xFF && b[1] == 0xFE {
        spec_utf16_chars(b.skip(2), false)
    } else if b[0] == 0xFE && b[1] == 0xFF {
        spec_utf16_chars(b.skip(2), true)
    } else {
        Option::None
    }
}

/// Decode a UTF-16 byte string led by its byte-order mark.
pub fn utf16_decode(data: &[u8]) -> (r: Option<String>)
    ensures
        r is Some <==> spec_utf16_decode(data@) is Some,
        r is Some ==> r->0@ == spec_utf16_decode(data@)->0,
{
    if data.len() < 2 {
        return None;
    }
    let be: bool = if data[0] == 0xFF && data[1] == 0xFE {
        false
    } else if data[0] == 0xFE && data[1] == 0xFF {
        true
    } else {
        return None;
    };
    let ghost body = data@.skip(2);
    let mut out: Vec<u8> = Vec::new();
    let ghost mut chars: Seq<char> = Seq::empty();
    let mut i: usize = 2;
    proof {
        assert(encode_utf8(Seq::<char>::empty()) =~= Seq::<u8>::empty());
        assert(body.skip(0) =~= body);
    }
    while i < data.len()
        invariant
            2 <= i <= data@.len(),
            body =~= data@.skip(2),
            spec_utf16_decode(data@) == spec_utf16_chars(body, be),
            out@ == encode_utf8(chars),
            ({
                let tail = data@.skip(i as int);
                match spec_utf16_chars(tail, be) {
                    Option::Some(t) => spec_utf16_chars(body, be) == Option::Some(chars + t),
                    Option::None => spec_utf16_chars(body, be) is None,
                }
            }),
        decreases data@.len() - i,
    {
        let ghost tail = data@.skip(i as int);
        if data.len() - i == 1 {
            proof {
                assert(tail.len() == 1);
            }
            return None;
        }
        let x = data[i];
        let y = data[i + 1];
        proof {
            assert(tail[0] == x && tail[1] == y);
            assert(tail.skip(2) =~= data@.skip(i + 2));
        }
        let u: u16 = if be {
            (x as u16) * 0x100 + y as u16
        } else {
            (y as u16) * 0x100 + x as u16
        };
        if u < 0xD800 || u >= 0xE000 {
            proof {
                lemma_encode_utf8_push(chars, (u as u32) as char);
                lemma_scalar_char(u as u32);
                chars = chars.push((u as u32) as char);
            }
            crate::text::emit_scalar_utf8(&mut out, u as u32);
            proof {
                let t2 = data@.skip(i + 2);
                match spec_utf16_chars(t2, be) {
                    Option::Some(t) => {
                        assert(chars + t =~= chars.drop_last() + (seq![((u as u32) as char)] + t));
                    },
                    Option::None => {},
                }
            }
            i += 2;
        } else if u < 0xDC00 {
            if data.len() - i < 4 {
                proof {
                    assert(tail.len() < 4);
                }
                return None;
            }
            let x2 = data[i + 2];
            let y2 = data[i + 3];
            proof {
                assert(tail[2] == x2 && tail[3] == y2);
                assert(tail.skip(4) =~= data@.skip(i + 4));
            }
            let u2: u16 = if be {
                (x2 as u16) * 0x100 + y2 as u16
            } else {
                (y2 as u16) * 0x100 + x2 as u16
            };
            if u2 < 0xDC00 || u2 >= 0xE000 {
                return None;
            }
            let scalar: u32 = 0x10000 + (u as u32 - 0xD800) * 0x400 + (u2 as u32 - 0xDC00);
            proof {
                lemma_encode_utf8_push(chars, scalar as char);
                lemma_scalar_char(scalar);
                chars = chars.push(scalar as char);
            }
            crate::text::emit_scalar_utf8(&mut out, scalar);
            proof {
                let t2 = data@.skip(i + 4);
                match spec_utf16_chars(t2, be) {
                    Option::Some(t) => {
                        assert(chars + t =~= chars.drop_last() + (seq![(scalar as char)] + t));
                    },
                    Option::None => {},
                }
            }
            i += 4;
        } else {
            return None;
        }
    }
    proof {
        assert(data@.skip(i as int) =~= Seq::<u8>::empty());
        vstd::utf8::encode_utf8_valid_utf8(chars);
        vstd::utf8::encode_utf8_decode_utf8(chars);
        assert(chars + Seq::<char>::empty() =~= chars);
    }
    Some(bytes_to_string(out))
}

/// The UTF-16 little-endian bytes a character string is written as,
/// without a byte-order mark.
pub open spec fn spec_chars_utf16_le(cs: Seq<char>) -> Seq<u8>
    decreases cs.len(),
{
    if cs.len() == 0 {
        Seq::empty()
    } else {
        let u = cs[0] as u32;
        (if u < 0x10000 {
            seq![(u & 0xFF) as u8, ((u >> 8) & 0xFF) as u8]
        } else {
            let v = (u - 0x10000) as u32;
            let hi = (0xD800 + (v >> 10)) as u32;
            let lo = (0xDC00 + (v & 0x3FF)) as u32;
            seq![
                (hi & 0xFF) as u8,
                ((hi >> 8) & 0xFF) as u8,
                (lo & 0xFF) as u8,
                ((lo >> 8) & 0xFF) as u8,
            ]
        }) + spec_chars_utf16_le(cs.drop_first())
    }
}

/// Encode a string as UTF-16 little-endian, without a byte-order
/// mark.
pub fn utf16_encode_le(s: &str) -> (r: Vec<u8>)
    ensures
        r@ == spec_chars_utf16_le(s@),
{
    let mut out: Vec<u8> = Vec::new();
    let mut it = s.chars();
    let ghost total = s@;
    let ghost mut idx: int = 0;
    loop
        invariant
            0 <= idx <= total.len(),
            it.remaining() =~= total.skip(idx),
            spec_chars_utf16_le(total) == out@ + spec_chars_utf16_le(total.skip(idx)),
        ensures
            idx == total.len(),
            spec_chars_utf16_le(total) == out@ + spec_chars_utf16_le(total.skip(idx)),
        decreases total.len() - idx,
    {
        let ghost rem = it.remaining();
        match it.next() {
            Some(c) => {
                proof {
                    assert(rem[0] == total[idx]);
                    assert(rem.drop_first() =~= total.skip(idx + 1));
                }
                let u = c as u32;
                proof {
                    vstd::utf8::char_is_scalar(c);
                }
                if u < 0x10000 {
                    out.push((u & 0xFF) as u8);
                    out.push(((u >> 8) & 0xFF) as u8);
                } else {
                    let v = u - 0x10000;
                    proof {
                        assert(v >> 10 <= 0x3FF && v & 0x3FF <= 0x3FF) by (bit_vector)
                            requires
                                v <= 0xFFFFF,
                        ;
                    }
                    let hi = 0xD800 + (v >> 10);
                    let lo = 0xDC00 + (v & 0x3FF);
                    out.push((hi & 0xFF) as u8);
                    out.push(((hi >> 8) & 0xFF) as u8);
                    out.push((lo & 0xFF) as u8);
                    out.push(((lo >> 8) & 0xFF) as u8);
                }
                proof {
                    idx = idx + 1;
                }
            },
            None => {
                proof {
                    assert(rem.len() == 0);
                    assert(idx == total.len());
                }
                break;
            },
        }
    }
    proof {
        assert(spec_chars_utf16_le(total.skip(total.len() as int)) =~= Seq::<u8>::empty());
        assert(out@ =~= spec_chars_utf16_le(total));
    }
    out
}

/// Decode the whole of `data` in the given encoding; text in a
/// Unicode transformation format that is malformed is a hard error.
pub fn decode_full(data: &[u8], enc: TextEncoding) -> (r: Result<String, TagError>)
    ensures
        ({
            match enc {
                TextEncoding::Latin1 => r is Ok && r->Ok_0@ == spec_latin1_chars(data@),
                TextEncoding::UTF8 => {
                    &&& r is Ok <==> vstd::utf8::valid_utf8(data@)
                    &&& r is Ok ==> r->Ok_0@ == vstd::utf8::decode_utf8(data@)
                    &&& r is Err ==> r->Err_0 == TagError::Decode
                },
                _ => {
                    &&& r is Ok <==> spec_utf16_decode(data@) is Some
                    &&& r is Ok ==> r->Ok_0@ == spec_utf16_decode(data@)->0
                    &&& r is Err ==> r->Err_0 == TagError::Decode
                },
            }
        }),
{
    match enc {
        TextEncoding::Latin1 => Ok(latin1_decode(data)),
        TextEncoding::UTF8 => {
            match utf8_decode(vstd::slice::slice_to_vec(data)) {
                Some(s) => Ok(s),
                None => Err(TagError::Decode),
            }
        },
        _ => {
            match utf16_decode(data) {
                Some(s) => Ok(s),
                None => Err(TagError::Decode),
            }
        },
    }
}

/// The bytes a terminated or running text is written as in the given
/// encoding: the UTF-16 forms carry a little-endian byte-order mark,
/// and the terminator, when asked for, is one NUL for the byte
/// encodings and two for UTF-16.
pub open spec fn spec_encode_text(cs: Seq<char>, enc: TextEncoding, terminated: bool) -> Seq<u8> {
    let body = match enc {
        TextEncoding::Latin1 => spec_chars_latin1(cs),
        TextEncoding::UTF8 => str_to_bytes(cs),
        _ => seq![0xFFu8, 0xFEu8] + spec_chars_utf16_le(cs),
    };
    if terminated {
        match enc {
            TextEncoding::Latin1 => body + seq![0u8],
            TextEncoding::UTF8 => body + seq![0u8],
            _ => body + seq![0u8, 0u8],
        }
    } else {
        body
    }
}

/// Encode text in the given encoding, appending its terminator when
/// asked to.
pub fn encode_text(s: &str, enc: TextEncoding, terminated: bool) -> (r: Vec<u8>)
    ensures
        r@ == spec_encode_text(s@, enc, terminated),
{
    let mut out: Vec<u8> = match enc {
        TextEncoding::Latin1 => latin1_encode(s),
        TextEncoding::UTF8 => {
            let mut v: Vec<u8> = Vec::new();
            crate::bytes::extend_bytes(&mut v, s.as_bytes());
            proof {
                assert(v@ =~= str_to_bytes(s@));
            }
            v
        },
        _ => {
            let mut v: Vec<u8> = Vec::new();
            v.push(0xFF);
            v.push(0xFE);
            let mut units = utf16_encode_le(s);
            v.append(&mut units);
            proof {
                assert(v@ =~= seq![0xFFu8, 0xFEu8] + spec_chars_utf16_le(s@));
            }
            v
        },
    };
    if terminated {
        out.push(0);
        match enc {
            TextEncoding::Latin1 => {},
            TextEncoding::UTF8 => {},
            _ => {
                out.push(0);
            },
        }
    }
    proof {
        assert(out@ =~= spec_encode_text(s@, enc, terminated));
    }
    out
}


/// UTF-16 symmetry: decoding a little-endian encoding preceded by its
/// byte-order mark returns the characters that were encoded.
pub proof fn lemma_utf16_round_trip(cs: Seq<char>)
    ensures
        spec_utf16_chars(spec_chars_utf16_le(cs), false) == Option::Some(cs),
    decreases cs.len(),
{
    if cs.len() == 0 {
        assert(spec_chars_utf16_le(cs) =~= Seq::<u8>::empty());
    } else {
        let c = cs[0];
        let u = c as u32;
        vstd::utf8::char_is_scalar(c);
        let b = spec_chars_utf16_le(cs);
        let tailb = spec_chars_utf16_le(cs.drop_first());
        lemma_utf16_round_trip(cs.drop_first());
        if u < 0x10000 {
            let head = seq![(u & 0xFF) as u8, ((u >> 8) & 0xFF) as u8];
            assert(b == head + tailb);
            assert(b.len() >= 2);
            assert(b[0] == (u & 0xFF) as u8 && b[1] == ((u >> 8) & 0xFF) as u8);
            let unit = spec_unit16(b[0], b[1], false);
            assert(unit == ((((u >> 8) & 0xFF) as u8) * 0x100 + ((u & 0xFF) as u8)) as u16);
            assert({
                let w = ((((u >> 8) & 0xFF) as u8) * 0x100 + ((u & 0xFF) as u8)) as u16;
                w as u32 == u && !(0xD800 <= w < 0xE000)
            }) by (bit_vector)
                requires
                    u < 0x10000,
                    !(0xD800 <= u < 0xE000),
            ;
            assert(unit < 0xD800 || unit >= 0xE000);
            assert(b.skip(2) =~= tailb);
            vstd::utf8::char_u32_cast(c, unit as u32);
            assert(seq![((unit as u32) as char)] + cs.drop_first() =~= cs);
        } else {
            let v = (u - 0x10000) as u32;
            let hi = (0xD800 + (v >> 10)) as u32;
            let lo = (0xDC00 + (v & 0x3FF)) as u32;
            assert(v >> 10 <= 0x3FF && v & 0x3FF <= 0x3FF) by (bit_vector)
                requires
                    v <= 0xFFFFF,
            ;
            let head = seq![
                (hi & 0xFF) as u8,
                ((hi >> 8) & 0xFF) as u8,
                (lo & 0xFF) as u8,
                ((lo >> 8) & 0xFF) as u8,
            ];
            assert(b == head + tailb);
            assert(b.len() >= 4);
            let unit = spec_unit16(b[0], b[1], false);
            let unit2 = spec_unit16(b[2], b[3], false);
            assert(unit == ((((hi >> 8) & 0xFF) as u8) * 0x100 + ((hi & 0xFF) as u8)) as u16);
            assert(unit2 == ((((lo >> 8) & 0xFF) as u8) * 0x100 + ((lo & 0xFF) as u8)) as u16);
            assert({
                let w = ((((hi >> 8) & 0xFF) as u8) * 0x100 + ((hi & 0xFF) as u8)) as u16;
                let w2 = ((((lo >> 8) & 0xFF) as u8) * 0x100 + ((lo & 0xFF) as u8)) as u16;
                &&& w as u32 == hi
                &&& w2 as u32 == lo
                &&& 0xD800 <= w < 0xDC00
                &&& 0xDC00 <= w2 < 0xE000
            }) by (bit_vector)
                requires
                    hi == 0xD800 + (v >> 10),
                    lo == 0xDC00 + (v & 0x3FF),
                    v <= 0xFFFFF,
            ;
            let scalar = ((0x10000 + (unit - 0xD800) * 0x400 + (unit2 - 0xDC00)) as u32);
            assert((0x10000 + ((0xD800 + (v >> 10)) - 0xD800) * 0x400 + ((0xDC00 + (v & 0x3FF))
                - 0xDC00)) as u32 == (0x10000 + v) as u32) by (bit_vector)
                requires
                    v <= 0xFFFFF,
            ;
            assert(scalar == u);
            assert(b.skip(4) =~= tailb);
            vstd::utf8::char_u32_cast(c, scalar);
            assert(seq![(scalar as char)] + cs.drop_first() =~= cs);
        }
    }
}

} // verus!
