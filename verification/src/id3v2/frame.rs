//! ID3v2 frames: the extended URL frame in full, plain text frames,
//! and a raw envelope for everything else.

use vstd::prelude::*;
use vstd::std_specs::cmp::PartialEqSpec;
use vstd::utf8::{decode_utf8, valid_utf8};
use crate::TagError;
use crate::bytes::{spec_find_nul, spec_find_nul2};
use crate::id3v2::encoding::{
    decode_full, encode_text, encoding_byte, lemma_latin1_round_trip, latin1_decode,
    latin1_encode, spec_chars_latin1, spec_encode_text, spec_encoding_byte, spec_latin1_chars,
    spec_utf16_decode, spec_verify_encoding, verify_encoding, TextEncoding,
};
use crate::id3v2::header::Id3v2Version;
use crate::text::{lemma_scalar_char, str_to_bytes};

verus! {

/// An extended URL frame: frames of this kind are told apart by their
/// description, not by their identifier, so within one tag the
/// description is unique and is the frame's whole identity.
#[derive(Clone, Debug, Eq)]
pub struct ExtendedUrlFrame {
    /// The encoding of the description text.
    pub encoding: TextEncoding,
    /// Unique content description.
    pub description: String,
    /// The frame content, kept as Latin-1 text.
    pub content: String,
}

pub struct ExtendedUrlFrameView {
    pub encoding: TextEncoding,
    pub description: Seq<char>,
    pub content: Seq<char>,
}

impl View for ExtendedUrlFrame {
    type V = ExtendedUrlFrameView;

    open spec fn view(&self) -> ExtendedUrlFrameView {
        ExtendedUrlFrameView {
            encoding: self.encoding,
            description: self.description@,
            content: self.content@,
        }
    }
}

impl PartialEq for ExtendedUrlFrame {
    /// Equality is the frame's identity rule: the description alone,
    /// independent of encoding and content.
    fn eq(&self, other: &ExtendedUrlFrame) -> (r: bool) {
        self.description == other.description
    }
}

impl vstd::std_specs::cmp::PartialEqSpecImpl for ExtendedUrlFrame {
    open spec fn obeys_eq_spec() -> bool {
        true
    }

    open spec fn eq_spec(&self, other: &ExtendedUrlFrame) -> bool {
        self.description@ == other.description@
    }
}

impl core::hash::Hash for ExtendedUrlFrame {
    /// Relies on `Hash for String`: the hash covers the description
    /// alone, so frames that compare equal hash alike.
    #[verifier::external_body]
    fn hash<H: core::hash::Hasher>(&self, state: &mut H) {
        self.description.hash(state);
    }
}

/// Two extended URL frames with the same description compare equal,
/// whatever their contents or encodings.
pub proof fn lemma_extended_url_identity(a: ExtendedUrlFrame, b: ExtendedUrlFrame)
    requires
        a@.description == b@.description,
    ensures
        a.eq_spec(&b),
        b.eq_spec(&a),
{
}

/// What parsing an extended URL frame body yields: nothing for an
/// empty body; otherwise the declared encoding (checked against the
/// tag version), the description up to its terminator in that
/// encoding, and the rest of the body as Latin-1 content.
pub open spec fn spec_parse_extended_url(d: Seq<u8>, version: Id3v2Version) -> Result<
    Option<ExtendedUrlFrameView>,
    TagError,
> {
    if d.len() == 0 {
        Result::Ok(Option::None)
    } else {
        match spec_verify_encoding(d[0], version) {
            Result::Err(e) => Result::Err(e),
            Result::Ok(enc) => {
                let wide = enc == TextEncoding::UTF16 || enc == TextEncoding::UTF16BE;
                let f = if wide {
                    spec_find_nul2(d, 1)
                } else {
                    spec_find_nul(d, 1)
                };
                let desc_bytes = if f < 0 {
                    d.skip(1)
                } else {
                    d.subrange(1, f)
                };
                let rest = if f < 0 {
                    Seq::<u8>::empty()
                } else if wide {
                    d.skip(f + 2)
                } else {
                    d.skip(f + 1)
                };
                let desc = match enc {
                    TextEncoding::Latin1 => Result::Ok(spec_latin1_chars(desc_bytes)),
                    TextEncoding::UTF8 => {
                        if valid_utf8(desc_bytes) {
                            Result::Ok(decode_utf8(desc_bytes))
                        } else {
                            Result::Err(TagError::Decode)
                        }
                    },
                    _ => {
                        match spec_utf16_decode(desc_bytes) {
                            Option::Some(cs) => Result::Ok(cs),
                            Option::None => Result::Err(TagError::Decode),
                        }
                    },
                };
                match desc {
                    Result::Err(e) => Result::Err(e),
                    Result::Ok(description) => Result::Ok(
                        Option::Some(
                            ExtendedUrlFrameView {
                                encoding: enc,
                                description,
                                content: spec_latin1_chars(rest),
                            },
                        ),
                    ),
                }
            },
        }
    }
}

/// The byte image of an extended URL frame body: the encoding byte,
/// the terminated description in that encoding, then the content as
/// raw Latin-1.
pub open spec fn spec_extended_url_bytes(f: ExtendedUrlFrameView) -> Seq<u8> {
    seq![spec_encoding_byte(f.encoding)] + spec_encode_text(f.description, f.encoding, true)
        + spec_chars_latin1(f.content)
}

impl ExtendedUrlFrame {
    /// Read an extended URL frame from a frame body whose header has
    /// already been consumed; an empty body is no frame at all.
    pub fn parse(data: &[u8], version: Id3v2Version) -> (r: Result<
        Option<ExtendedUrlFrame>,
        TagError,
    >)
        ensures
            ({
                let s = spec_parse_extended_url(data@, version);
                match r {
                    Result::Ok(Option::None) => s == Result::<
                        Option<ExtendedUrlFrameView>,
                        TagError,
                    >::Ok(Option::None),
                    Result::Ok(Option::Some(f)) => s is Ok && s->Ok_0 is Some && ({
                        let v = s->Ok_0->0;
                        f@.encoding == v.encoding && f@.description == v.description
                            && f@.content == v.content
                    }),
                    Result::Err(e) => s == Result::<
                        Option<ExtendedUrlFrameView>,
                        TagError,
                    >::Err(e),
                }
            }),
    {
        if data.len() == 0 {
            return Ok(None);
        }
        let enc = match verify_encoding(data[0], version) {
            Ok(e) => e,
            Err(e) => {
                return Err(e);
            },
        };
        let wide = match enc {
            TextEncoding::UTF16 => true,
            TextEncoding::UTF16BE => true,
            _ => false,
        };
        let f: Option<usize> = if wide {
            crate::bytes::find_nul2(data, 1)
        } else {
            crate::bytes::find_nul(data, 1)
        };
        proof {
            if wide {
                crate::bytes::lemma_find_nul2(data@, 1);
            } else {
                crate::bytes::lemma_find_nul(data@, 1);
            }
        }
        let dlen = data.len();
        let (desc_slice, rest_slice) = match f {
            None => {
                let d = vstd::slice::slice_subrange(data, 1, dlen);
                let r = vstd::slice::slice_subrange(data, dlen, dlen);
                proof {
                    assert(d@ =~= data@.skip(1));
                    assert(r@ =~= Seq::<u8>::empty());
                }
                (d, r)
            },
            Some(p) => {
                let d = vstd::slice::slice_subrange(data, 1, p);
                let r = if wide {
                    vstd::slice::slice_subrange(data, p + 2, dlen)
                } else {
                    vstd::slice::slice_subrange(data, p + 1, dlen)
                };
                proof {
                    assert(d@ =~= data@.subrange(1, p as int));
                    if wide {
                        assert(r@ =~= data@.skip(p + 2));
                    } else {
                        assert(r@ =~= data@.skip(p + 1));
                    }
                }
                (d, r)
            },
        };
        let description = match decode_full(desc_slice, enc) {
            Ok(s) => s,
            Err(e) => {
                return Err(e);
            },
        };
        let content = latin1_decode(rest_slice);
        Ok(Some(ExtendedUrlFrame { encoding: enc, description, content }))
    }

    /// The complete byte image of this frame's body.
    pub fn as_bytes(&self) -> (r: Vec<u8>)
        ensures
            r@ == spec_extended_url_bytes(self@),
    {
        let mut out: Vec<u8> = Vec::new();
        out.push(encoding_byte(self.encoding));
        let mut desc = encode_text(self.description.as_str(), self.encoding, true);
        out.append(&mut desc);
        let mut content = latin1_encode(self.content.as_str());
        out.append(&mut content);
        proof {
            assert(out@ =~= spec_extended_url_bytes(self@));
        }
        out
    }
}

/// Serializing a Latin-1 extended URL frame and parsing the bytes
/// back yields the frame again, field for field, whenever the
/// description has no NUL character and both texts fit in Latin-1.
pub proof fn lemma_extended_url_round_trip(f: ExtendedUrlFrameView, version: Id3v2Version)
    requires
        f.encoding == TextEncoding::Latin1,
        forall|i: int|
            0 <= i < f.description.len() ==> 0 < ((#[trigger] f.description[i]) as u32)
                < 0x100,
        forall|i: int| 0 <= i < f.content.len() ==> ((#[trigger] f.content[i]) as u32) < 0x100,
    ensures
        spec_parse_extended_url(spec_extended_url_bytes(f), version) == Result::<
            Option<ExtendedUrlFrameView>,
            TagError,
        >::Ok(Option::Some(f)),
{
    let d = spec_extended_url_bytes(f);
    let db = spec_chars_latin1(f.description);
    let cb = spec_chars_latin1(f.content);
    assert(spec_encode_text(f.description, TextEncoding::Latin1, true) == db + seq![0u8]);
    assert(d =~= seq![0u8] + db + seq![0u8] + cb);
    assert(d[0] == 0);
    assert(spec_verify_encoding(0, version) == Result::<TextEncoding, TagError>::Ok(
        TextEncoding::Latin1,
    ));
    assert forall|i: int| 0 <= i < db.len() implies db[i] != 0 by {
        let c = f.description[i] as u32;
        assert(c & 0xFF == c && c & 0xFF != 0) by (bit_vector)
            requires
                0 < c < 0x100,
        ;
    }
    crate::bytes::lemma_find_nul(d, 1);
    let p = spec_find_nul(d, 1);
    assert(d[1 + db.len() as int] == 0);
    if p == -1 {
        assert(d[1 + db.len() as int] != 0);
        assert(false);
    } else if p < 1 + db.len() as int {
        assert(d[p] == db[p - 1]);
        assert(false);
    } else if p > 1 + db.len() as int {
        assert(d[1 + db.len() as int] != 0);
        assert(false);
    }
    assert(p == 1 + db.len() as int);
    assert(d.subrange(1, p) =~= db);
    assert(d.skip(p + 1) =~= cb);
    assert forall|i: int| 0 <= i < db.len() implies spec_latin1_chars(db)[i]
        == f.description[i] by {
        let c = f.description[i] as u32;
        assert((((c & 0xFF) as u8) as u32) == c) by (bit_vector)
            requires
                c < 0x100,
        ;
        vstd::utf8::char_u32_cast(f.description[i], c);
    }
    assert(spec_latin1_chars(db) =~= f.description);
    assert forall|i: int| 0 <= i < cb.len() implies spec_latin1_chars(cb)[i] == f.content[i] by {
        let c = f.content[i] as u32;
        assert((((c & 0xFF) as u8) as u32) == c) by (bit_vector)
            requires
                c < 0x100,
        ;
        vstd::utf8::char_u32_cast(f.content[i], c);
    }
    assert(spec_latin1_chars(cb) =~= f.content);
    assert(ExtendedUrlFrameView {
        encoding: TextEncoding::Latin1,
        description: spec_latin1_chars(db),
        content: spec_latin1_chars(cb),
    } == f);
}

/// A plain text frame: one identifier, one encoding byte, one text.
#[derive(Clone, Debug, PartialEq, Eq)]
pub struct TextFrame {
    pub id: String,
    pub encoding: TextEncoding,
    pub value: String,
}

pub struct TextFrameView {
    pub id: Seq<u8>,
    pub encoding: TextEncoding,
    pub value: Seq<char>,
}

impl View for TextFrame {
    type V = TextFrameView;

    open spec fn view(&self) -> TextFrameView {
        TextFrameView {
            id: str_to_bytes(self.id@),
            encoding: self.encoding,
            value: self.value@,
        }
    }
}

/// Any other frame, kept as its identifier and raw content.
#[derive(Clone, Debug, PartialEq, Eq)]
pub struct BinaryFrame {
    pub id: String,
    pub data: Vec<u8>,
}

pub struct BinaryFrameView {
    pub id: Seq<u8>,
    pub data: Seq<u8>,
}

impl View for BinaryFrame {
    type V = BinaryFrameView;

    open spec fn view(&self) -> BinaryFrameView {
        BinaryFrameView { id: str_to_bytes(self.id@), data: self.data@ }
    }
}

/// One frame of a tag.
#[derive(Clone, Debug, PartialEq, Eq)]
pub enum Frame {
    ExtendedUrl(ExtendedUrlFrame),
    Text(TextFrame),
    Binary(BinaryFrame),
}

pub enum FrameView {
    ExtendedUrl(ExtendedUrlFrameView),
    Text(TextFrameView),
    Binary(BinaryFrameView),
}

impl View for Frame {
    type V = FrameView;

    open spec fn view(&self) -> FrameView {
        match self {
            Frame::ExtendedUrl(f) => FrameView::ExtendedUrl(f@),
            Frame::Text(f) => FrameView::Text(f@),
            Frame::Binary(f) => FrameView::Binary(f@),
        }
    }
}

/// A frame's identity within a tag: most frames go by their
/// identifier, extended URL frames by their description.
pub enum FrameKey {
    Id(Seq<u8>),
    Description(Seq<char>),
}

impl FrameView {
    pub open spec fn key(self) -> FrameKey {
        match self {
            FrameView::ExtendedUrl(f) => FrameKey::Description(f.description),
            FrameView::Text(f) => FrameKey::Id(f.id),
            FrameView::Binary(f) => FrameKey::Id(f.id),
        }
    }
}

/// Whether two frames are the same logical item.
pub fn frame_same_key(a: &Frame, b: &Frame) -> (r: bool)
    ensures
        r == (a@.key() == b@.key()),
{
    match (a, b) {
        (Frame::ExtendedUrl(x), Frame::ExtendedUrl(y)) => {
            let r = x.description == y.description;
            proof {
                if r {
                    assert(a@.key() == b@.key());
                }
            }
            r
        },
        (Frame::Text(x), Frame::Text(y)) => crate::text::eq_bytes(
            x.id.as_str().as_bytes(),
            y.id.as_str().as_bytes(),
        ),
        (Frame::Binary(x), Frame::Binary(y)) => crate::text::eq_bytes(
            x.id.as_str().as_bytes(),
            y.id.as_str().as_bytes(),
        ),
        (Frame::Text(x), Frame::Binary(y)) => crate::text::eq_bytes(
            x.id.as_str().as_bytes(),
            y.id.as_str().as_bytes(),
        ),
        (Frame::Binary(x), Frame::Text(y)) => crate::text::eq_bytes(
            x.id.as_str().as_bytes(),
            y.id.as_str().as_bytes(),
        ),
        _ => false,
    }
}

} // verus!
