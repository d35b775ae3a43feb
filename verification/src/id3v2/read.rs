//! The ID3v2 frame loop: a functional model of the frame stream and
//! the executable reader proved equal to it.

use vstd::prelude::*;
use vstd::utf8::{decode_utf8, valid_utf8};
use crate::{ParsingMode, TagError};
use crate::bytes::{spec_u24_be, spec_u32_be};
use crate::id3v2::encoding::{
    decode_full, spec_latin1_chars, spec_utf16_decode, spec_verify_encoding, verify_encoding,
    TextEncoding,
};
use crate::id3v2::frame::{
    spec_parse_extended_url, BinaryFrame, ExtendedUrlFrame, Frame, FrameView, TextFrame,
    TextFrameView,
};
use crate::id3v2::header::{Id3v2Header, Id3v2Version};
use crate::id3v2::synch::{spec_synchsafe_u28, unsynch_decode, spec_unsynch_decode};
use crate::id3v2::tag::{spec_insert_frame, Id3v2Tag};
use crate::text::{bytes_to_string, lemma_ascii_valid_utf8, lemma_decode_encode, str_to_bytes};

verus! {

/// The length of a frame header in this version.
pub open spec fn spec_header_len(v: Id3v2Version) -> int {
    if v == Id3v2Version::V2 {
        6
    } else {
        10
    }
}

/// The length of a frame identifier in this version.
pub open spec fn spec_id_len(v: Id3v2Version) -> int {
    if v == Id3v2Version::V2 {
        3
    } else {
        4
    }
}

/// A well-formed frame identifier: upper-case letters and digits.
pub open spec fn valid_frame_id(id: Seq<u8>) -> bool {
    forall|i: int|
        0 <= i < id.len() ==> (0x41 <= #[trigger] id[i] <= 0x5a) || (0x30 <= id[i] <= 0x39)
}

/// The declared size of the frame starting at `pos`: big-endian in
/// the older versions, synchsafe in the newest, where a set high bit
/// is a structural corruption.
pub open spec fn spec_frame_size(data: Seq<u8>, pos: int, v: Id3v2Version) -> Result<
    u32,
    TagError,
> {
    if v == Id3v2Version::V2 {
        Result::Ok(spec_u24_be(data.subrange(pos + 3, pos + 6)))
    } else if v == Id3v2Version::V3 {
        Result::Ok(spec_u32_be(data.subrange(pos + 4, pos + 8)))
    } else {
        match spec_synchsafe_u28(data[pos + 4], data[pos + 5], data[pos + 6], data[pos + 7]) {
            Option::Some(s) => Result::Ok(s),
            Option::None => Result::Err(TagError::Decode),
        }
    }
}

/// The extended URL frame identifier of this version.
pub open spec fn spec_wxxx_id(v: Id3v2Version) -> Seq<u8> {
    if v == Id3v2Version::V2 {
        seq![0x57u8, 0x58, 0x58]
    } else {
        seq![0x57u8, 0x58, 0x58, 0x58]
    }
}

/// What a plain text frame body denotes: its declared encoding and
/// the rest of the body decoded in it.
pub open spec fn spec_parse_text_body(d: Seq<u8>, v: Id3v2Version) -> Result<
    (TextEncoding, Seq<char>),
    TagError,
> {
    if d.len() == 0 {
        Result::Err(TagError::Decode)
    } else {
        match spec_verify_encoding(d[0], v) {
            Result::Err(e) => Result::Err(e),
            Result::Ok(enc) => {
                let body = d.skip(1);
                match enc {
                    TextEncoding::Latin1 => Result::Ok((enc, spec_latin1_chars(body))),
                    TextEncoding::UTF8 => {
                        if valid_utf8(body) {
                            Result::Ok((enc, decode_utf8(body)))
                        } else {
                            Result::Err(TagError::Decode)
                        }
                    },
                    _ => {
                        match spec_utf16_decode(body) {
                            Option::Some(cs) => Result::Ok((enc, cs)),
                            Option::None => Result::Err(TagError::Decode),
                        }
                    },
                }
            },
        }
    }
}

/// One pass of the frame loop: frames are parsed and inserted under
/// their identity rules, structurally present but invalid frames are
/// skipped over their declared length in relaxed mode and stop the
/// parse in strict mode, and a zero byte or a short header ends the
/// tag.
pub open spec fn spec_read_frames(
    data: Seq<u8>,
    pos: int,
    v: Id3v2Version,
    mode: ParsingMode,
    acc: Seq<FrameView>,
) -> Result<Seq<FrameView>, TagError>
    decreases data.len() - pos,
{
    let hl = spec_header_len(v);
    let il = spec_id_len(v);
    if pos < 0 || pos >= data.len() {
        Result::Ok(acc)
    } else if data[pos] == 0 {
        Result::Ok(acc)
    } else if pos + hl > data.len() {
        Result::Ok(acc)
    } else {
        let id = data.subrange(pos, pos + il);
        match spec_frame_size(data, pos, v) {
            Result::Err(e) => Result::Err(e),
            Result::Ok(size) => {
                let cstart = pos + hl;
                let cend = cstart + size;
                if !valid_frame_id(id) {
                    if mode == ParsingMode::Strict {
                        Result::Err(TagError::Decode)
                    } else if cend > data.len() {
                        Result::Err(TagError::BadFrameLength)
                    } else {
                        spec_read_frames(data, cend, v, mode, acc)
                    }
                } else if cend > data.len() {
                    Result::Err(TagError::Truncated)
                } else {
                    let content = data.subrange(cstart, cend);
                    if id == spec_wxxx_id(v) {
                        match spec_parse_extended_url(content, v) {
                            Result::Err(e) => {
                                if mode == ParsingMode::Strict {
                                    Result::Err(e)
                                } else {
                                    spec_read_frames(data, cend, v, mode, acc)
                                }
                            },
                            Result::Ok(Option::None) => spec_read_frames(data, cend, v, mode, acc),
                            Result::Ok(Option::Some(f)) => spec_read_frames(
                                data,
                                cend,
                                v,
                                mode,
                                spec_insert_frame(acc, FrameView::ExtendedUrl(f)),
                            ),
                        }
                    } else if id[0] == 0x54 {
                        match spec_parse_text_body(content, v) {
                            Result::Err(e) => {
                                if mode == ParsingMode::Strict {
                                    Result::Err(e)
                                } else {
                                    spec_read_frames(data, cend, v, mode, acc)
                                }
                            },
                            Result::Ok((enc, value)) => spec_read_frames(
                                data,
                                cend,
                                v,
                                mode,
                                spec_insert_frame(
                                    acc,
                                    FrameView::Text(TextFrameView { id, encoding: enc, value }),
                                ),
                            ),
                        }
                    } else {
                        spec_read_frames(
                            data,
                            cend,
                            v,
                            mode,
                            spec_insert_frame(
                                acc,
                                FrameView::Binary(
                                    crate::id3v2::frame::BinaryFrameView { id, data: content },
                                ),
                            ),
                        )
                    }
                }
            },
        }
    }
}

/// Whether every byte of `id` is an upper-case letter or digit.
fn check_frame_id(id: &[u8]) -> (r: bool)
    ensures
        r == valid_frame_id(id@),
{
    let mut i: usize = 0;
    while i < id.len()
        invariant
            0 <= i <= id@.len(),
            forall|j: int|
                0 <= j < i ==> (0x41 <= #[trigger] id@[j] <= 0x5a) || (0x30 <= id@[j] <= 0x39),
        decreases id@.len() - i,
    {
        let b = id[i];
        if !((0x41 <= b && b <= 0x5a) || (0x30 <= b && b <= 0x39)) {
            return false;
        }
        i += 1;
    }
    true
}

/// Read every frame of an already de-unsynchronized tag body into a
/// tag, following the loop's three-way outcome for each frame.
#[verifier::rlimit(80)]
pub fn read_all_frames_into_tag(data: &[u8], header: Id3v2Header, parse_mode: ParsingMode) -> (r:
    Result<Id3v2Tag, TagError>)
    ensures
        ({
            let s = spec_read_frames(data@, 0, header.version, parse_mode, Seq::empty());
            match r {
                Result::Ok(tag) => s is Ok && tag@.frames == s->Ok_0 && tag@.version
                    == header.version && tag@.unsynchronisation == header.unsynchronisation,
                Result::Err(e) => s == Result::<Seq<FrameView>, TagError>::Err(e),
            }
        }),
{
    let v = header.version;
    let hl: usize = match v {
        Id3v2Version::V2 => 6,
        _ => 10,
    };
    let il: usize = match v {
        Id3v2Version::V2 => 3,
        _ => 4,
    };
    let mut tag = Id3v2Tag::new(header.version, header.unsynchronisation);
    let mut p: usize = 0;
    proof {
        assert(tag@.frames =~= Seq::<FrameView>::empty());
    }
    loop
        invariant
            0 <= p,
            hl == spec_header_len(v),
            il == spec_id_len(v),
            v == header.version,
            tag@.version == header.version,
            tag@.unsynchronisation == header.unsynchronisation,
            spec_read_frames(data@, 0, header.version, parse_mode, Seq::empty())
                == spec_read_frames(data@, p as int, v, parse_mode, tag@.frames),
        ensures
            spec_read_frames(data@, 0, header.version, parse_mode, Seq::empty()) == Result::<
                Seq<FrameView>,
                TagError,
            >::Ok(tag@.frames),
            tag@.version == header.version,
            tag@.unsynchronisation == header.unsynchronisation,
        decreases data@.len() - p,
    {
        if p >= data.len() {
            break;
        }
        if data[p] == 0 {
            break;
        }
        if data.len() - p < hl {
            break;
        }
        let ghost acc = tag@.frames;
        let id_slice = vstd::slice::slice_subrange(data, p, p + il);
        let size: u32 = match v {
            Id3v2Version::V2 => {
                match crate::bytes::read_u24_be(data, p + 3) {
                    Some(s) => s,
                    None => {
                        proof {
                            assert(false);
                        }
                        return Err(TagError::Truncated);
                    },
                }
            },
            Id3v2Version::V3 => {
                match crate::bytes::read_u32_be(data, p + 4) {
                    Some(s) => s,
                    None => {
                        proof {
                            assert(false);
                        }
                        return Err(TagError::Truncated);
                    },
                }
            },
            Id3v2Version::V4 => {
                match crate::id3v2::synch::synchsafe_u28(
                    data[p + 4],
                    data[p + 5],
                    data[p + 6],
                    data[p + 7],
                ) {
                    Some(s) => s,
                    None => {
                        return Err(TagError::Decode);
                    },
                }
            },
        };
        let cstart = p + hl;
        if !check_frame_id(id_slice) {
            if matches!(parse_mode, ParsingMode::Strict) {
                return Err(TagError::Decode);
            }
            if (data.len() - cstart) < size as usize {
                return Err(TagError::BadFrameLength);
            }
            p = cstart + size as usize;
            continue;
        }
        if (data.len() - cstart) < size as usize {
            return Err(TagError::Truncated);
        }
        let cend = cstart + size as usize;
        let content = vstd::slice::slice_subrange(data, cstart, cend);
        let wxxx: bool = match v {
            Id3v2Version::V2 => id_slice.len() == 3 && id_slice[0] == 0x57 && id_slice[1] == 0x58
                && id_slice[2] == 0x58,
            _ => id_slice.len() == 4 && id_slice[0] == 0x57 && id_slice[1] == 0x58 && id_slice[2]
                == 0x58 && id_slice[3] == 0x58,
        };
        proof {
            assert(wxxx == (id_slice@ =~= spec_wxxx_id(v)));
        }
        if wxxx {
            match ExtendedUrlFrame::parse(content, v) {
                Ok(Some(f)) => {
                    tag.insert(Frame::ExtendedUrl(f));
                },
                Ok(None) => {},
                Err(e) => {
                    if matches!(parse_mode, ParsingMode::Strict) {
                        return Err(e);
                    }
                },
            }
        } else if id_slice[0] == 0x54 {
            let parsed: Result<(TextEncoding, String), TagError> = if content.len() == 0 {
                Err(TagError::Decode)
            } else {
                match verify_encoding(content[0], v) {
                    Err(e) => Err(e),
                    Ok(enc) => {
                        let body = vstd::slice::slice_subrange(content, 1, content.len());
                        proof {
                            assert(body@ =~= content@.skip(1));
                        }
                        match decode_full(body, enc) {
                            Ok(s) => Ok((enc, s)),
                            Err(e) => Err(e),
                        }
                    },
                }
            };
            match parsed {
                Ok((enc, value)) => {
                    proof {
                        lemma_ascii_valid_utf8(id_slice@);
                        lemma_decode_encode(id_slice@);
                    }
                    let id = bytes_to_string(vstd::slice::slice_to_vec(id_slice));
                    tag.insert(Frame::Text(TextFrame { id, encoding: enc, value }));
                },
                Err(e) => {
                    if matches!(parse_mode, ParsingMode::Strict) {
                        return Err(e);
                    }
                },
            }
        } else {
            proof {
                lemma_ascii_valid_utf8(id_slice@);
                lemma_decode_encode(id_slice@);
            }
            let id = bytes_to_string(vstd::slice::slice_to_vec(id_slice));
            tag.insert(Frame::Binary(BinaryFrame { id, data: vstd::slice::slice_to_vec(content) }));
        }
        p = cend;
    }
    Ok(tag)
}

/// What parsing a whole tag yields: the body is the declared number
/// of bytes (or what the stream still holds), de-unsynchronized when
/// the header says so, and then read as a frame stream; whatever
/// follows the frames is discarded.
pub open spec fn spec_parse_id3v2(data: Seq<u8>, header: Id3v2Header, mode: ParsingMode) -> Result<
    Seq<FrameView>,
    TagError,
> {
    let take = if header.size <= data.len() {
        header.size as int
    } else {
        data.len() as int
    };
    let body = data.take(take);
    let stream = if header.unsynchronisation {
        spec_unsynch_decode(body)
    } else {
        body
    };
    spec_read_frames(stream, 0, header.version, mode, Seq::empty())
}

/// Parse the frame stream that follows an already-parsed tag header.
pub fn parse_id3v2(data: &[u8], header: Id3v2Header, parse_mode: ParsingMode) -> (r: Result<
    Id3v2Tag,
    TagError,
>)
    ensures
        ({
            let s = spec_parse_id3v2(data@, header, parse_mode);
            match r {
                Result::Ok(tag) => s is Ok && tag@.frames == s->Ok_0 && tag@.version
                    == header.version && tag@.unsynchronisation == header.unsynchronisation,
                Result::Err(e) => s == Result::<Seq<FrameView>, TagError>::Err(e),
            }
        }),
{
    let take: usize = if (header.size as usize) <= data.len() {
        header.size as usize
    } else {
        data.len()
    };
    let body = vstd::slice::slice_subrange(data, 0, take);
    proof {
        assert(body@ =~= data@.take(take as int));
    }
    if header.unsynchronisation {
        let decoded = unsynch_decode(body);
        read_all_frames_into_tag(decoded.as_slice(), header, parse_mode)
    } else {
        read_all_frames_into_tag(body, header, parse_mode)
    }
}

} // verus!
