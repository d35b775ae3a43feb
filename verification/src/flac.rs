//! The FLAC metadata-block chain: the stream marker, the mandatory
//! STREAMINFO block, and the walk over the remaining blocks.

use vstd::prelude::*;
use crate::{ParseOptions, ParsingMode, TagError};
use crate::bytes::{read_u24_be, spec_u24_be};
use crate::id3v2::header::{spec_parse_header, Id3v2Header};
use crate::id3v2::read::{parse_id3v2, spec_parse_id3v2};
use crate::id3v2::tag::Id3v2Tag;
use crate::vorbis::{read_comments, spec_read_comments, VorbisComments, VorbisCommentsView};

verus! {

/// Block type code of the mandatory stream-information block.
pub const BLOCK_ID_STREAMINFO: u8 = 0;

/// Block type code of a padding block, which may be empty.
pub const BLOCK_ID_PADDING: u8 = 1;

/// Block type code of a seek table, which may be empty.
pub const BLOCK_ID_SEEKTABLE: u8 = 3;

/// Block type code of a Vorbis Comment block.
pub const BLOCK_ID_VORBIS_COMMENTS: u8 = 4;

/// Block type code of a picture block.
pub const BLOCK_ID_PICTURE: u8 = 6;

/// One metadata block: its type code, whether it is the last of the
/// chain, and its content bytes.
#[derive(Clone, Debug, PartialEq, Eq)]
pub struct Block {
    pub ty: u8,
    pub last: bool,
    pub content: Vec<u8>,
}

pub struct BlockView {
    pub ty: u8,
    pub last: bool,
    pub content: Seq<u8>,
}

impl View for Block {
    type V = BlockView;

    open spec fn view(&self) -> BlockView {
        BlockView { ty: self.ty, last: self.last, content: self.content@ }
    }
}

/// The block starting at `pos`: one byte holding the last-block flag
/// and the type code, a 3-byte big-endian length, and that many
/// content bytes.
pub open spec fn spec_read_block(d: Seq<u8>, pos: int) -> Result<(BlockView, int), TagError> {
    if pos < 0 || pos + 4 > d.len() {
        Result::Err(TagError::Truncated)
    } else {
        let b = d[pos];
        let len = spec_u24_be(d.subrange(pos + 1, pos + 4));
        if pos + 4 + len > d.len() {
            Result::Err(TagError::Truncated)
        } else {
            Result::Ok(
                (
                    BlockView {
                        ty: (b & 0x7f) as u8,
                        last: b & 0x80 == 0x80,
                        content: d.subrange(pos + 4, pos + 4 + len),
                    },
                    pos + 4 + len,
                ),
            )
        }
    }
}

impl Block {
    /// Read the metadata block at `pos`, returning it and the
    /// position after its content.
    pub fn read(data: &[u8], pos: usize) -> (r: Result<(Block, usize), TagError>)
        ensures
            ({
                let s = spec_read_block(data@, pos as int);
                match r {
                    Result::Ok((b, next)) => s is Ok && b@ == s->Ok_0.0 && next == s->Ok_0.1,
                    Result::Err(e) => s == Result::<(BlockView, int), TagError>::Err(e),
                }
            }),
    {
        if data.len() < 4 || data.len() - 4 < pos {
            return Err(TagError::Truncated);
        }
        let b = data[pos];
        let len = match read_u24_be(data, pos + 1) {
            Some(l) => l,
            None => {
                proof {
                    assert(false);
                }
                return Err(TagError::Truncated);
            },
        };
        if (data.len() - (pos + 4)) < len as usize {
            return Err(TagError::Truncated);
        }
        let cstart = pos + 4;
        let cend = cstart + len as usize;
        let content = vstd::slice::slice_to_vec(vstd::slice::slice_subrange(data, cstart, cend));
        Ok((Block { ty: b & 0x7f, last: b & 0x80 == 0x80, content }, cend))
    }
}

/// What stream verification yields: the four marker bytes `fLaC` must
/// open the stream at `pos` and a STREAMINFO block must follow, else
/// the stream is rejected in any mode.
pub open spec fn spec_verify_flac(d: Seq<u8>, pos: int) -> Result<(BlockView, int), TagError> {
    if pos < 0 || pos + 4 > d.len() {
        Result::Err(TagError::Truncated)
    } else if !(d[pos] == 0x66 && d[pos + 1] == 0x4c && d[pos + 2] == 0x61 && d[pos + 3]
        == 0x43) {
        Result::Err(TagError::Decode)
    } else {
        match spec_read_block(d, pos + 4) {
            Result::Err(e) => Result::Err(e),
            Result::Ok((block, next)) => {
                if block.ty != BLOCK_ID_STREAMINFO {
                    Result::Err(TagError::Decode)
                } else {
                    Result::Ok((block, next))
                }
            },
        }
    }
}

/// Check the `fLaC` marker at `pos` and read the mandatory STREAMINFO
/// block that must follow it.
pub fn verify_flac(data: &[u8], pos: usize) -> (r: Result<(Block, usize), TagError>)
    ensures
        ({
            let s = spec_verify_flac(data@, pos as int);
            match r {
                Result::Ok((b, next)) => s is Ok && b@ == s->Ok_0.0 && next == s->Ok_0.1,
                Result::Err(e) => s == Result::<(BlockView, int), TagError>::Err(e),
            }
        }),
{
    if data.len() < 4 || data.len() - 4 < pos {
        return Err(TagError::Truncated);
    }
    if !(data[pos] == 0x66 && data[pos + 1] == 0x4c && data[pos + 2] == 0x61 && data[pos + 3]
        == 0x43) {
        return Err(TagError::Decode);
    }
    match Block::read(data, pos + 4) {
        Ok((block, next)) => {
            if block.ty != BLOCK_ID_STREAMINFO {
                return Err(TagError::Decode);
            }
            Ok((block, next))
        },
        Err(e) => Err(e),
    }
}

/// A parsed FLAC file: an embedded (out-of-spec) ID3v2 tag if one
/// leads the stream, the Vorbis Comment tag, the raw envelopes of the
/// picture blocks, and the STREAMINFO content for property readers.
#[derive(Debug, PartialEq, Eq)]
pub struct FlacFile {
    pub id3v2_tag: Option<Id3v2Tag>,
    pub vorbis_comments_tag: Option<VorbisComments>,
    pub pictures: Vec<Vec<u8>>,
    pub stream_info: Vec<u8>,
}

pub struct FlacFileView {
    pub id3v2: Option<Seq<crate::id3v2::frame::FrameView>>,
    pub vorbis: Option<VorbisCommentsView>,
    pub pictures: Seq<Seq<u8>>,
    pub stream_info: Seq<u8>,
}

impl View for FlacFile {
    type V = FlacFileView;

    open spec fn view(&self) -> FlacFileView {
        FlacFileView {
            id3v2: match self.id3v2_tag {
                Option::Some(t) => Option::Some(t@.frames),
                Option::None => Option::None,
            },
            vorbis: match self.vorbis_comments_tag {
                Option::Some(c) => Option::Some(c@),
                Option::None => Option::None,
            },
            pictures: Seq::new(self.pictures@.len(), |i: int| self.pictures@[i]@),
            stream_info: self.stream_info@,
        }
    }
}

/// One pass of the block walk after STREAMINFO: the latest Vorbis
/// Comment block wins in relaxed mode and a second one is a hard
/// error in strict mode; picture envelopes are collected; an empty
/// block of any type but padding or seek table is a hard error.
pub open spec fn spec_walk_blocks(
    d: Seq<u8>,
    pos: int,
    mode: ParsingMode,
    vorbis: Option<VorbisCommentsView>,
    pics: Seq<Seq<u8>>,
    last: bool,
) -> Result<(Option<VorbisCommentsView>, Seq<Seq<u8>>), TagError>
    decreases d.len() - pos,
{
    if last {
        Result::Ok((vorbis, pics))
    } else {
        match spec_read_block(d, pos) {
            Result::Err(e) => Result::Err(e),
            Result::Ok((block, next)) => {
                if block.content.len() == 0 && block.ty != BLOCK_ID_PADDING && block.ty
                    != BLOCK_ID_SEEKTABLE {
                    Result::Err(TagError::Decode)
                } else if block.ty == BLOCK_ID_VORBIS_COMMENTS {
                    if vorbis is Some && mode == ParsingMode::Strict {
                        Result::Err(TagError::Decode)
                    } else {
                        match spec_read_comments(block.content, mode) {
                            Result::Err(e) => Result::Err(e),
                            Result::Ok(c) => spec_walk_blocks(
                                d,
                                next,
                                mode,
                                Option::Some(c),
                                pics,
                                block.last,
                            ),
                        }
                    }
                } else if block.ty == BLOCK_ID_PICTURE {
                    spec_walk_blocks(d, next, mode, vorbis, pics.push(block.content), block.last)
                } else {
                    spec_walk_blocks(d, next, mode, vorbis, pics, block.last)
                }
            },
        }
    }
}

/// What parsing a whole FLAC stream yields: an optional leading ID3v2
/// tag, the marker and STREAMINFO check, and the block walk; a
/// STREAMINFO body of fewer than 18 bytes is rejected.
pub open spec fn spec_flac_read_from(d: Seq<u8>, options: ParseOptions) -> Result<
    FlacFileView,
    TagError,
> {
    let id3 = if d.len() >= 3 && d[0] == 0x49 && d[1] == 0x44 && d[2] == 0x33 {
        match spec_parse_header(
            if d.len() < 10 {
                d
            } else {
                d.take(10)
            },
        ) {
            Result::Err(e) => Result::Err(e),
            Result::Ok(h) => {
                match spec_parse_id3v2(d.skip(10), h, options.parsing_mode) {
                    Result::Err(e) => Result::Err(e),
                    Result::Ok(frames) => Result::Ok((Option::Some(frames), 10 + h.size as int)),
                }
            },
        }
    } else {
        Result::Ok((Option::<Seq<crate::id3v2::frame::FrameView>>::None, 0int))
    };
    match id3 {
        Result::Err(e) => Result::Err(e),
        Result::Ok((id3v2, start)) => {
            match spec_verify_flac(d, start) {
                Result::Err(e) => Result::Err(e),
                Result::Ok((stream_info, next)) => {
                    if stream_info.content.len() < 18 {
                        Result::Err(TagError::Decode)
                    } else {
                        match spec_walk_blocks(
                            d,
                            next,
                            options.parsing_mode,
                            Option::None,
                            Seq::empty(),
                            stream_info.last,
                        ) {
                            Result::Err(e) => Result::Err(e),
                            Result::Ok((vorbis, pics)) => Result::Ok(
                                FlacFileView {
                                    id3v2,
                                    vorbis,
                                    pictures: pics,
                                    stream_info: stream_info.content,
                                },
                            ),
                        }
                    }
                },
            }
        },
    }
}

/// Walk the metadata chain from `pos` until a block marks itself
/// last, collecting the Vorbis Comment tag and picture envelopes.
fn walk_blocks(data: &[u8], pos: usize, mode: ParsingMode, last: bool) -> (r: Result<
    (Option<VorbisComments>, Vec<Vec<u8>>),
    TagError,
>)
    ensures
        ({
            let s = spec_walk_blocks(data@, pos as int, mode, Option::None, Seq::empty(), last);
            match r {
                Result::Ok((vorbis, pics)) => s is Ok && ({
                    let v = s->Ok_0;
                    &&& v.0 == (match vorbis {
                        Option::Some(c) => Option::Some(c@),
                        Option::None => Option::<VorbisCommentsView>::None,
                    })
                    &&& v.1.len() == pics@.len()
                    &&& forall|i: int| 0 <= i < pics@.len() ==> #[trigger] pics@[i]@ == v.1[i]
                }),
                Result::Err(e) => s == Result::<
                    (Option<VorbisCommentsView>, Seq<Seq<u8>>),
                    TagError,
                >::Err(e),
            }
        }),
{
    let mut p = pos;
    let mut last_block = last;
    let mut vorbis: Option<VorbisComments> = None;
    let mut pictures: Vec<Vec<u8>> = Vec::new();
    let ghost mut picsv: Seq<Seq<u8>> = Seq::empty();
    while !last_block
        invariant
            0 <= p,
            pictures@.len() == picsv.len(),
            forall|i: int| 0 <= i < picsv.len() ==> #[trigger] pictures@[i]@ == picsv[i],
            spec_walk_blocks(data@, pos as int, mode, Option::None, Seq::empty(), last)
                == spec_walk_blocks(
                data@,
                p as int,
                mode,
                (match vorbis {
                    Option::Some(c) => Option::Some(c@),
                    Option::None => Option::<VorbisCommentsView>::None,
                }),
                picsv,
                last_block,
            ),
        decreases data@.len() + 1 - p,
    {
        let (block, next) = match Block::read(data, p) {
            Ok(x) => x,
            Err(e) => {
                return Err(e);
            },
        };
        if block.content.len() == 0 && block.ty != BLOCK_ID_PADDING && block.ty
            != BLOCK_ID_SEEKTABLE {
            return Err(TagError::Decode);
        }
        if block.ty == BLOCK_ID_VORBIS_COMMENTS {
            if vorbis.is_some() && matches!(mode, ParsingMode::Strict) {
                return Err(TagError::Decode);
            }
            let c = match read_comments(block.content.as_slice(), mode) {
                Ok(c) => c,
                Err(e) => {
                    return Err(e);
                },
            };
            vorbis = Some(c);
        } else if block.ty == BLOCK_ID_PICTURE {
            proof {
                picsv = picsv.push(block@.content);
            }
            pictures.push(block.content);
        }
        last_block = block.last;
        p = next;
    }
    Ok((vorbis, pictures))
}

/// Parse a FLAC stream: probe for a leading (out-of-spec) ID3v2 tag,
/// verify the marker and STREAMINFO block, then walk the metadata
/// chain to its last block.
pub fn read_from(data: &[u8], parse_options: ParseOptions) -> (r: Result<FlacFile, TagError>)
    ensures
        ({
            let s = spec_flac_read_from(data@, parse_options);
            match r {
                Result::Ok(f) => s is Ok && ({
                    let v = s->Ok_0;
                    &&& f@.id3v2 == v.id3v2
                    &&& f@.vorbis == v.vorbis
                    &&& f@.pictures == v.pictures
                    &&& f@.stream_info == v.stream_info
                }),
                Result::Err(e) => s == Result::<FlacFileView, TagError>::Err(e),
            }
        }),
{
    let mut id3v2_tag: Option<Id3v2Tag> = None;
    let mut start: usize = 0;
    if data.len() >= 3 && data[0] == 0x49 && data[1] == 0x44 && data[2] == 0x33 {
        let head = if data.len() >= 10 {
            vstd::slice::slice_subrange(data, 0, 10)
        } else {
            vstd::slice::slice_subrange(data, 0, data.len())
        };
        proof {
            if data@.len() >= 10 {
                assert(head@ =~= data@.take(10));
            } else {
                assert(head@ =~= data@);
            }
        }
        let header = match Id3v2Header::parse(head) {
            Ok(h) => h,
            Err(e) => {
                return Err(e);
            },
        };
        let rest = vstd::slice::slice_subrange(data, 10, data.len());
        proof {
            assert(rest@ =~= data@.skip(10));
        }
        let tag = match parse_id3v2(rest, header, parse_options.parsing_mode) {
            Ok(t) => t,
            Err(e) => {
                return Err(e);
            },
        };
        id3v2_tag = Some(tag);
        if (usize::MAX - 10) < header.size as usize {
            proof {
                assert(false);
            }
            return Err(TagError::Truncated);
        }
        start = 10 + header.size as usize;
    }
    let (stream_info, pos) = match verify_flac(data, start) {
        Ok(x) => x,
        Err(e) => {
            return Err(e);
        },
    };
    if stream_info.content.len() < 18 {
        return Err(TagError::Decode);
    }
    match walk_blocks(data, pos, parse_options.parsing_mode, stream_info.last) {
        Ok((vorbis, pictures)) => {
            let f = FlacFile {
                id3v2_tag,
                vorbis_comments_tag: vorbis,
                pictures,
                stream_info: stream_info.content,
            };
            Ok(f)
        },
        Err(e) => Err(e),
    }
}

} // verus!
