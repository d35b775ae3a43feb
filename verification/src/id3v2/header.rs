//! The fixed 10-byte ID3v2 tag header.

use vstd::prelude::*;
use crate::TagError;
use crate::id3v2::synch::spec_synchsafe_u28;

verus! {

/// The tag versions the codec understands.
#[derive(Clone, Copy, Debug, PartialEq, Eq, Structural)]
pub enum Id3v2Version {
    V2,
    V3,
    V4,
}

/// The header fields the codec acts on: the version, the declared tag
/// size in bytes, and whether the body is unsynchronized.
#[derive(Clone, Copy, Debug, PartialEq, Eq, Structural)]
pub struct Id3v2Header {
    pub version: Id3v2Version,
    pub size: u32,
    pub unsynchronisation: bool,
}

/// The header a 10-byte prefix declares: the `ID3` identifier, a
/// known major version, a flag byte whose bit 7 is unsynchronization,
/// and a 4-byte synchsafe size whose corruption is a hard error.
pub open spec fn spec_parse_header(d: Seq<u8>) -> Result<Id3v2Header, TagError> {
    if d.len() < 10 {
        Result::Err(TagError::Truncated)
    } else if !(d[0] == 0x49 && d[1] == 0x44 && d[2] == 0x33) {
        Result::Err(TagError::Decode)
    } else if d[3] != 2 && d[3] != 3 && d[3] != 4 {
        Result::Err(TagError::Decode)
    } else {
        match spec_synchsafe_u28(d[6], d[7], d[8], d[9]) {
            Option::Some(size) => Result::Ok(
                Id3v2Header {
                    version: if d[3] == 2 {
                        Id3v2Version::V2
                    } else if d[3] == 3 {
                        Id3v2Version::V3
                    } else {
                        Id3v2Version::V4
                    },
                    size,
                    unsynchronisation: d[5] & 0x80 == 0x80,
                },
            ),
            Option::None => Result::Err(TagError::Decode),
        }
    }
}

impl Id3v2Header {
    /// Parse the 10-byte header at the start of `data`.
    pub fn parse(data: &[u8]) -> (r: Result<Id3v2Header, TagError>)
        ensures
            r == spec_parse_header(data@),
    {
        if data.len() < 10 {
            return Err(TagError::Truncated);
        }
        if !(data[0] == 0x49 && data[1] == 0x44 && data[2] == 0x33) {
            return Err(TagError::Decode);
        }
        let major = data[3];
        if major != 2 && major != 3 && major != 4 {
            return Err(TagError::Decode);
        }
        let size = match crate::id3v2::synch::synchsafe_u28(data[6], data[7], data[8], data[9]) {
            Some(v) => v,
            None => {
                return Err(TagError::Decode);
            },
        };
        Ok(
            Id3v2Header {
                version: if major == 2 {
                    Id3v2Version::V2
                } else if major == 3 {
                    Id3v2Version::V3
                } else {
                    Id3v2Version::V4
                },
                size,
                unsynchronisation: data[5] & 0x80 == 0x80,
            },
        )
    }
}

} // verus!
