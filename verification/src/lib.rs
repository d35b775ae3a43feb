//! Verified codecs for embedded audio metadata tags.
//!
//! The crate reads and writes the binary tag layouts of three audio
//! container families — APE tags, ID3v2 frame streams, and the FLAC
//! metadata-block chain — and lifts each into one shared key/value
//! model, with contracts that pin the byte-level behaviour down.

use vstd::prelude::*;

pub mod ape;
pub mod bytes;
pub mod flac;
pub mod id3v2;
pub mod model;
pub mod pairs;
pub mod text;
pub mod vorbis;

verus! {

/// How tolerant a parser is of spec violations below the container level.
#[derive(Clone, Copy, Debug, PartialEq, Eq, Structural)]
pub enum ParsingMode {
    /// Stop at the first violation with a precise error.
    Strict,
    /// Discard offending items and keep the rest of the tag.
    Relaxed,
}

/// Read-only options handed to every parser by the caller.
#[derive(Clone, Copy, Debug, PartialEq, Eq, Structural)]
pub struct ParseOptions {
    pub parsing_mode: ParsingMode,
    pub read_properties: bool,
}

impl ParseOptions {
    pub fn new() -> (r: ParseOptions)
        ensures
            r.parsing_mode == ParsingMode::Relaxed,
            r.read_properties == true,
    {
        ParseOptions { parsing_mode: ParsingMode::Relaxed, read_properties: true }
    }
}

/// The error kinds a codec can report; stream failures stay with the caller.
#[derive(Clone, Copy, Debug, PartialEq, Eq, Structural)]
pub enum TagError {
    /// Malformed structural bytes: bad preamble or marker, non-UTF-8
    /// required text, invalid enumerated type, missing mandatory block,
    /// illegal key.
    Decode,
    /// A declared item or value size is inconsistent with the bytes left.
    SizeMismatch,
    /// A declared frame length runs past the end of the stream.
    BadFrameLength,
    /// The stream ended inside a fixed-size field.
    Truncated,
}

} // verus!
