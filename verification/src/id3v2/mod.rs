//! The ID3v2 tag format: a header with a synchsafe size, an optional
//! unsynchronization byte-stuffing transform, and a stream of frames.

pub mod encoding;
pub mod frame;
pub mod header;
pub mod read;
pub mod synch;
pub mod tag;
