//! The APE tag format: a case-insensitively keyed item list inside a
//! fixed binary envelope.

pub mod conv;
pub mod item;
pub mod laws;
pub mod read;
pub mod tag;
pub mod write;
