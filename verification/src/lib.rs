//! A chunk-based binary container codec in the style of PNG: typed,
//! checksummed records behind a fixed signature, with decode, encode,
//! lookup, append and removal, all verified.

pub mod be_bytes;
pub mod checksum;
pub mod chunk;
pub mod chunk_type;
pub mod error;
pub mod png;
pub mod summary;
pub mod text;
