//! A codec for the PNG container format: chunk type codes, length-framed and
//! checksummed chunks, and a container that owns an ordered list of chunks.

pub mod error;
pub mod chunk_type;
pub mod chunk;
pub mod png;
pub mod commands;
