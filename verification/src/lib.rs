//! A codec for the PNG chunk container format.
//!
//! A PNG stream is an eight-byte signature followed by a sequence of chunks.
//! Each chunk is a length-prefixed, type-tagged, checksummed record. This
//! crate parses such streams into typed values, checks the integrity of each
//! chunk, and writes them back in the exact byte layout the format requires.
//! Every function carries a contract over a mathematical model of the bytes,
//! and the contracts are machine-checked.

pub mod error;
pub mod text;
pub mod checksum;
pub mod byte_order;
pub mod chunk_type;
pub mod chunk;
pub mod stream;
pub mod png;

pub use error::{DecodeFailure, Error};
pub use chunk_type::ChunkType;
pub use chunk::Chunk;
pub use png::Png;
