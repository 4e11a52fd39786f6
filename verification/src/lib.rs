//! Reading, editing and writing the chunk stream of a PNG file.
//!
//! A PNG file is an eight-byte signature followed by chunks. Each chunk
//! carries a four-byte type code, a payload and a CRC-32 checksum. This
//! crate validates type codes, converts chunks and whole files to and from
//! their exact byte encoding, and inserts, finds and removes chunks by type.
pub mod args;
pub mod chunk;
pub mod chunk_type;
pub mod commands;
pub mod endian;
pub mod png;
pub mod text;
