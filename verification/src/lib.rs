//! Hiding messages in PNG files: the binary chunk model.
//!
//! A PNG file is an eight-byte signature followed by chunks. Each chunk
//! carries a four-letter type, a payload and a CRC-32 of both. This crate
//! parses such files, lets chunks be appended, looked up and removed, and
//! writes the result back as bytes. Every function carries a contract over
//! sequences of bytes, and is verified against it.

pub mod byte_order;
pub mod checksum;
pub mod text;
pub mod chunk_type;
pub mod chunk;
pub mod png;
pub mod commands;
