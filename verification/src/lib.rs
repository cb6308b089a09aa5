//! Splicing an encrypted record into a chunked image container, and taking it out again.
//!
//! The library works on byte streams held in memory. [`models::MetaChunk`] walks the
//! records of a container, [`models::MetaChunk::write_encrypted_data`] splices a synthetic
//! record into a copy of the stream, and [`models::MetaChunk::write_decrypted_data`] reads
//! such a record back and cuts it out. The ciphers live in [`utils`].

pub mod checksum;
pub mod cli;
pub mod error;
pub mod jpeg;
pub mod models;
pub mod splice;
pub mod stream;
pub mod utils;
