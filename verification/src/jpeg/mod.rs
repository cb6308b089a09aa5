//! Reading and writing the marker segments of a JPEG stream.

pub mod comment;
pub mod dct;
pub mod dht;
pub mod dqt;
pub mod header;
pub mod huff;
pub mod obj;
pub mod sof;
pub mod sos;
pub mod utils;
pub mod writer;
