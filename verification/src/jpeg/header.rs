//! The JFIF segment that opens a stream.

use crate::jpeg::writer::{array_segment, JpegWriter};
use vstd::prelude::*;

verus! {

/// What a JFIF segment says of the stream.
#[derive(Debug, Clone, Copy)]
pub struct JfifHeader {
    /// The version of the format.
    pub version: u16,
}

/// The number whose two bytes, most significant first, are `hi` and `lo`.
pub open spec fn be16(hi: u8, lo: u8) -> u16 {
    (hi as int * 0x100 + lo as int) as u16
}

/// The JFIF segment that is written, whatever the version.
pub open spec fn jfif_segment() -> Seq<u8> {
    seq![
        0xffu8, 0xe0u8, 0x00u8, 0x10u8, 0x4au8, 0x46u8, 0x49u8, 0x46u8, 0x00u8, 0x01u8, 0x00u8,
        0x00u8, 0x00u8, 0x01u8, 0x00u8, 0x01u8, 0x00u8, 0x00u8,
    ]
}

impl JfifHeader {
    /// Reads a header from eighteen bytes that start with the letters `JF`: the version is
    /// in the two bytes after them.
    ///
    /// Fails where `data` has another length, and where the letters are not there.
    pub fn new(data: &[u8]) -> (parsed: Result<JfifHeader, &'static str>)
        ensures
            parsed is Ok <==> data@.len() == 18 && data@[0] == 0x4a && data@[1] == 0x46,
            parsed matches Ok(h) ==> h.version == be16(data@[2], data@[3]),
            parsed matches Err(e) ==> e@ == (if data@.len() != 18 {
                "Invalid byte slice length for JFIF header"@
            } else {
                "Invalid JFIF marker"@
            }),
    {
        if data.len() != 18 {
            return Err("Invalid byte slice length for JFIF header");
        }
        if data[0] != 0x4a || data[1] != 0x46 {
            return Err("Invalid JFIF marker");
        }
        let version: u16 = data[2] as u16 * 0x100 + data[3] as u16;
        Ok(JfifHeader { version })
    }

    /// Writes the JFIF segment.
    pub fn write<W: JpegWriter>(&self, writer: &mut W)
        ensures
            final(writer).written() == old(writer).written() + jfif_segment(),
    {
        let jfif: [u8; 18] = [
            0xff, 0xe0, 0x00, 0x10, 0x4a, 0x46, 0x49, 0x46, 0x00, 0x01, 0x00, 0x00, 0x00, 0x01,
            0x00, 0x01, 0x00, 0x00,
        ];
        assert(jfif@ =~= jfif_segment());
        assert(array_segment(jfif@) =~= jfif@);
        writer.write_array(jfif.as_slice());
    }
}

} // verus!
