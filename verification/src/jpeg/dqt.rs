//! The segment that defines the quantization tables.

use crate::jpeg::dct::DctStruct;
use crate::jpeg::writer::{array_segment, JpegWriter};
use vstd::prelude::*;

verus! {

/// The quantization tables to put into a JPEG stream.
#[derive(Debug)]
pub struct DqtHeader {
    /// The tables.
    pub dct: DctStruct,
}

/// The byte at position `k` of the segment for the tables `quantum`: the marker and the
/// length 132, then for each table its number and the low eight bits of each of its 64
/// coefficients.
pub open spec fn dqt_byte(quantum: Seq<[u16; 64]>, k: int) -> u8 {
    if k == 0 {
        0xff
    } else if k == 1 {
        0xdb
    } else if k == 2 {
        0x00
    } else if k == 3 {
        0x84
    } else if (k - 4) % 65 == 0 {
        ((k - 4) / 65) as u8
    } else {
        (quantum[(k - 4) / 65]@[(k - 4) % 65 - 1] % 0x100) as u8
    }
}

/// The segment for the tables `quantum`, 134 bytes.
pub open spec fn dqt_segment(quantum: Seq<[u16; 64]>) -> Seq<u8> {
    Seq::new(134, |k: int| dqt_byte(quantum, k))
}

impl DqtHeader {
    /// A header for the tables `dct`.
    pub fn new(dct: DctStruct) -> (header: DqtHeader)
        ensures
            header.dct == dct,
    {
        DqtHeader { dct }
    }

    /// Writes the tables as a segment.
    pub fn write<W: JpegWriter>(&self, writer: &mut W)
        ensures
            final(writer).written() == old(writer).written() + dqt_segment(self.dct.quantum@),
    {
        let mut dqt: Vec<u8> = Vec::new();
        dqt.push(0xff);
        dqt.push(0xdb);
        dqt.push(0x00);
        dqt.push(0x84);
        let mut i: usize = 0;
        while i < 2
            invariant
                i <= 2,
                dqt@.len() == 4 + 65 * i,
                forall|k: int| 0 <= k < dqt@.len() ==> dqt@[k] == dqt_byte(self.dct.quantum@, k),
            decreases 2 - i,
        {
            dqt.push(i as u8);
            let mut j: usize = 0;
            while j < 64
                invariant
                    i < 2,
                    j <= 64,
                    dqt@.len() == 4 + 65 * i + 1 + j,
                    forall|k: int|
                        0 <= k < dqt@.len() ==> dqt@[k] == dqt_byte(self.dct.quantum@, k),
                decreases 64 - j,
            {
                dqt.push((self.dct.quantum[i][j] % 0x100) as u8);
                j += 1;
            }
            i += 1;
        }
        assert(dqt@ =~= dqt_segment(self.dct.quantum@));
        assert(array_segment(dqt@) =~= dqt@);
        writer.write_array(dqt.as_slice());
    }
}

} // verus!
