//! The quantization tables.

use crate::jpeg::header::be16;
use vstd::prelude::*;

verus! {

/// Two quantization tables of 64 coefficients each: the first for luminance, the second
/// for chrominance.
#[derive(Debug)]
pub struct DctStruct {
    /// The tables.
    pub quantum: [[u16; 64]; 2],
}

/// The coefficient `j` of table `i` as [`DctStruct::new`] reads it from 128 bytes: the
/// two bytes at `64 * i + j`, most significant first. The last coefficient of the second
/// table has only one byte left and stays zero.
pub open spec fn coefficient_read(bytes: Seq<u8>, i: int, j: int) -> u16 {
    if 64 * i + j + 1 < 128 {
        be16(bytes[64 * i + j], bytes[64 * i + j + 1])
    } else {
        0
    }
}

fn read_table(bytes: &[u8], i: usize) -> (row: [u16; 64])
    requires
        bytes@.len() == 128,
        i < 2,
    ensures
        forall|j: int| 0 <= j < 64 ==> row@[j] == coefficient_read(bytes@, i as int, j),
{
    let mut row: [u16; 64] = [0u16; 64];
    let mut j: usize = 0;
    while j < 64
        invariant
            j <= 64,
            i < 2,
            bytes@.len() == 128,
            forall|k: int| 0 <= k < j ==> row@[k] == coefficient_read(bytes@, i as int, k),
            forall|k: int| j <= k < 64 ==> row@[k] == 0,
        decreases 64 - j,
    {
        let index: usize = i * 64 + j;
        if index + 1 < 128 {
            row[j] = bytes[index] as u16 * 0x100 + bytes[index + 1] as u16;
        }
        j += 1;
    }
    row
}

impl Default for DctStruct {
    fn default() -> (dct: DctStruct)
        ensures
            forall|i: int, j: int| 0 <= i < 2 && 0 <= j < 64 ==> dct.quantum@[i]@[j] == 0,
    {
        DctStruct { quantum: [[0u16; 64], [0u16; 64]] }
    }
}

impl DctStruct {
    /// Reads two tables from 128 bytes: see [`coefficient_read`].
    ///
    /// Fails where `bytes` has another length.
    pub fn new(bytes: &[u8]) -> (parsed: Result<DctStruct, &'static str>)
        ensures
            parsed is Ok <==> bytes@.len() == 128,
            parsed matches Ok(dct) ==> forall|i: int, j: int|
                0 <= i < 2 && 0 <= j < 64 ==> dct.quantum@[i]@[j] == coefficient_read(
                    bytes@,
                    i,
                    j,
                ),
            parsed matches Err(e) ==> e@ == "Invalid byte slice length for DctStruct"@,
    {
        if bytes.len() != 128 {
            return Err("Invalid byte slice length for DctStruct");
        }
        let luminance: [u16; 64] = read_table(bytes, 0);
        let chrominance: [u16; 64] = read_table(bytes, 1);
        Ok(DctStruct { quantum: [luminance, chrominance] })
    }
}

} // verus!
