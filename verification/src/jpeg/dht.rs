//! The segment that defines the Huffman tables.

use crate::jpeg::huff::Huffman;
use crate::jpeg::writer::{array_segment, JpegWriter};
use vstd::prelude::*;

verus! {

/// The Huffman tables to put into a JPEG stream.
#[derive(Debug)]
pub struct DhtHeader {
    /// The encoder that holds the tables.
    pub huf: Huffman,
}

/// Whether `huf` holds four lists of code counts, each with a count of symbols that is
/// not negative and sixteen counts by length, and four lists of symbols.
pub open spec fn tables_listed(huf: Huffman) -> bool {
    &&& huf.bits@.len() >= 4
    &&& huf.val@.len() >= 4
    &&& forall|i: int| 0 <= i < 4 ==> (#[trigger] huf.bits@[i])@.len() >= 17 && huf.bits@[i]@[0] >= 0
}

/// The marker of the segment, which is all that is left of it when it is written.
pub open spec fn dht_marker() -> Seq<u8> {
    seq![0xffu8, 0xc4u8]
}

fn low_byte(v: i32) -> (byte: u8)
    ensures
        byte == (v % 0x100) as u8,
{
    let r: i32 = v % 0x100;
    if r < 0 {
        (r + 0x100) as u8
    } else {
        r as u8
    }
}

impl DhtHeader {
    /// A header for the tables of `huf`.
    pub fn new(huf: Huffman) -> (header: DhtHeader)
        ensures
            header.huf == huf,
    {
        DhtHeader { huf }
    }

    /// Goes through the four tables and hands the writer what is left: the marker alone,
    /// since each table is cut off again once it is put behind the marker. A marker without
    /// a length is no segment, so the writer writes nothing.
    pub fn write<W: JpegWriter>(&self, writer: &mut W)
        requires
            tables_listed(self.huf),
        ensures
            final(writer).written() == old(writer).written(),
    {
        let mut dht: Vec<u8> = Vec::new();
        dht.push(0xff);
        dht.push(0xc4);
        let index: usize = 4;
        let mut i: usize = 0;
        while i < 4
            invariant
                i <= 4,
                index == 4,
                tables_listed(self.huf),
                dht@ == dht_marker(),
            decreases 4 - i,
        {
            assert(self.huf.bits@[i as int]@.len() >= 17);
            let mut j: usize = 0;
            while j < 17
                invariant
                    j <= 17,
                    i < 4,
                    tables_listed(self.huf),
                    dht@.len() == 2 + j,
                decreases 17 - j,
            {
                assert(self.huf.bits@[i as int]@.len() >= 17);
                dht.push(low_byte(self.huf.bits[i][j]));
                j += 1;
            }
            let symbols: usize = self.huf.val[i].len();
            let mut k: usize = 0;
            while k < symbols
                invariant
                    k <= symbols,
                    i < 4,
                    tables_listed(self.huf),
                    symbols == self.huf.val@[i as int]@.len(),
                    dht@.len() == 19 + k,
                decreases symbols - k,
            {
                dht.push(low_byte(self.huf.val[i][k]));
                k += 1;
            }
            let mut cut: Vec<u8> = Vec::new();
            cut.push(0xff);
            cut.push(0xc4);
            let part = vstd::slice::slice_subrange(dht.as_slice(), index, index);
            cut.extend_from_slice(part);
            assert(cut@ =~= dht_marker());
            dht = cut;
            i += 1;
        }
        assert(array_segment(dht@) =~= Seq::<u8>::empty());
        writer.write_array(dht.as_slice());
        assert(writer.written() =~= old(writer).written());
    }
}

} // verus!
