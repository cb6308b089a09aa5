//! The segment that starts a scan.

use crate::jpeg::obj::{packed, pack, packs, Image, JpegObj};
use crate::jpeg::writer::{array_segment, JpegWriter};
use vstd::prelude::*;

verus! {

/// The start of a scan to put into a JPEG stream.
#[derive(Debug, Clone)]
pub struct SosHeader {
    /// The parameters of the image.
    pub jpeg_obj: JpegObj,
}

/// How many components the scan segment lists: as many as the image has, but no more than
/// it has identifiers for, counted in one byte.
pub open spec fn scan_count(img: Image) -> nat {
    let ids = img.comp_id.len() % 0x100;
    if img.number_of_components <= ids {
        img.number_of_components as nat
    } else {
        ids as nat
    }
}

/// The two bytes that the scan segment holds for component `i`: its identifier, and the
/// numbers of its two Huffman tables packed into one byte.
pub open spec fn scan_component(img: Image, i: int) -> Seq<u8> {
    seq![img.comp_id[i], packed(img.dctable_number[i], img.actable_number[i])]
}

/// The bytes that the scan segment holds for the first `n` components.
pub open spec fn scan_components(img: Image, n: nat) -> Seq<u8>
    decreases n,
{
    if n == 0 {
        Seq::empty()
    } else {
        scan_components(img, (n - 1) as nat) + scan_component(img, n - 1)
    }
}

/// The scan segment of `img`: the marker, the length 12, the number of components, the
/// components, the spectral selection, and the two bit positions packed into one byte.
pub open spec fn scan_segment(img: Image) -> Seq<u8> {
    seq![0xffu8, 0xdau8, 0x00u8, 12u8, img.number_of_components] + scan_components(
        img,
        scan_count(img),
    ) + seq![img.ss, img.se, packed(img.ah, img.al)]
}

/// Whether `img` holds what its scan segment needs: two table numbers that can be packed
/// for each component that is listed, and bit positions that can be packed.
pub open spec fn scan_ready(img: Image) -> bool {
    &&& img.dctable_number.len() >= scan_count(img)
    &&& img.actable_number.len() >= scan_count(img)
    &&& forall|i: int|
        0 <= i < scan_count(img) ==> packs(#[trigger] img.dctable_number[i], img.actable_number[i])
    &&& packs(img.ah, img.al)
}

impl SosHeader {
    /// A header for the image `jpeg_obj`.
    pub fn new(jpeg_obj: JpegObj) -> (header: SosHeader)
        ensures
            header.jpeg_obj == jpeg_obj,
    {
        SosHeader { jpeg_obj }
    }

    /// Writes the start of the scan as a segment. The segment declares the length of a
    /// scan of three components: of more, the writer leaves out what goes beyond.
    pub fn write<W: JpegWriter>(&self, writer: &mut W)
        requires
            scan_ready(self.jpeg_obj@),
        ensures
            final(writer).written() == old(writer).written() + array_segment(
                scan_segment(self.jpeg_obj@),
            ),
    {
        let obj = &self.jpeg_obj;
        let ghost img = self.jpeg_obj@;
        let mut sos: Vec<u8> = Vec::new();
        sos.push(0xff);
        sos.push(0xda);
        sos.push(0x00);
        sos.push(12);
        sos.push(obj.number_of_components);
        let ghost head = sos@;
        let ids: usize = obj.comp_id.len() % 0x100;
        let count: usize = if obj.number_of_components as usize <= ids {
            obj.number_of_components as usize
        } else {
            ids
        };
        let mut i: usize = 0;
        assert(sos@ =~= head + scan_components(img, 0));
        while i < count
            invariant
                i <= count,
                count == scan_count(img),
                count <= img.comp_id.len(),
                img == self.jpeg_obj@,
                obj == &self.jpeg_obj,
                scan_ready(img),
                sos@ == head + scan_components(img, i as nat),
            decreases count - i,
        {
            let ghost before = sos@;
            sos.push(obj.comp_id[i]);
            assert(packs(img.dctable_number[i as int], img.actable_number[i as int]));
            sos.push(pack(obj.dctable_number[i], obj.actable_number[i]));
            assert(sos@ =~= before + scan_component(img, i as int));
            assert(sos@ =~= head + scan_components(img, (i + 1) as nat));
            i += 1;
        }
        sos.push(obj.ss);
        sos.push(obj.se);
        sos.push(pack(obj.ah, obj.al));
        assert(sos@ =~= scan_segment(img));
        writer.write_array(sos.as_slice());
    }
}

} // verus!
