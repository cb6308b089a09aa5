//! The segment that starts a frame.

use crate::jpeg::obj::{packed, pack, packs, Image, JpegObj};
use crate::jpeg::writer::{array_segment, JpegWriter};
use vstd::prelude::*;

verus! {

/// The start of a frame to put into a JPEG stream.
#[derive(Debug)]
pub struct SofHeader {
    /// The parameters of the image.
    pub jpeg_obj: JpegObj,
}

/// The three bytes that the frame segment holds for component `i`: its identifier, its two
/// sampling factors packed into one byte, and the number of its quantization table.
pub open spec fn frame_component(img: Image, i: int) -> Seq<u8> {
    seq![img.comp_id[i], packed(img.hsamp_factor[i], img.vsamp_factor[i]), img.qtable_number[i]]
}

/// The bytes that the frame segment holds for the first `n` components.
pub open spec fn frame_components(img: Image, n: nat) -> Seq<u8>
    decreases n,
{
    if n == 0 {
        Seq::empty()
    } else {
        frame_components(img, (n - 1) as nat) + frame_component(img, n - 1)
    }
}

/// The frame segment of `img`: the marker, the length 17, the precision, the height and
/// the width in two bytes each, the number of components, and the components.
pub open spec fn frame_segment(img: Image) -> Seq<u8> {
    seq![
        0xffu8,
        0xc0u8,
        0x00u8,
        17u8,
        img.precision,
        (img.image_height / 0x100) as u8,
        (img.image_height % 0x100) as u8,
        (img.image_width / 0x100) as u8,
        (img.image_width % 0x100) as u8,
        img.number_of_components,
    ] + frame_components(img, img.number_of_components as nat)
}

/// Whether `img` holds what its frame segment needs: an identifier, two sampling factors
/// that can be packed, and a table number for each of its components.
pub open spec fn frame_ready(img: Image) -> bool {
    &&& img.comp_id.len() >= img.number_of_components
    &&& img.hsamp_factor.len() >= img.number_of_components
    &&& img.vsamp_factor.len() >= img.number_of_components
    &&& img.qtable_number.len() >= img.number_of_components
    &&& forall|i: int|
        0 <= i < img.number_of_components ==> packs(
            #[trigger] img.hsamp_factor[i],
            img.vsamp_factor[i],
        )
}

impl SofHeader {
    /// A header for the image `jpeg_obj`.
    pub fn new(jpeg_obj: JpegObj) -> (header: SofHeader)
        ensures
            header.jpeg_obj == jpeg_obj,
    {
        SofHeader { jpeg_obj }
    }

    /// Writes the start of the frame as a segment. The segment declares the length of a
    /// frame of three components: of more, the writer leaves out what goes beyond.
    pub fn write<W: JpegWriter>(&self, writer: &mut W)
        requires
            frame_ready(self.jpeg_obj@),
        ensures
            final(writer).written() == old(writer).written() + array_segment(
                frame_segment(self.jpeg_obj@),
            ),
    {
        let obj = &self.jpeg_obj;
        let ghost img = self.jpeg_obj@;
        let mut sof: Vec<u8> = Vec::new();
        sof.push(0xff);
        sof.push(0xc0);
        sof.push(0x00);
        sof.push(17);
        sof.push(obj.precision);
        sof.push((obj.image_height / 0x100) as u8);
        sof.push((obj.image_height % 0x100) as u8);
        sof.push((obj.image_width / 0x100) as u8);
        sof.push((obj.image_width % 0x100) as u8);
        sof.push(obj.number_of_components);
        let ghost head = sof@;
        let count: usize = obj.number_of_components as usize;
        let mut i: usize = 0;
        assert(sof@ =~= head + frame_components(img, 0));
        while i < count
            invariant
                i <= count,
                count == img.number_of_components,
                img == self.jpeg_obj@,
                obj == &self.jpeg_obj,
                frame_ready(img),
                sof@ == head + frame_components(img, i as nat),
            decreases count - i,
        {
            let ghost before = sof@;
            sof.push(obj.comp_id[i]);
            assert(packs(img.hsamp_factor[i as int], img.vsamp_factor[i as int]));
            sof.push(pack(obj.hsamp_factor[i], obj.vsamp_factor[i]));
            sof.push(obj.qtable_number[i]);
            assert(sof@ =~= before + frame_component(img, i as int));
            assert(sof@ =~= head + frame_components(img, (i + 1) as nat));
            i += 1;
        }
        assert(sof@ =~= frame_segment(img));
        writer.write_array(sof.as_slice());
    }
}

} // verus!
