//! The parameters of an image, as its frame and scan segments give them.

use vstd::prelude::*;

verus! {

/// The parameters of a JPEG image.
#[derive(Debug, Clone)]
pub struct JpegObj {
    /// The bits of a sample.
    pub precision: u8,
    /// The height of the image in pixels.
    pub image_height: u16,
    /// The width of the image in pixels.
    pub image_width: u16,
    /// The number of colour components.
    pub number_of_components: u8,
    /// The identifier of each component.
    pub comp_id: Vec<u8>,
    /// The horizontal sampling factor of each component.
    pub hsamp_factor: Vec<u8>,
    /// The vertical sampling factor of each component.
    pub vsamp_factor: Vec<u8>,
    /// The number of the quantization table of each component.
    pub qtable_number: Vec<u8>,
    /// The number of the DC Huffman table of each component.
    pub dctable_number: Vec<u8>,
    /// The number of the AC Huffman table of each component.
    pub actable_number: Vec<u8>,
    /// The start of the spectral selection.
    pub ss: u8,
    /// The end of the spectral selection.
    pub se: u8,
    /// The high bit position of the successive approximation.
    pub ah: u8,
    /// The low bit position of the successive approximation.
    pub al: u8,
}

/// What a [`JpegObj`] is to a contract.
pub struct Image {
    pub precision: u8,
    pub image_height: u16,
    pub image_width: u16,
    pub number_of_components: u8,
    pub comp_id: Seq<u8>,
    pub hsamp_factor: Seq<u8>,
    pub vsamp_factor: Seq<u8>,
    pub qtable_number: Seq<u8>,
    pub dctable_number: Seq<u8>,
    pub actable_number: Seq<u8>,
    pub ss: u8,
    pub se: u8,
    pub ah: u8,
    pub al: u8,
}

impl View for JpegObj {
    type V = Image;

    open spec fn view(&self) -> Image {
        Image {
            precision: self.precision,
            image_height: self.image_height,
            image_width: self.image_width,
            number_of_components: self.number_of_components,
            comp_id: self.comp_id@,
            hsamp_factor: self.hsamp_factor@,
            vsamp_factor: self.vsamp_factor@,
            qtable_number: self.qtable_number@,
            dctable_number: self.dctable_number@,
            actable_number: self.actable_number@,
            ss: self.ss,
            se: self.se,
            ah: self.ah,
            al: self.al,
        }
    }
}

/// The parameters of a usual image: 512 by 512 pixels, three components of eight bits,
/// none of them subsampled.
pub open spec fn usual_image() -> Image {
    Image {
        precision: 8,
        image_height: 512,
        image_width: 512,
        number_of_components: 3,
        comp_id: seq![1u8, 2u8, 3u8],
        hsamp_factor: seq![1u8, 1u8, 1u8],
        vsamp_factor: seq![1u8, 1u8, 1u8],
        qtable_number: seq![0u8, 1u8, 1u8],
        dctable_number: seq![0u8, 1u8, 1u8],
        actable_number: seq![0u8, 1u8, 1u8],
        ss: 0,
        se: 63,
        ah: 0,
        al: 0,
    }
}

impl Default for JpegObj {
    fn default() -> (obj: JpegObj)
        ensures
            obj@ == usual_image(),
    {
        let obj = JpegObj {
            precision: 8,
            image_height: 512,
            image_width: 512,
            number_of_components: 3,
            comp_id: vec![1, 2, 3],
            hsamp_factor: vec![1, 1, 1],
            vsamp_factor: vec![1, 1, 1],
            qtable_number: vec![0, 1, 1],
            dctable_number: vec![0, 1, 1],
            actable_number: vec![0, 1, 1],
            ss: 0,
            se: 63,
            ah: 0,
            al: 0,
        };
        assert(obj.comp_id@ =~= seq![1u8, 2u8, 3u8]);
        assert(obj.hsamp_factor@ =~= seq![1u8, 1u8, 1u8]);
        assert(obj.vsamp_factor@ =~= seq![1u8, 1u8, 1u8]);
        assert(obj.qtable_number@ =~= seq![0u8, 1u8, 1u8]);
        assert(obj.dctable_number@ =~= seq![0u8, 1u8, 1u8]);
        assert(obj.actable_number@ =~= seq![0u8, 1u8, 1u8]);
        obj
    }
}

/// Whether two four-bit values can be packed into one byte as the segments do: the first,
/// shifted up by four bits within a byte, plus the second, is a byte.
pub open spec fn packs(high: u8, low: u8) -> bool {
    (high as int * 0x10) % 0x100 + low as int <= 0xff
}

/// Two values packed into one byte: the first shifted up by four bits within a byte, plus
/// the second.
pub open spec fn packed(high: u8, low: u8) -> u8 {
    ((high as int * 0x10) % 0x100 + low as int) as u8
}

/// Packs two values into one byte.
pub fn pack(high: u8, low: u8) -> (byte: u8)
    requires
        packs(high, low),
    ensures
        byte == packed(high, low),
{
    let shifted: u8 = ((high as u16 * 0x10) % 0x100) as u8;
    shifted + low
}

/// The upper four bits of `byte`.
pub open spec fn high_nibble(byte: u8) -> u8 {
    (byte / 0x10) as u8
}

/// The lower four bits of `byte`.
pub open spec fn low_nibble(byte: u8) -> u8 {
    (byte % 0x10) as u8
}

} // verus!
