//! Where segments are written to.

use vstd::prelude::*;

verus! {

/// The length that a segment declares for itself in its third and fourth byte, plus the
/// two bytes of its marker.
pub open spec fn declared_len(data: Seq<u8>) -> int {
    data[2] as int * 0x100 + data[3] as int + 2
}

/// The bytes of `data` that are written as a segment: as many as it declares, or all of
/// it where it declares more than it has. Nothing where `data` is shorter than a marker
/// and a length.
pub open spec fn array_segment(data: Seq<u8>) -> Seq<u8> {
    if data.len() < 4 {
        Seq::empty()
    } else if declared_len(data) <= data.len() {
        data.subrange(0, declared_len(data))
    } else {
        data
    }
}

/// A sink for the bytes of a JPEG stream.
pub trait JpegWriter {
    /// The bytes written so far.
    spec fn written(&self) -> Seq<u8>;

    /// Writes `data` as it is.
    fn write_marker(&mut self, data: &[u8])
        ensures
            final(self).written() == old(self).written() + data@,
    ;

    /// Writes `data` as a segment: see [`array_segment`].
    fn write_array(&mut self, data: &[u8])
        ensures
            final(self).written() == old(self).written() + array_segment(data@),
    ;
}

impl JpegWriter for Vec<u8> {
    open spec fn written(&self) -> Seq<u8> {
        self@
    }

    fn write_marker(&mut self, data: &[u8]) {
        self.extend_from_slice(data);
    }

    fn write_array(&mut self, data: &[u8]) {
        if data.len() >= 4 {
            let declared: usize = data[2] as usize * 0x100 + data[3] as usize + 2;
            let n: usize = if declared <= data.len() {
                declared
            } else {
                data.len()
            };
            let part = vstd::slice::slice_subrange(data, 0, n);
            self.extend_from_slice(part);
            assert(data@.subrange(0, data@.len() as int) =~= data@);
        } else {
            assert(self@ =~= old(self)@ + Seq::<u8>::empty());
        }
    }
}

} // verus!
