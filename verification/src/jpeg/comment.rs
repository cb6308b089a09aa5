//! The comment segment.

use crate::jpeg::writer::{array_segment, JpegWriter};
use vstd::prelude::*;
use vstd::utf8::encode_utf8;

verus! {

/// A comment to put into a JPEG stream.
#[derive(Debug)]
pub struct CommentHeader {
    /// The text of the comment.
    pub comment: String,
}

/// The comment segment for a text with the bytes `text`: the marker, the number of the
/// bytes in two bytes, most significant first, and the bytes.
pub open spec fn comment_segment(text: Seq<u8>) -> Seq<u8> {
    seq![0xffu8, 0xfeu8, ((text.len() / 0x100) % 0x100) as u8, (text.len() % 0x100) as u8] + text
}

impl CommentHeader {
    /// A comment with the text `comment`.
    pub fn new(comment: &str) -> (header: CommentHeader)
        ensures
            header.comment@ == comment@,
    {
        CommentHeader { comment: comment.to_owned() }
    }

    /// Writes the comment as a segment. The length that the segment declares counts the
    /// bytes of the text and not its own two, so the writer leaves out the last two bytes.
    pub fn write<W: JpegWriter>(&self, writer: &mut W)
        ensures
            final(writer).written() == old(writer).written() + array_segment(
                comment_segment(encode_utf8(self.comment@)),
            ),
    {
        let text = self.comment.as_str().as_bytes();
        let length: usize = text.len();
        let mut com: Vec<u8> = Vec::new();
        com.push(0xff);
        com.push(0xfe);
        com.push(((length / 0x100) % 0x100) as u8);
        com.push((length % 0x100) as u8);
        com.extend_from_slice(text);
        assert(com@ =~= comment_segment(encode_utf8(self.comment@)));
        writer.write_array(com.as_slice());
    }
}

} // verus!
