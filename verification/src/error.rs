//! The ways in which an operation on a container can fail.

use vstd::prelude::*;

verus! {

/// A condition that ends an operation. Short reads while records are scanned are not
/// among them: the record codec absorbs those.
#[derive(Debug, Clone, Copy, PartialEq, Eq, Structural)]
pub enum SteganoError {
    /// The stream does not open with the container's signature.
    MalformedContainer,
    /// The stream ended inside a stretch of bytes that has to be copied whole.
    ShortRead,
    /// The name of the cipher is not one the library knows.
    UnsupportedAlgorithm,
    /// The offset leaves no room for the bytes that have to precede the record.
    InvalidOffset,
}

impl SteganoError {
    /// A sentence for the user.
    pub fn message(&self) -> (text: String)
        ensures
            text@ == match *self {
                SteganoError::MalformedContainer => "Not a valid PNG file!"@,
                SteganoError::ShortRead => "Reached the end of the file before the copy was complete!"@,
                SteganoError::UnsupportedAlgorithm => "Unsupported algorithm!"@,
                SteganoError::InvalidOffset => "The offset is too small for this container!"@,
            },
    {
        match self {
            SteganoError::MalformedContainer => "Not a valid PNG file!".to_owned(),
            SteganoError::ShortRead => "Reached the end of the file before the copy was complete!".to_owned(),
            SteganoError::UnsupportedAlgorithm => "Unsupported algorithm!".to_owned(),
            SteganoError::InvalidOffset => "The offset is too small for this container!".to_owned(),
        }
    }
}

} // verus!
