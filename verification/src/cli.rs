//! The commands of the tool, as plain values.

use vstd::prelude::*;

verus! {

/// The offset that asks for the place of the record to be found by scanning for the
/// terminal record.
pub const AUTO_OFFSET: u64 = 9_999_999_999;

/// Whether `offset` asks for the place of the record to be found by scanning.
pub open spec fn is_auto(offset: usize) -> bool {
    offset as u64 == AUTO_OFFSET
}

/// Whether `offset` asks for the place of the record to be found by scanning.
pub fn offset_is_auto(offset: usize) -> (auto: bool)
    ensures
        auto == is_auto(offset),
{
    offset as u64 == AUTO_OFFSET
}

/// A command line: at most one command.
#[derive(Debug)]
pub struct Cli {
    /// The command that was given.
    pub command: Option<SteganoCommands>,
}

/// The commands.
#[derive(Debug)]
pub enum SteganoCommands {
    /// Embed a payload.
    Encrypt(EncryptCmd),
    /// Recover a payload and cut its record out.
    Decrypt(DecryptCmd),
    /// Walk the records of a container.
    ShowMeta(ShowMetaCmd),
}

/// Embedding a payload.
#[derive(Debug)]
pub struct EncryptCmd {
    /// The container to read.
    pub input: String,
    /// The file to write.
    pub output: String,
    /// The key of the cipher.
    pub key: String,
    /// Whether to keep quiet.
    pub suppress: bool,
    /// The offset of the record in the output, or [`AUTO_OFFSET`].
    pub offset: usize,
    /// The text to embed.
    pub payload: String,
    /// The kind of container.
    pub file_type: String,
    /// The name of the cipher.
    pub algorithm: String,
}

/// Recovering a payload.
#[derive(Debug)]
pub struct DecryptCmd {
    /// The container to read.
    pub input: String,
    /// The file to write.
    pub output: String,
    /// The key of the cipher.
    pub key: String,
    /// Whether to keep quiet.
    pub suppress: bool,
    /// The offset at which the record was embedded, or [`AUTO_OFFSET`].
    pub offset: usize,
    /// Not used for recovering.
    pub payload: String,
    /// The kind of container.
    pub file_type: String,
    /// The name of the cipher.
    pub algorithm: String,
}

/// Walking the records of a container.
#[derive(Debug)]
pub struct ShowMetaCmd {
    /// The container to read.
    pub input: String,
    /// The most records to read.
    pub nb_chunks: usize,
    /// The position in the stream at which to start.
    pub start_chunk: usize,
    /// One more than the number of the last record.
    pub end_chunk: usize,
    /// Whether to keep quiet.
    pub suppress: bool,
    /// The kind of container.
    pub file_type: String,
}

} // verus!
