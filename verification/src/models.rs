//! The records of a container, and the cursor that walks, splices and cuts them.

use crate::checksum::{be_bytes, be_value, checksum, record_checksum, u32_from_be_bytes, u32_to_be_bytes};
use crate::cli::{DecryptCmd, EncryptCmd, ShowMetaCmd};
use crate::cli::{is_auto, offset_is_auto};
use crate::error::SteganoError;
use crate::stream::{ByteReader, StreamView};
use crate::utils::{
    algorithm_named, carried, ciphertext, decrypt, encrypt, key_fits, le_bytes, le_value,
    lemma_survivor_comes_back, plaintext, survives, trim_trailing_zeros, trimmed, u64_to_u8_array,
    Algorithm,
};
use vstd::utf8::{
    decode_utf8, decode_utf8_encode_utf8, encode_utf8, encode_utf8_decode_utf8,
    encode_utf8_valid_utf8, is_ascii_chars_encode_utf8, valid_utf8,
};
use vstd::prelude::*;

verus! {

/// The type tag of the terminal record: the letters `IEND`.
pub const IEND_TAG: u32 = 0x4945_4e44;

/// The length of the signature that opens a container.
pub const SIGNATURE_LEN: usize = 8;

/// The width of a length, tag or checksum field of a record.
pub const FIELD_LEN: usize = 4;

/// The signature of a container, as the number whose bytes, least significant first, are
/// the eight bytes read from the stream.
#[derive(Debug, Clone, Copy)]
pub struct Header {
    /// The eight bytes as one number.
    pub header: u64,
}

/// One record of a container.
#[derive(Debug, Clone)]
pub struct Chunk {
    /// The length that the record declares for its payload.
    pub size: u32,
    /// The four bytes of the type tag as a number, most significant byte first.
    pub type_tag: u32,
    /// The payload.
    pub data: Vec<u8>,
    /// The checksum.
    pub crc: u32,
}

/// The cursor over a container: its signature, the record read or written last, and the
/// offset at which that record starts.
#[derive(Debug, Clone)]
pub struct MetaChunk {
    /// The signature.
    pub header: Header,
    /// The current record.
    pub chk: Chunk,
    /// The offset of the current record.
    pub offset: u64,
}

/// What a [`Chunk`] is to a contract.
pub struct Record {
    pub size: u32,
    pub type_tag: u32,
    pub data: Seq<u8>,
    pub crc: u32,
}

/// What a [`MetaChunk`] is to a contract.
pub struct Cursor {
    pub header: u64,
    pub chk: Record,
    pub offset: u64,
}

impl View for Chunk {
    type V = Record;

    open spec fn view(&self) -> Record {
        Record { size: self.size, type_tag: self.type_tag, data: self.data@, crc: self.crc }
    }
}

impl View for MetaChunk {
    type V = Cursor;

    open spec fn view(&self) -> Cursor {
        Cursor { header: self.header.header, chk: self.chk@, offset: self.offset }
    }
}

/// The record of a cursor that has read nothing yet.
pub open spec fn empty_record() -> Record {
    Record { size: 0, type_tag: 0, data: Seq::empty(), crc: 0 }
}

/// Whether `signature`, eight bytes, carries the letters `PNG` in its second to fourth
/// byte.
pub open spec fn signature_accepted(signature: Seq<u8>) -> bool {
    signature[1] == 0x50 && signature[2] == 0x4e && signature[3] == 0x47
}

/// The four bytes at the read position as a number, most significant byte first.
pub open spec fn field_at(s: StreamView) -> u32 {
    be_value(s.bytes[s.pos], s.bytes[s.pos + 1], s.bytes[s.pos + 2], s.bytes[s.pos + 3])
}

/// The length field read at the position of `s`: where four bytes are left, their value;
/// else the length that the cursor held before, `stale`.
pub open spec fn size_read(s: StreamView, stale: u32) -> u32 {
    if s.has(4) {
        field_at(s)
    } else {
        stale
    }
}

/// A tag or checksum field read at the position of `s`: where four bytes are left, their
/// value; else zero.
pub open spec fn field_read(s: StreamView) -> u32 {
    if s.has(4) {
        field_at(s)
    } else {
        0
    }
}

/// A payload of `len` bytes read at the position of `s`: where fewer are left, those.
pub open spec fn payload_read(s: StreamView, len: int) -> Seq<u8> {
    if s.has(len) {
        s.bytes.subrange(s.pos, s.pos + len)
    } else {
        s.remaining()
    }
}

/// The record read at the position of `s` by a cursor whose last length was `stale`:
/// length, tag, payload and checksum, one after the other, each read where the one before
/// it ended.
pub open spec fn record_read(s: StreamView, stale: u32) -> Record {
    let size = size_read(s, stale);
    let at_tag = s.after_read(4);
    let at_data = at_tag.after_read(4);
    let at_crc = at_data.after_read(size as int);
    Record {
        size,
        type_tag: field_read(at_tag),
        data: payload_read(at_data, size as int),
        crc: field_read(at_crc),
    }
}

/// Whether the record at the position of `s` is read whole: the stream holds each of its
/// four fields.
pub open spec fn record_whole(s: StreamView, stale: u32) -> bool {
    let at_tag = s.after_read(4);
    let at_data = at_tag.after_read(4);
    let at_crc = at_data.after_read(size_read(s, stale) as int);
    s.has(4) && at_tag.has(4) && at_data.has(size_read(s, stale) as int) && at_crc.has(4)
}

/// The stream after the record at the position of `s` was read.
pub open spec fn after_record(s: StreamView, stale: u32) -> StreamView {
    s.after_read(4).after_read(4).after_read(size_read(s, stale) as int).after_read(4)
}

/// Where a scan for the terminal record came to rest.
pub struct ScanEnd {
    /// The offset of the record read last.
    pub stop: int,
    /// The record read last.
    pub chk: Record,
    /// The read position after that record.
    pub pos: int,
}

/// The scan for the terminal record from the position of `s`, by a cursor whose last
/// length was `stale`: records are read one after the other until one carries the tag
/// `IEND`, or one was read at the end of the stream.
pub open spec fn scan_from(s: StreamView, stale: u32) -> ScanEnd
    decreases s.bytes.len() - s.pos,
{
    let rec = record_read(s, stale);
    if rec.type_tag == IEND_TAG || s.pos >= s.bytes.len() || s.pos < 0 {
        ScanEnd { stop: s.pos, chk: rec, pos: after_record(s, stale).pos }
    } else {
        scan_from(after_record(s, stale), rec.size)
    }
}

/// The scan for the terminal record by a cursor with the current record `chk`: where
/// nothing is left to read, no record is read and the scan rests at the read position.
pub open spec fn scan(s: StreamView, chk: Record) -> ScanEnd {
    if s.pos < s.bytes.len() {
        scan_from(s, chk.size)
    } else {
        ScanEnd { stop: s.pos, chk, pos: s.pos }
    }
}

/// The distance between the terminal record and the place before it at which a record is
/// embedded. The distance is one that has served, and follows from nothing else.
pub const AUTO_BACKOFF: usize = 11;

/// The offset that a scan gives for a record to embed: eleven bytes before where it
/// stopped. A scan that stopped before the eleventh byte gives none.
pub open spec fn backed_off(stop: int) -> Result<usize, SteganoError> {
    if stop >= AUTO_BACKOFF {
        Ok((stop - AUTO_BACKOFF) as usize)
    } else {
        Err(SteganoError::InvalidOffset)
    }
}

/// The offset for `requested`: itself, or for [`AUTO_OFFSET`] what a scan from the
/// position of `s` gives.
pub open spec fn resolved_offset(s: StreamView, chk: Record, requested: usize) -> Result<
    usize,
    SteganoError,
> {
    if is_auto(requested) {
        backed_off(scan(s, chk).stop)
    } else {
        Ok(requested)
    }
}

/// The cursor after a scan: it holds the record that the scan read last, and that record's
/// offset where it read one.
pub open spec fn scanned_cursor(s: StreamView, m: Cursor) -> Cursor {
    Cursor {
        header: m.header,
        chk: scan(s, m.chk).chk,
        offset: if s.pos < s.bytes.len() {
            scan(s, m.chk).stop as u64
        } else {
            m.offset
        },
    }
}

/// The cursor after the offset for `requested` was resolved.
pub open spec fn resolved_cursor(s: StreamView, m: Cursor, requested: usize) -> Cursor {
    if is_auto(requested) {
        scanned_cursor(s, m)
    } else {
        m
    }
}

/// A record in the narrow form in which it is embedded: one byte for the length of the
/// payload (its low eight bits), the tag, the payload, the checksum.
pub open spec fn marshalled(rec: Record) -> Seq<u8> {
    seq![(rec.data.len() % 0x100) as u8] + be_bytes(rec.type_tag) + rec.data + be_bytes(rec.crc)
}

/// How many bytes fewer than its offset an embedding copies from the stream before the
/// record: the signature, which is written from the cursor and read from the stream
/// before the embedding starts.
pub const EMBED_BACKOFF: usize = SIGNATURE_LEN;

/// How many bytes fewer than its offset an extraction copies from the stream before the
/// record: the signature, and eight bytes more.
pub const EXTRACT_BACKOFF: usize = SIGNATURE_LEN + 8;

/// How many bytes an extraction passes over after the copy, before it reads a record: of
/// the eight bytes that it has held back, all but the three that it reads as the upper
/// bytes of the length, whose last byte is the one byte of length of the embedded record.
pub const EXTRACT_SKIP: usize = 8 - (FIELD_LEN - 1);

/// The record that is embedded for `ciphertext` by a cursor with the current record `chk`:
/// it takes the tag of `chk`, and its checksum is continued from the checksum of `chk`.
pub open spec fn synthetic_record(chk: Record, ciphertext: Seq<u8>) -> Record {
    Record {
        size: (ciphertext.len() % 0x1_0000_0000) as u32,
        type_tag: chk.type_tag,
        data: ciphertext,
        crc: record_checksum(chk.crc, chk.type_tag, ciphertext),
    }
}

/// What an embedding comes to.
pub struct Spliced {
    /// The offset of the embedded record, or why there is none.
    pub result: Result<usize, SteganoError>,
    /// The cursor afterwards.
    pub cursor: Cursor,
    /// The bytes written.
    pub written: Seq<u8>,
    /// The read position afterwards.
    pub pos: int,
}

/// Embedding `payload` by the cursor `m` on the stream `s`.
///
/// The name of the cipher is resolved, then the offset. The offset has to leave room for
/// the signature, and the stream has to hold the bytes up to it. Then the signature of
/// the cursor is written, the bytes of the stream before the offset, the record in its
/// narrow form, and the rest of the stream. A failure writes nothing and leaves the read
/// position where it was.
#[verifier::opaque]
pub open spec fn splice(
    m: Cursor,
    s: StreamView,
    algorithm: Seq<u8>,
    key: Seq<u8>,
    payload: Seq<u8>,
    requested: usize,
) -> Spliced {
    let located = resolved_cursor(s, m, requested);
    match algorithm_named(algorithm) {
        None => Spliced {
            result: Err(SteganoError::UnsupportedAlgorithm),
            cursor: m,
            written: Seq::empty(),
            pos: s.pos,
        },
        Some(a) => match resolved_offset(s, m.chk, requested) {
            Err(e) => Spliced { result: Err(e), cursor: located, written: Seq::empty(), pos: s.pos },
            Ok(offset) => if offset < EMBED_BACKOFF {
                Spliced {
                    result: Err(SteganoError::InvalidOffset),
                    cursor: located,
                    written: Seq::empty(),
                    pos: s.pos,
                }
            } else if !s.has(offset - EMBED_BACKOFF) {
                Spliced {
                    result: Err(SteganoError::ShortRead),
                    cursor: located,
                    written: Seq::empty(),
                    pos: s.pos,
                }
            } else {
                let rec = synthetic_record(located.chk, ciphertext(a, key, payload));
                let cut = s.pos + offset - EMBED_BACKOFF;
                Spliced {
                    result: Ok(offset),
                    cursor: Cursor { chk: rec, ..located },
                    written: le_bytes(m.header) + s.bytes.subrange(s.pos, cut) + marshalled(rec)
                        + s.bytes.subrange(cut, s.bytes.len() as int),
                    pos: s.bytes.len() as int,
                }
            },
        },
    }
}

/// The stream at the place where an extraction at `offset` reads its record.
pub open spec fn record_place(s: StreamView, offset: usize) -> StreamView {
    s.after_read(offset - EXTRACT_BACKOFF).after_read(EXTRACT_SKIP as int)
}

/// The record that an extraction reads, where it comes to read one.
pub open spec fn extracted_record(m: Cursor, s: StreamView, requested: usize) -> Option<Record> {
    match resolved_offset(s, m.chk, requested) {
        Err(e) => None,
        Ok(offset) => if offset < EXTRACT_BACKOFF || !s.has(offset - EXTRACT_BACKOFF) {
            None
        } else {
            Some(
                record_read(record_place(s, offset), resolved_cursor(s, m, requested).chk.size),
            )
        },
    }
}

/// Whether `key` serves an extraction by the cursor `m` from the stream `s`: where the
/// cipher is XOR and the extraction comes to read a record that holds a payload, the key
/// is not empty.
pub open spec fn key_serves(
    m: Cursor,
    s: StreamView,
    algorithm: Seq<u8>,
    key: Seq<u8>,
    requested: usize,
) -> bool {
    algorithm_named(algorithm) matches Some(a) ==> (extracted_record(m, s, requested) matches Some(
        rec,
    ) ==> key_fits(a, key, rec.data.len()))
}

/// What an extraction comes to.
pub struct Extracted {
    /// The payload recovered, or why there is none.
    pub result: Result<Seq<u8>, SteganoError>,
    /// The cursor afterwards.
    pub cursor: Cursor,
    /// The bytes written.
    pub written: Seq<u8>,
    /// The read position afterwards.
    pub pos: int,
}

/// Extracting a payload by the cursor `m` from the stream `s`.
///
/// The name of the cipher is resolved, then the offset. The offset has to leave room for
/// sixteen bytes, and the stream has to hold the bytes up to them. Then the bytes of the
/// stream up to sixteen before the offset are passed on, five bytes are passed over, a
/// record is read, as many bytes as its payload has are passed over, and the rest of the
/// stream is passed on. What is written is the signature of the cursor and what was passed
/// on. The payload is decrypted and the zeros at its end are removed. A failure writes
/// nothing and leaves the read position where it was.
#[verifier::opaque]
pub open spec fn extract(
    m: Cursor,
    s: StreamView,
    algorithm: Seq<u8>,
    key: Seq<u8>,
    requested: usize,
) -> Extracted {
    let located = resolved_cursor(s, m, requested);
    match algorithm_named(algorithm) {
        None => Extracted {
            result: Err(SteganoError::UnsupportedAlgorithm),
            cursor: m,
            written: Seq::empty(),
            pos: s.pos,
        },
        Some(a) => match resolved_offset(s, m.chk, requested) {
            Err(e) => Extracted {
                result: Err(e),
                cursor: located,
                written: Seq::empty(),
                pos: s.pos,
            },
            Ok(offset) => if offset < EXTRACT_BACKOFF {
                Extracted {
                    result: Err(SteganoError::InvalidOffset),
                    cursor: located,
                    written: Seq::empty(),
                    pos: s.pos,
                }
            } else if !s.has(offset - EXTRACT_BACKOFF) {
                Extracted {
                    result: Err(SteganoError::ShortRead),
                    cursor: located,
                    written: Seq::empty(),
                    pos: s.pos,
                }
            } else {
                let place = record_place(s, offset);
                let rec = record_read(place, located.chk.size);
                let rest = after_record(place, located.chk.size).after_read(rec.data.len() as int);
                Extracted {
                    result: Ok(trimmed(plaintext(a, key, rec.data))),
                    cursor: Cursor { header: m.header, chk: rec, offset: place.pos as u64 },
                    written: le_bytes(m.header) + s.bytes.subrange(
                        s.pos,
                        s.pos + offset - EXTRACT_BACKOFF,
                    ) + rest.remaining(),
                    pos: s.bytes.len() as int,
                }
            },
        },
    }
}

/// The text that `String::from_utf8_lossy` makes of `bytes`.
pub uninterp spec fn utf8_lossy(bytes: Seq<u8>) -> Seq<char>;

/// Calls `String::from_utf8_lossy` and takes the text as a `String`. The contract names
/// the text and says of it what the documentation of std does: bytes that are valid UTF-8
/// are decoded as they are, and any that are not leave a replacement character, U+FFFD.
#[verifier::external_body]
pub(crate) fn string_from_utf8_lossy(bytes: &[u8]) -> (text: String)
    ensures
        text@ == utf8_lossy(bytes@),
        valid_utf8(bytes@) ==> text@ == decode_utf8(bytes@),
        !valid_utf8(bytes@) ==> text@.contains('\u{fffd}'),
{
    String::from_utf8_lossy(bytes).into_owned()
}

/// The letters of the label of the terminal record.
pub open spec fn iend_label() -> Seq<char> {
    seq!['I', 'E', 'N', 'D']
}

/// The bytes of the tag `IEND` are the UTF-8 form of its four letters.
pub proof fn lemma_iend_bytes()
    ensures
        encode_utf8(iend_label()) == be_bytes(IEND_TAG),
{
    is_ascii_chars_encode_utf8(iend_label());
    assert(encode_utf8(iend_label()) =~= be_bytes(IEND_TAG));
}

/// One record as a walk over the container saw it.
#[derive(Debug)]
pub struct ChunkReport {
    /// The number of the record in the walk.
    pub number: usize,
    /// The offset at which the record starts.
    pub offset: u64,
    /// The record.
    pub chunk: Chunk,
    /// Whether the stream held the record whole.
    pub whole: bool,
}

/// What a [`ChunkReport`] is to a contract.
pub struct Report {
    pub number: int,
    pub offset: u64,
    pub chk: Record,
    pub whole: bool,
}

impl View for ChunkReport {
    type V = Report;

    open spec fn view(&self) -> Report {
        Report {
            number: self.number as int,
            offset: self.offset,
            chk: self.chunk@,
            whole: self.whole,
        }
    }
}

/// Where a walk over the records came to rest.
pub struct Walked {
    /// The records read, in order.
    pub reports: Seq<Report>,
    /// The cursor afterwards.
    pub cursor: Cursor,
    /// The read position afterwards.
    pub pos: int,
}

/// A walk of at most `left` records from the position of `s`, the first of them numbered
/// `number`: it ends before a read where the current record carries the tag `IEND`. Each
/// record is reported with the offset that the cursor held when it was read and with
/// whether the stream held it whole, and the cursor then takes the read position as its
/// offset.
pub open spec fn walked(s: StreamView, m: Cursor, number: int, left: nat) -> Walked
    decreases left,
{
    if left == 0 || m.chk.type_tag == IEND_TAG {
        Walked { reports: Seq::empty(), cursor: m, pos: s.pos }
    } else {
        let rec = record_read(s, m.chk.size);
        let after = after_record(s, m.chk.size);
        let rest = walked(
            after,
            Cursor { header: m.header, chk: rec, offset: after.pos as u64 },
            number + 1,
            (left - 1) as nat,
        );
        Walked {
            reports: seq![
                Report { number, offset: m.offset, chk: rec, whole: record_whole(s, m.chk.size) },
            ] + rest.reports,
            cursor: rest.cursor,
            pos: rest.pos,
        }
    }
}

/// The most records that the walk of `c` reads: as many as `c` allows, and no more than
/// there are numbers from its start to its end.
pub open spec fn walk_limit(c: &ShowMetaCmd) -> nat {
    let span = if c.end_chunk >= c.start_chunk {
        c.end_chunk - c.start_chunk
    } else {
        0
    };
    if c.nb_chunks <= span {
        c.nb_chunks as nat
    } else {
        span as nat
    }
}

/// The cursor as the walk of `c` starts: a start beyond the signature becomes its offset.
pub open spec fn walk_start(m: Cursor, c: &ShowMetaCmd) -> Cursor {
    if c.start_chunk > SIGNATURE_LEN {
        Cursor { offset: c.start_chunk as u64, ..m }
    } else {
        m
    }
}

/// The views of `reports`, in order.
pub open spec fn report_views(reports: Seq<ChunkReport>) -> Seq<Report> {
    reports.map_values(|x: ChunkReport| x@)
}

fn copy_bytes(bytes: &Vec<u8>) -> (out: Vec<u8>)
    ensures
        out@ == bytes@,
{
    let mut out: Vec<u8> = Vec::with_capacity(bytes.len());
    out.extend_from_slice(bytes.as_slice());
    out
}

fn read_field(r: &mut ByteReader) -> (got: Option<u32>)
    ensures
        final(r)@ == old(r)@.after_read(4),
        got is Some <==> old(r)@.has(4),
        got matches Some(v) ==> v == field_at(old(r)@),
{
    match r.read_exact(FIELD_LEN) {
        Some(bytes) => Some(u32_from_be_bytes(bytes.as_slice(), 0)),
        None => None,
    }
}

impl Header {
    /// Writes the signature: its eight bytes, as they were read.
    pub fn write(&self, w: &mut Vec<u8>)
        ensures
            final(w)@ == old(w)@ + le_bytes(self.header),
    {
        let signature: [u8; 8] = u64_to_u8_array(self.header);
        w.extend_from_slice(signature.as_slice());
    }
}

impl MetaChunk {
    /// Opens a container: reads its signature, eight bytes, and accepts it where the second
    /// to fourth byte spell `PNG`. The cursor then holds the signature and an empty record,
    /// and its offset is the read position after the signature.
    ///
    /// Fails with `MalformedContainer` where fewer than eight bytes are left or the letters
    /// are not there. Either way the read has consumed the eight bytes, or the rest of the
    /// stream.
    pub fn new(r: &mut ByteReader) -> (opened: Result<MetaChunk, SteganoError>)
        ensures
            final(r)@ == old(r)@.after_read(8),
            opened is Ok <==> old(r)@.has(8) && signature_accepted(old(r)@.remaining()),
            opened matches Ok(m) ==> m@ == (Cursor {
                header: le_value(old(r)@.remaining()),
                chk: empty_record(),
                offset: (old(r)@.pos + 8) as u64,
            }),
            opened matches Err(e) ==> e == SteganoError::MalformedContainer,
    {
        let ghost s = r@;
        match r.read_exact(SIGNATURE_LEN) {
            Some(b) => {
                assert(forall|i: int| 0 <= i < 8 ==> b@[i] == s.remaining()[i]);
                if b[1] != 0x50 || b[2] != 0x4e || b[3] != 0x47 {
                    return Err(SteganoError::MalformedContainer);
                }
                let mut header: u64 = b[7] as u64;
                header = b[6] as u64 + 0x100 * header;
                header = b[5] as u64 + 0x100 * header;
                header = b[4] as u64 + 0x100 * header;
                header = b[3] as u64 + 0x100 * header;
                header = b[2] as u64 + 0x100 * header;
                header = b[1] as u64 + 0x100 * header;
                header = b[0] as u64 + 0x100 * header;
                let offset: u64 = r.position() as u64;
                Ok(
                    MetaChunk {
                        header: Header { header },
                        chk: Chunk { size: 0, type_tag: 0, data: Vec::new(), crc: 0 },
                        offset,
                    },
                )
            },
            None => Err(SteganoError::MalformedContainer),
        }
    }

    /// Takes the read position of `r` as the offset of the current record, and returns it.
    pub fn get_offset(&mut self, r: &ByteReader) -> (offset: u64)
        ensures
            offset == r@.pos,
            final(self)@ == (Cursor { offset, ..old(self)@ }),
    {
        let offset: u64 = r.position() as u64;
        self.offset = offset;
        offset
    }

    /// Reads the length field of a record, and tells whether the stream held it. Where
    /// fewer than four bytes are left, the length stays as it was and the rest of the
    /// stream is consumed.
    pub fn read_chunk_size(&mut self, r: &mut ByteReader) -> (whole: bool)
        ensures
            whole == old(r)@.has(4),
            final(r)@ == old(r)@.after_read(4),
            final(self)@ == (Cursor {
                chk: Record { size: size_read(old(r)@, old(self)@.chk.size), ..old(self)@.chk },
                ..old(self)@
            }),
    {
        match read_field(r) {
            Some(v) => {
                self.chk.size = v;
                true
            },
            None => false,
        }
    }

    /// Reads the type tag of a record, and tells whether the stream held it. Where fewer
    /// than four bytes are left, the tag is zero and the rest of the stream is consumed.
    pub fn read_chunk_type(&mut self, r: &mut ByteReader) -> (whole: bool)
        ensures
            whole == old(r)@.has(4),
            final(r)@ == old(r)@.after_read(4),
            final(self)@ == (Cursor {
                chk: Record { type_tag: field_read(old(r)@), ..old(self)@.chk },
                ..old(self)@
            }),
    {
        match read_field(r) {
            Some(v) => {
                self.chk.type_tag = v;
                true
            },
            None => {
                self.chk.type_tag = 0;
                false
            },
        }
    }

    /// Reads a payload of `len` bytes, and tells whether the stream held it. Where fewer
    /// are left, the payload is what is left, and the declared length is not corrected.
    pub fn read_chunk_bytes(&mut self, r: &mut ByteReader, len: u32) -> (whole: bool)
        ensures
            whole == old(r)@.has(len as int),
            final(r)@ == old(r)@.after_read(len as int),
            final(self)@ == (Cursor {
                chk: Record { data: payload_read(old(r)@, len as int), ..old(self)@.chk },
                ..old(self)@
            }),
    {
        let ghost s = r@;
        let p: usize = r.position();
        match r.read_exact(len as usize) {
            Some(bytes) => {
                self.chk.data = bytes;
                true
            },
            None => {
                r.seek(p);
                self.chk.data = r.read_to_end();
                assert(r@ == s.after_read(len as int));
                false
            },
        }
    }

    /// Reads the checksum of a record, and tells whether the stream held it. Where fewer
    /// than four bytes are left, the checksum is zero and the rest of the stream is consumed.
    pub fn read_chunk_crc(&mut self, r: &mut ByteReader) -> (whole: bool)
        ensures
            whole == old(r)@.has(4),
            final(r)@ == old(r)@.after_read(4),
            final(self)@ == (Cursor {
                chk: Record { crc: field_read(old(r)@), ..old(self)@.chk },
                ..old(self)@
            }),
    {
        match read_field(r) {
            Some(v) => {
                self.chk.crc = v;
                true
            },
            None => {
                self.chk.crc = 0;
                false
            },
        }
    }

    /// Reads one record at the read position into the cursor: length, tag, payload,
    /// checksum. A field that the stream is too short for does not stop the read; the
    /// result tells whether there was one.
    pub fn read_chunk(&mut self, r: &mut ByteReader) -> (whole: bool)
        ensures
            whole == record_whole(old(r)@, old(self)@.chk.size),
            final(r)@ == after_record(old(r)@, old(self)@.chk.size),
            final(self)@ == (Cursor {
                chk: record_read(old(r)@, old(self)@.chk.size),
                ..old(self)@
            }),
    {
        let size: bool = self.read_chunk_size(r);
        let tag: bool = self.read_chunk_type(r);
        let len: u32 = self.chk.size;
        let data: bool = self.read_chunk_bytes(r, len);
        let crc: bool = self.read_chunk_crc(r);
        size && tag && data && crc
    }

    /// The type tag of the current record as text: its four bytes, read as UTF-8, with a
    /// replacement character for what is not.
    ///
    /// The text is `IEND` for the tag of the terminal record and for no other.
    pub fn chunk_type_to_string(&self) -> (label: String)
        ensures
            label@ == utf8_lossy(be_bytes(self@.chk.type_tag)),
            label@ == iend_label() <==> self@.chk.type_tag == IEND_TAG,
    {
        let tag: [u8; 4] = u32_to_be_bytes(self.chk.type_tag);
        let label = string_from_utf8_lossy(tag.as_slice());
        proof {
            let bytes = be_bytes(self.chk.type_tag);
            lemma_iend_bytes();
            encode_utf8_valid_utf8(iend_label());
            encode_utf8_decode_utf8(iend_label());
            if label@ == iend_label() {
                assert forall|i: int| 0 <= i < 4 implies iend_label()[i] != '\u{fffd}' by {}
                assert(valid_utf8(bytes));
                decode_utf8_encode_utf8(bytes);
                crate::checksum::lemma_be_bytes_value(self.chk.type_tag);
                crate::checksum::lemma_be_bytes_value(IEND_TAG);
            }
        }
        label
    }

    /// Walks the records of the stream from the position that `c` gives as its start, and
    /// reports each with its number and offset.
    ///
    /// The walk reads at most as many records as `c` allows and as there are numbers from
    /// its start to its end, and it ends before a read where the current record carries
    /// the tag `IEND`. A stream that ends early does not stop it: see
    /// [`read_chunk`](Self::read_chunk).
    pub fn process_image(&mut self, r: &mut ByteReader, c: &ShowMetaCmd) -> (reports: Vec<ChunkReport>)
        ensures
            report_views(reports@) == walked(
                old(r)@.at(c.start_chunk as int),
                walk_start(old(self)@, c),
                c.start_chunk as int,
                walk_limit(c),
            ).reports,
            final(self)@ == walked(
                old(r)@.at(c.start_chunk as int),
                walk_start(old(self)@, c),
                c.start_chunk as int,
                walk_limit(c),
            ).cursor,
            final(r)@ == old(r)@.at(
                walked(
                    old(r)@.at(c.start_chunk as int),
                    walk_start(old(self)@, c),
                    c.start_chunk as int,
                    walk_limit(c),
                ).pos,
            ),
    {
        r.seek(c.start_chunk);
        if c.start_chunk > SIGNATURE_LEN {
            self.offset = c.start_chunk as u64;
        }
        let ghost s0 = r@;
        let ghost m0 = self@;
        let ghost total = walked(s0, m0, c.start_chunk as int, walk_limit(c));
        let span: usize = if c.end_chunk >= c.start_chunk {
            c.end_chunk - c.start_chunk
        } else {
            0
        };
        let limit: usize = if c.nb_chunks <= span {
            c.nb_chunks
        } else {
            span
        };
        let mut reports: Vec<ChunkReport> = Vec::new();
        let mut i: usize = 0;
        assert(report_views(reports@) =~= Seq::<Report>::empty());
        while i < limit && !self.is_terminal()
            invariant
                i <= limit,
                limit == walk_limit(c),
                limit <= span,
                c.start_chunk + span <= usize::MAX,
                r@.bytes == s0.bytes,
                0 <= r@.pos <= r@.bytes.len(),
                total == walked(s0, m0, c.start_chunk as int, limit as nat),
                total.reports == report_views(reports@) + walked(
                    r@,
                    self@,
                    c.start_chunk + i,
                    (limit - i) as nat,
                ).reports,
                total.cursor == walked(r@, self@, c.start_chunk + i, (limit - i) as nat).cursor,
                total.pos == walked(r@, self@, c.start_chunk + i, (limit - i) as nat).pos,
            decreases limit - i,
        {
            let ghost before = report_views(reports@);
            let ghost here = walked(r@, self@, c.start_chunk + i, (limit - i) as nat);
            let offset: u64 = self.offset;
            let whole: bool = self.read_chunk(r);
            let chunk = Chunk {
                size: self.chk.size,
                type_tag: self.chk.type_tag,
                data: copy_bytes(&self.chk.data),
                crc: self.chk.crc,
            };
            let report = ChunkReport { number: c.start_chunk + i, offset, chunk, whole };
            reports.push(report);
            self.get_offset(r);
            proof {
                let left = walked(r@, self@, c.start_chunk + i + 1, (limit - i - 1) as nat);
                assert(here.reports == seq![report@] + left.reports);
                assert(report_views(reports@) =~= before + seq![report@]);
                assert(total.reports =~= report_views(reports@) + left.reports);
            }
            i += 1;
        }
        proof {
            let rest = walked(r@, self@, c.start_chunk + i, (limit - i) as nat);
            assert(rest.reports =~= Seq::<Report>::empty());
            assert(total.reports =~= report_views(reports@));
        }
        reports
    }

    /// Whether the current record carries the tag of the terminal record.
    pub fn is_terminal(&self) -> (terminal: bool)
        ensures
            terminal == (self@.chk.type_tag == IEND_TAG),
    {
        self.chk.type_tag == IEND_TAG
    }

    /// The current record in the narrow form in which it is embedded.
    pub fn marshal_data(&self) -> (bytes: Vec<u8>)
        ensures
            bytes@ == marshalled(self@.chk),
    {
        let mut bytes: Vec<u8> = Vec::new();
        bytes.push((self.chk.data.len() % 0x100) as u8);
        let tag: [u8; 4] = u32_to_be_bytes(self.chk.type_tag);
        bytes.extend_from_slice(tag.as_slice());
        bytes.extend_from_slice(self.chk.data.as_slice());
        let crc: [u8; 4] = u32_to_be_bytes(self.chk.crc);
        bytes.extend_from_slice(crc.as_slice());
        assert(bytes@ =~= marshalled(self@.chk));
        bytes
    }

    /// The length of the stream. The read position stays where it is.
    pub fn find_file_length(&mut self, r: &ByteReader) -> (len: u64)
        ensures
            len == r@.bytes.len(),
            final(self)@ == old(self)@,
    {
        r.len() as u64
    }

    /// Scans for the terminal record from the read position and gives the offset eleven
    /// bytes before it.
    ///
    /// Each record read becomes the current record, with its offset. The scan stops at the
    /// first record with the tag `IEND`; where there is none, it stops after a read at the
    /// end of the stream and the offset is counted from there. Fails with `InvalidOffset`
    /// where the scan stopped before the eleventh byte.
    pub fn find_iend_offset(&mut self, r: &mut ByteReader) -> (found: Result<usize, SteganoError>)
        ensures
            found == backed_off(scan(old(r)@, old(self)@.chk).stop),
            final(self)@ == scanned_cursor(old(r)@, old(self)@),
            final(r)@ == (StreamView {
                bytes: old(r)@.bytes,
                pos: scan(old(r)@, old(self)@.chk).pos,
            }),
    {
        let ghost start = r@;
        let ghost stale = self.chk.size;
        let len: usize = r.len();
        let mut candidate: usize = r.position();
        if candidate < len {
            loop
                invariant_except_break
                    r@.bytes == start.bytes,
                    len == start.bytes.len(),
                    0 <= r@.pos <= len,
                    scan_from(r@, self.chk.size) == scan_from(start, stale),
                    self@.header == old(self)@.header,
                ensures
                    r@.bytes == start.bytes,
                    len == start.bytes.len(),
                    self@.header == old(self)@.header,
                    self@.offset == candidate,
                    scan_from(start, stale) == (ScanEnd {
                        stop: candidate as int,
                        chk: self@.chk,
                        pos: r@.pos,
                    }),
                decreases len - r@.pos,
            {
                candidate = r.position();
                self.get_offset(r);
                self.read_chunk(r);
                if self.is_terminal() || candidate >= len {
                    break ;
                }
            }
        }
        if candidate >= AUTO_BACKOFF {
            Ok(candidate - AUTO_BACKOFF)
        } else {
            Err(SteganoError::InvalidOffset)
        }
    }

    /// Resolves the offset at which a record is embedded: `requested` as it is, or for
    /// [`AUTO_OFFSET`](crate::cli::AUTO_OFFSET) what [`find_iend_offset`](Self::find_iend_offset)
    /// finds. The read position is afterwards where it was.
    pub fn resolve_offset(&mut self, r: &mut ByteReader, requested: usize) -> (found: Result<
        usize,
        SteganoError,
    >)
        ensures
            found == resolved_offset(old(r)@, old(self)@.chk, requested),
            final(self)@ == resolved_cursor(old(r)@, old(self)@, requested),
            final(r)@ == old(r)@,
    {
        if offset_is_auto(requested) {
            let p: usize = r.position();
            let found = self.find_iend_offset(r);
            r.seek(p);
            found
        } else {
            Ok(requested)
        }
    }

    /// Embeds the payload of `c` in a copy of the stream: writes to `w` the signature, the
    /// bytes of `r` before the offset, a record that holds the encrypted payload, and the
    /// rest of `r`.
    ///
    /// The record takes its tag from the current record, and its checksum is continued from
    /// the checksum of the current record; it becomes the current record. The offset of `c`
    /// is resolved first, so with [`AUTO_OFFSET`](crate::cli::AUTO_OFFSET) the current record
    /// is the one that the scan read last.
    ///
    /// Fails with `UnsupportedAlgorithm` where `c` names no cipher, with `InvalidOffset`
    /// where the offset is less than eight or a scan gives none, and with `ShortRead` where
    /// the stream ends before the offset. A failure writes nothing to `w`.
    pub fn write_encrypted_data(&mut self, r: &mut ByteReader, c: &EncryptCmd, w: &mut Vec<u8>) -> (done:
        Result<usize, SteganoError>)
        requires
            algorithm_named(encode_utf8(c.algorithm@)) matches Some(a) ==> key_fits(
                a,
                encode_utf8(c.key@),
                encode_utf8(c.payload@).len(),
            ),
        ensures
            done == spliced_by(old(self)@, old(r)@, c).result,
            final(self)@ == spliced_by(old(self)@, old(r)@, c).cursor,
            final(w)@ == old(w)@ + spliced_by(old(self)@, old(r)@, c).written,
            final(r)@ == old(r)@.at(spliced_by(old(self)@, old(r)@, c).pos),
    {
        proof {
            reveal(splice);
        }
        let start: usize = r.position();
        let len: usize = r.len();
        assert(w@ =~= old(w)@ + Seq::<u8>::empty());
        let algorithm = match Algorithm::from_name(c.algorithm.as_str()) {
            Some(a) => a,
            None => {
                return Err(SteganoError::UnsupportedAlgorithm);
            },
        };
        let offset: usize = match self.resolve_offset(r, c.offset) {
            Ok(offset) => offset,
            Err(e) => {
                return Err(e);
            },
        };
        if offset < EMBED_BACKOFF {
            return Err(SteganoError::InvalidOffset);
        }
        let before: usize = offset - EMBED_BACKOFF;
        if before > len - start {
            return Err(SteganoError::ShortRead);
        }
        self.seal(encrypt(algorithm, c.key.as_str(), c.payload.as_str()));
        self.write_around(r, before, w);
        Ok(offset)
    }

    /// Makes the record that is embedded for `encrypted` the current record.
    fn seal(&mut self, encrypted: Vec<u8>)
        ensures
            final(self)@ == (Cursor {
                chk: synthetic_record(old(self)@.chk, encrypted@),
                ..old(self)@
            }),
    {
        let crc: u32 = checksum(self.chk.crc, self.chk.type_tag, encrypted.as_slice());
        self.chk.size = (encrypted.len() as u64 % 0x1_0000_0000) as u32;
        self.chk.data = encrypted;
        self.chk.crc = crc;
    }

    /// Writes the signature, the next `before` bytes of the stream, the current record in
    /// its narrow form, and the rest of the stream.
    fn write_around(&self, r: &mut ByteReader, before: usize, w: &mut Vec<u8>)
        requires
            old(r)@.has(before as int),
        ensures
            final(w)@ == old(w)@ + (le_bytes(self@.header) + old(r)@.bytes.subrange(
                old(r)@.pos,
                old(r)@.pos + before,
            ) + marshalled(self@.chk) + old(r)@.bytes.subrange(
                old(r)@.pos + before,
                old(r)@.bytes.len() as int,
            )),
            final(r)@ == old(r)@.at(old(r)@.bytes.len() as int),
    {
        self.header.write(w);
        match r.read_exact(before) {
            Some(prefix) => {
                w.extend_from_slice(prefix.as_slice());
            },
            None => {},
        }
        let record: Vec<u8> = self.marshal_data();
        w.extend_from_slice(record.as_slice());
        let rest: Vec<u8> = r.read_to_end();
        w.extend_from_slice(rest.as_slice());
        assert(w@ =~= old(w)@ + (le_bytes(self@.header) + old(r)@.bytes.subrange(
            old(r)@.pos,
            old(r)@.pos + before,
        ) + marshalled(self@.chk) + old(r)@.bytes.subrange(
            old(r)@.pos + before,
            old(r)@.bytes.len() as int,
        )));
    }

    /// Tells whether the key of `c` serves the extraction that `c` asks for: see
    /// [`key_serves`]. The cursor and the read position are afterwards as they were.
    ///
    /// A key that is not empty serves, and so does any key under the block cipher. For an
    /// empty key under XOR the record is looked at as the extraction would read it.
    pub fn key_is_enough(&mut self, r: &mut ByteReader, c: &DecryptCmd) -> (enough: bool)
        ensures
            enough == key_serves(
                old(self)@,
                old(r)@,
                encode_utf8(c.algorithm@),
                encode_utf8(c.key@),
                c.offset,
            ),
            final(self)@ == old(self)@,
            final(r)@ == old(r)@,
    {
        match Algorithm::from_name(c.algorithm.as_str()) {
            Some(Algorithm::Xor) => {
                if c.key.as_str().as_bytes().len() > 0 {
                    return true;
                }
                let held = Chunk {
                    size: self.chk.size,
                    type_tag: self.chk.type_tag,
                    data: copy_bytes(&self.chk.data),
                    crc: self.chk.crc,
                };
                let held_offset: u64 = self.offset;
                let start: usize = r.position();
                let len: usize = r.len();
                let enough: bool = match self.resolve_offset(r, c.offset) {
                    Err(e) => true,
                    Ok(offset) => {
                        if offset < EXTRACT_BACKOFF || offset - EXTRACT_BACKOFF > len - start {
                            true
                        } else {
                            r.skip(offset - EXTRACT_BACKOFF);
                            r.skip(EXTRACT_SKIP);
                            self.read_chunk(r);
                            self.chk.data.len() == 0
                        }
                    },
                };
                r.seek(start);
                self.chk = held;
                self.offset = held_offset;
                enough
            },
            Some(Algorithm::Aes) => true,
            None => true,
        }
    }

    /// Recovers an embedded payload as [`write_decrypted_data`](Self::write_decrypted_data)
    /// does, where the key of `c` serves; where it does not, nothing is done and there is
    /// no result.
    pub fn try_write_decrypted_data(
        &mut self,
        r: &mut ByteReader,
        c: &DecryptCmd,
        w: &mut Vec<u8>,
    ) -> (done: Option<Result<Vec<u8>, SteganoError>>)
        ensures
            done is Some <==> key_serves(
                old(self)@,
                old(r)@,
                encode_utf8(c.algorithm@),
                encode_utf8(c.key@),
                c.offset,
            ),
            done is None ==> final(self)@ == old(self)@ && final(r)@ == old(r)@ && final(w)@
                == old(w)@,
            done matches Some(Ok(p)) ==> extracted_by(old(self)@, old(r)@, c).result == Ok::<
                Seq<u8>,
                SteganoError,
            >(p@),
            done matches Some(Err(e)) ==> extracted_by(old(self)@, old(r)@, c).result == Err::<
                Seq<u8>,
                SteganoError,
            >(e),
            done is Some ==> final(self)@ == extracted_by(old(self)@, old(r)@, c).cursor,
            done is Some ==> final(w)@ == old(w)@ + extracted_by(old(self)@, old(r)@, c).written,
            done is Some ==> final(r)@ == old(r)@.at(extracted_by(old(self)@, old(r)@, c).pos),
            done matches Some(Ok(p)) ==> forall|a: Algorithm, payload: Seq<u8>|
                algorithm_named(encode_utf8(c.algorithm@)) == Some(a) && final(self)@.chk.data
                    == #[trigger] ciphertext(a, encode_utf8(c.key@), payload) ==> p@ == trimmed(
                    carried(a, payload),
                ) && (survives(payload) ==> p@ == payload),
    {
        if self.key_is_enough(r, c) {
            Some(self.write_decrypted_data(r, c, w))
        } else {
            None
        }
    }

    /// Recovers an embedded payload and writes to `w` a copy of the stream without its
    /// record: the signature, the bytes of `r` up to sixteen before the offset, and what
    /// follows the record and as many bytes after it as its payload has.
    ///
    /// The record is read three bytes before the offset, so that the byte at the offset is
    /// the last of its length field. It becomes the current record. The payload is
    /// decrypted with the cipher of `c`, and the zeros at its end are removed. Where the
    /// payload of the record is the ciphertext of some payload under the same cipher and
    /// key, the result is what the ciphertext carries of it, without the zeros at its end:
    /// the payload itself, unless it ends in a zero.
    ///
    /// Fails with `UnsupportedAlgorithm` where `c` names no cipher, with `InvalidOffset`
    /// where the offset is less than sixteen or a scan gives none, and with `ShortRead`
    /// where the stream ends before the copy does. A failure writes nothing to `w`.
    pub fn write_decrypted_data(&mut self, r: &mut ByteReader, c: &DecryptCmd, w: &mut Vec<u8>) -> (done:
        Result<Vec<u8>, SteganoError>)
        requires
            key_serves(
                old(self)@,
                old(r)@,
                encode_utf8(c.algorithm@),
                encode_utf8(c.key@),
                c.offset,
            ),
        ensures
            done matches Ok(p) ==> extracted_by(old(self)@, old(r)@, c).result == Ok::<
                Seq<u8>,
                SteganoError,
            >(p@),
            done matches Err(e) ==> extracted_by(old(self)@, old(r)@, c).result == Err::<
                Seq<u8>,
                SteganoError,
            >(e),
            final(self)@ == extracted_by(old(self)@, old(r)@, c).cursor,
            final(w)@ == old(w)@ + extracted_by(old(self)@, old(r)@, c).written,
            final(r)@ == old(r)@.at(extracted_by(old(self)@, old(r)@, c).pos),
            done matches Ok(p) ==> forall|a: Algorithm, payload: Seq<u8>|
                algorithm_named(encode_utf8(c.algorithm@)) == Some(a) && final(self)@.chk.data
                    == #[trigger] ciphertext(a, encode_utf8(c.key@), payload) ==> p@ == trimmed(
                    carried(a, payload),
                ) && (survives(payload) ==> p@ == payload),
    {
        proof {
            reveal(extract);
        }
        let start: usize = r.position();
        let len: usize = r.len();
        assert(w@ =~= old(w)@ + Seq::<u8>::empty());
        let algorithm = match Algorithm::from_name(c.algorithm.as_str()) {
            Some(a) => a,
            None => {
                return Err(SteganoError::UnsupportedAlgorithm);
            },
        };
        let offset: usize = match self.resolve_offset(r, c.offset) {
            Ok(offset) => offset,
            Err(e) => {
                return Err(e);
            },
        };
        if offset < EXTRACT_BACKOFF {
            return Err(SteganoError::InvalidOffset);
        }
        let before: usize = offset - EXTRACT_BACKOFF;
        if before > len - start {
            return Err(SteganoError::ShortRead);
        }
        self.cut_out(r, before, w);
        let decrypted: Vec<u8> = decrypt(algorithm, c.key.as_str(), self.chk.data.as_slice());
        let recovered: Vec<u8> = trim_trailing_zeros(decrypted);
        proof {
            assert forall|payload: Seq<u8>|
                self@.chk.data == #[trigger] ciphertext(
                    algorithm,
                    encode_utf8(c.key@),
                    payload,
                ) && survives(payload) implies recovered@ == payload by {
                lemma_survivor_comes_back(algorithm, payload);
            }
        }
        Ok(recovered)
    }

    /// Writes the signature and the next `before` bytes of the stream, passes over five
    /// bytes, reads a record, passes over as many bytes as its payload has, and writes the
    /// rest of the stream.
    fn cut_out(&mut self, r: &mut ByteReader, before: usize, w: &mut Vec<u8>)
        requires
            old(r)@.has(before as int),
        ensures
            final(self)@ == (Cursor {
                header: old(self)@.header,
                chk: record_read(
                    old(r)@.after_read(before as int).after_read(EXTRACT_SKIP as int),
                    old(self)@.chk.size,
                ),
                offset: old(r)@.after_read(before as int).after_read(EXTRACT_SKIP as int).pos as u64,
            }),
            final(w)@ == old(w)@ + (le_bytes(old(self)@.header) + old(r)@.bytes.subrange(
                old(r)@.pos,
                old(r)@.pos + before,
            ) + after_record(
                old(r)@.after_read(before as int).after_read(EXTRACT_SKIP as int),
                old(self)@.chk.size,
            ).after_read(final(self)@.chk.data.len() as int).remaining()),
            final(r)@ == old(r)@.at(old(r)@.bytes.len() as int),
    {
        self.header.write(w);
        match r.read_exact(before) {
            Some(prefix) => {
                w.extend_from_slice(prefix.as_slice());
            },
            None => {},
        }
        r.skip(EXTRACT_SKIP);
        self.get_offset(r);
        self.read_chunk(r);
        r.skip(self.chk.data.len());
        let rest: Vec<u8> = r.read_to_end();
        w.extend_from_slice(rest.as_slice());
        assert(w@ =~= old(w)@ + (le_bytes(old(self)@.header) + old(r)@.bytes.subrange(
            old(r)@.pos,
            old(r)@.pos + before,
        ) + after_record(
            old(r)@.after_read(before as int).after_read(EXTRACT_SKIP as int),
            old(self)@.chk.size,
        ).after_read(self@.chk.data.len() as int).remaining()));
    }
}

/// Embedding the payload of `c`: [`splice`] on what `c` holds.
pub open spec fn spliced_by(m: Cursor, s: StreamView, c: &EncryptCmd) -> Spliced {
    splice(
        m,
        s,
        encode_utf8(c.algorithm@),
        encode_utf8(c.key@),
        encode_utf8(c.payload@),
        c.offset,
    )
}

/// Extracting a payload as `c` asks: [`extract`] on what `c` holds.
pub open spec fn extracted_by(m: Cursor, s: StreamView, c: &DecryptCmd) -> Extracted {
    extract(m, s, encode_utf8(c.algorithm@), encode_utf8(c.key@), c.offset)
}

/// The scan for the terminal record does not depend on the length that the cursor held
/// before: it stops at the same offset, and leaves the read position at the same place.
pub proof fn lemma_scan_ignores_stale_length(s: StreamView, a: u32, b: u32)
    requires
        0 <= s.pos <= s.bytes.len(),
    ensures
        scan_from(s, a).stop == scan_from(s, b).stop,
        scan_from(s, a).pos == scan_from(s, b).pos,
        scan_from(s, a).chk.type_tag == scan_from(s, b).chk.type_tag,
        scan_from(s, a).chk.crc == scan_from(s, b).chk.crc,
    decreases s.bytes.len() - s.pos,
{
    let ra = record_read(s, a);
    let rb = record_read(s, b);
    assert(after_record(s, a) == after_record(s, b));
    assert(ra.type_tag == rb.type_tag);
    assert(ra.crc == rb.crc);
    if !(ra.type_tag == IEND_TAG || s.pos >= s.bytes.len()) {
        lemma_scan_ignores_stale_length(after_record(s, a), ra.size, rb.size);
    }
}

/// Auto-offset stability: resolving an offset a second time, on the same stream at the
/// same read position, by the cursor that the first resolution left, gives the same
/// offset.
pub proof fn lemma_resolved_offset_stable(s: StreamView, m: Cursor, requested: usize)
    requires
        0 <= s.pos <= s.bytes.len(),
    ensures
        resolved_offset(s, resolved_cursor(s, m, requested).chk, requested) == resolved_offset(
            s,
            m.chk,
            requested,
        ),
{
    if is_auto(requested) && s.pos < s.bytes.len() {
        lemma_scan_ignores_stale_length(s, m.chk.size, scan(s, m.chk).chk.size);
    }
}

/// A scan comes to rest inside the stream, whether or not there is a terminal record: it
/// stops at a record with the tag `IEND`, or at the end of the stream.
pub proof fn lemma_scan_rests(s: StreamView, stale: u32)
    requires
        0 <= s.pos <= s.bytes.len(),
    ensures
        s.pos <= scan_from(s, stale).stop <= s.bytes.len(),
        scan_from(s, stale).chk.type_tag == IEND_TAG || scan_from(s, stale).stop == s.bytes.len(),
    decreases s.bytes.len() - s.pos,
{
    let rec = record_read(s, stale);
    if !(rec.type_tag == IEND_TAG || s.pos >= s.bytes.len()) {
        lemma_scan_rests(after_record(s, stale), rec.size);
    }
}

/// A walk reads no more records than it is allowed, whatever the stream holds.
pub proof fn lemma_walk_bounded(s: StreamView, m: Cursor, number: int, left: nat)
    ensures
        walked(s, m, number, left).reports.len() <= left,
    decreases left,
{
    if !(left == 0 || m.chk.type_tag == IEND_TAG) {
        let rec = record_read(s, m.chk.size);
        let after = after_record(s, m.chk.size);
        lemma_walk_bounded(
            after,
            Cursor { header: m.header, chk: rec, offset: after.pos as u64 },
            number + 1,
            (left - 1) as nat,
        );
    }
}

/// Reading a record moves the read position forward, or leaves it, and never past the
/// end of the stream.
pub proof fn lemma_record_advances(s: StreamView, stale: u32)
    requires
        0 <= s.pos <= s.bytes.len(),
    ensures
        s.pos <= after_record(s, stale).pos <= s.bytes.len(),
        after_record(s, stale).bytes == s.bytes,
{
}

/// The offsets of a walk never go back: for a cursor whose offset is not beyond the read
/// position, each record is reported at an offset that is no less than the offset of the
/// cursor and than the offset of any record before it.
pub proof fn lemma_walk_offsets_grow(s: StreamView, m: Cursor, number: int, left: nat)
    requires
        0 <= s.pos <= s.bytes.len() <= u64::MAX,
        m.offset <= s.pos,
    ensures
        forall|i: int|
            0 <= i < walked(s, m, number, left).reports.len() ==> m.offset <= (#[trigger] walked(
                s,
                m,
                number,
                left,
            ).reports[i]).offset,
        forall|i: int, j: int|
            0 <= i <= j < walked(s, m, number, left).reports.len() ==> (#[trigger] walked(
                s,
                m,
                number,
                left,
            ).reports[i]).offset <= (#[trigger] walked(s, m, number, left).reports[j]).offset,
    decreases left,
{
    if !(left == 0 || m.chk.type_tag == IEND_TAG) {
        let rec = record_read(s, m.chk.size);
        let after = after_record(s, m.chk.size);
        let next = Cursor { header: m.header, chk: rec, offset: after.pos as u64 };
        let rest = walked(after, next, number + 1, (left - 1) as nat);
        let all = walked(s, m, number, left).reports;
        lemma_record_advances(s, m.chk.size);
        lemma_walk_offsets_grow(after, next, number + 1, (left - 1) as nat);
        assert forall|i: int| 0 <= i < all.len() implies m.offset <= (#[trigger] all[i]).offset by {
            if i > 0 {
                assert(all[i] == rest.reports[i - 1]);
            }
        }
        assert forall|i: int, j: int| 0 <= i <= j < all.len() implies (#[trigger] all[i]).offset <= (
        #[trigger] all[j]).offset by {
            if i > 0 {
                assert(all[i] == rest.reports[i - 1]);
                assert(all[j] == rest.reports[j - 1]);
            } else if j > 0 {
                assert(all[j] == rest.reports[j - 1]);
            }
        }
    }
}

} // verus!
