//! The two pipelines on whole streams, and what holds of one after the other.

use crate::checksum::{be_bytes, be_value, lemma_be_bytes_value};
use crate::cli::{is_auto, DecryptCmd, EncryptCmd};
use crate::error::SteganoError;
use crate::models::{
    after_record, empty_record, extract, field_at, field_read, key_serves, marshalled,
    payload_read, record_place, record_read, resolved_cursor, signature_accepted,
    size_read, splice, synthetic_record, Cursor, MetaChunk, Record,
};
use crate::stream::{ByteReader, StreamView};
use crate::utils::{
    algorithm_named, carried, ciphertext, key_fits, le_bytes, le_value, lemma_le_bytes_of_value,
    lemma_survivor_comes_back, lemma_xor_twice, plaintext, survives, trimmed, xor_cipher,
    Algorithm,
};
use vstd::prelude::*;
use vstd::utf8::encode_utf8;

verus! {

/// The cursor that opening `stream` gives, where the stream opens with an accepted
/// signature.
pub open spec fn opened(stream: Seq<u8>) -> Option<Cursor> {
    if stream.len() >= 8 && signature_accepted(stream) {
        Some(Cursor { header: le_value(stream), chk: empty_record(), offset: 8 })
    } else {
        None
    }
}

/// `stream` with the read position after its signature.
pub open spec fn body(stream: Seq<u8>) -> StreamView {
    StreamView { bytes: stream, pos: 8 }
}

/// The stream that embedding `payload` in `container` gives: the container is opened,
/// and [`splice`] does the rest.
pub open spec fn encoded(
    container: Seq<u8>,
    algorithm: Seq<u8>,
    key: Seq<u8>,
    payload: Seq<u8>,
    requested: usize,
) -> Result<Seq<u8>, SteganoError> {
    match opened(container) {
        None => Err(SteganoError::MalformedContainer),
        Some(m) => {
            let done = splice(m, body(container), algorithm, key, payload, requested);
            match done.result {
                Ok(offset) => Ok(done.written),
                Err(e) => Err(e),
            }
        },
    }
}

/// What an extraction gives: the stream without the record, and the payload.
pub struct Recovered {
    pub output: Seq<u8>,
    pub plaintext: Seq<u8>,
}

/// What extracting a payload from `stream` gives: the stream is opened, and [`extract`]
/// does the rest.
pub open spec fn decoded(stream: Seq<u8>, algorithm: Seq<u8>, key: Seq<u8>, requested: usize) -> Result<
    Recovered,
    SteganoError,
> {
    match opened(stream) {
        None => Err(SteganoError::MalformedContainer),
        Some(m) => {
            let done = extract(m, body(stream), algorithm, key, requested);
            match done.result {
                Ok(plaintext) => Ok(Recovered { output: done.written, plaintext }),
                Err(e) => Err(e),
            }
        },
    }
}

/// The result of an extraction.
#[derive(Debug)]
pub struct Decoded {
    /// The stream without the record.
    pub output: Vec<u8>,
    /// The payload, without the zeros at its end.
    pub plaintext: Vec<u8>,
}

impl View for Decoded {
    type V = Recovered;

    open spec fn view(&self) -> Recovered {
        Recovered { output: self.output@, plaintext: self.plaintext@ }
    }
}

/// Embeds the payload of `c` in a copy of `container`.
///
/// Fails with `MalformedContainer` where the container does not open with an accepted
/// signature, and as [`MetaChunk::write_encrypted_data`] does.
pub fn encode(container: Vec<u8>, c: &EncryptCmd) -> (done: Result<Vec<u8>, SteganoError>)
    requires
        algorithm_named(encode_utf8(c.algorithm@)) matches Some(a) ==> key_fits(
            a,
            encode_utf8(c.key@),
            encode_utf8(c.payload@).len(),
        ),
    ensures
        done matches Ok(out) ==> encoded(
            container@,
            encode_utf8(c.algorithm@),
            encode_utf8(c.key@),
            encode_utf8(c.payload@),
            c.offset,
        ) == Ok::<Seq<u8>, SteganoError>(out@),
        done matches Err(e) ==> encoded(
            container@,
            encode_utf8(c.algorithm@),
            encode_utf8(c.key@),
            encode_utf8(c.payload@),
            c.offset,
        ) == Err::<Seq<u8>, SteganoError>(e),
{
    let mut r = ByteReader::new(container);
    assert(r@.remaining() =~= container@);
    let mut m = match MetaChunk::new(&mut r) {
        Ok(m) => m,
        Err(e) => {
            return Err(e);
        },
    };
    let mut w: Vec<u8> = Vec::new();
    match m.write_encrypted_data(&mut r, c, &mut w) {
        Ok(offset) => Ok(w),
        Err(e) => Err(e),
    }
}

/// Extracts the payload that `c` asks for from `stream`, and gives the stream without
/// its record.
///
/// Fails with `MalformedContainer` where the stream does not open with an accepted
/// signature, and as [`MetaChunk::write_decrypted_data`] does.
///
/// Where `stream` is what embedding a payload in some container gave, under the cipher and
/// key of `c` and at the offset of `c`, and the embedding can be undone (see
/// [`undoable`] and [`survives`]), the payload comes back as it was, and the output is what
/// the round trip leaves of the container (see [`left_after_round_trip`]).
pub fn decode(stream: Vec<u8>, c: &DecryptCmd) -> (done: Result<Decoded, SteganoError>)
    requires
        opened(stream@) matches Some(m) ==> key_serves(
            m,
            body(stream@),
            encode_utf8(c.algorithm@),
            encode_utf8(c.key@),
            c.offset,
        ),
    ensures
        done matches Ok(d) ==> decoded(
            stream@,
            encode_utf8(c.algorithm@),
            encode_utf8(c.key@),
            c.offset,
        ) == Ok::<Recovered, SteganoError>(d@),
        done matches Err(e) ==> decoded(
            stream@,
            encode_utf8(c.algorithm@),
            encode_utf8(c.key@),
            c.offset,
        ) == Err::<Recovered, SteganoError>(e),
        forall|container: Seq<u8>, payload: Seq<u8>, requested: usize|
            #[trigger] encoded(
                container,
                encode_utf8(c.algorithm@),
                encode_utf8(c.key@),
                payload,
                requested,
            ) == Ok::<Seq<u8>, SteganoError>(stream@) && undoable(
                container,
                encode_utf8(c.algorithm@),
                encode_utf8(c.key@),
                payload,
                requested,
                c.offset,
            ) && survives(payload) ==> (done matches Ok(d)
                && d.plaintext@ == payload && d.output@ == left_after_round_trip(
                container,
                c.offset as int,
                ciphertext_by(encode_utf8(c.algorithm@), encode_utf8(c.key@), payload).len() as int,
            )),
{
    let ghost name = encode_utf8(c.algorithm@);
    let ghost key = encode_utf8(c.key@);
    let mut r = ByteReader::new(stream);
    assert(r@.remaining() =~= stream@);
    let mut m = match MetaChunk::new(&mut r) {
        Ok(m) => m,
        Err(e) => {
            proof {
                assert forall|container: Seq<u8>, payload: Seq<u8>, requested: usize|
                    #[trigger] encoded(container, name, key, payload, requested) == Ok::<
                        Seq<u8>,
                        SteganoError,
                    >(stream@) && undoable(container, name, key, payload, requested, c.offset)
                        && survives(payload) implies false by {
                    lemma_extract_after_splice(container, name, key, payload, requested, c.offset);
                }
            }
            return Err(e);
        },
    };
    let mut w: Vec<u8> = Vec::new();
    match m.write_decrypted_data(&mut r, c, &mut w) {
        Ok(plaintext) => {
            proof {
                assert forall|container: Seq<u8>, payload: Seq<u8>, requested: usize|
                    #[trigger] encoded(container, name, key, payload, requested) == Ok::<
                        Seq<u8>,
                        SteganoError,
                    >(stream@) && undoable(container, name, key, payload, requested, c.offset)
                        && survives(payload) implies plaintext@ == payload && w@
                    == left_after_round_trip(
                    container,
                    c.offset as int,
                    ciphertext_by(name, key, payload).len() as int,
                ) by {
                    lemma_extract_after_splice(container, name, key, payload, requested, c.offset);
                    let a = algorithm_named(name)->Some_0;
                    assert(m@.chk.data == ciphertext(a, key, payload));
                    lemma_survivor_comes_back(a, payload);
                }
            }
            Ok(Decoded { output: w, plaintext })
        },
        Err(e) => {
            proof {
                assert forall|container: Seq<u8>, payload: Seq<u8>, requested: usize|
                    #[trigger] encoded(container, name, key, payload, requested) == Ok::<
                        Seq<u8>,
                        SteganoError,
                    >(stream@) && undoable(container, name, key, payload, requested, c.offset)
                        && survives(payload) implies false by {
                    lemma_extract_after_splice(container, name, key, payload, requested, c.offset);
                }
            }
            Err(e)
        },
    }
}

/// Extracts a payload as [`decode`] does, where the key of `c` serves the extraction (see
/// [`key_serves`]); where it does not, there is no result.
pub fn try_decode(stream: Vec<u8>, c: &DecryptCmd) -> (done: Option<Result<Decoded, SteganoError>>)
    ensures
        done is Some <==> (opened(stream@) matches Some(m) ==> key_serves(
            m,
            body(stream@),
            encode_utf8(c.algorithm@),
            encode_utf8(c.key@),
            c.offset,
        )),
        done matches Some(Ok(d)) ==> decoded(
            stream@,
            encode_utf8(c.algorithm@),
            encode_utf8(c.key@),
            c.offset,
        ) == Ok::<Recovered, SteganoError>(d@),
        done matches Some(Err(e)) ==> decoded(
            stream@,
            encode_utf8(c.algorithm@),
            encode_utf8(c.key@),
            c.offset,
        ) == Err::<Recovered, SteganoError>(e),
        done is Some ==> forall|container: Seq<u8>, payload: Seq<u8>, requested: usize|
            #[trigger] encoded(
                container,
                encode_utf8(c.algorithm@),
                encode_utf8(c.key@),
                payload,
                requested,
            ) == Ok::<Seq<u8>, SteganoError>(stream@) && undoable(
                container,
                encode_utf8(c.algorithm@),
                encode_utf8(c.key@),
                payload,
                requested,
                c.offset,
            ) && survives(payload) ==> (done matches Some(Ok(d)) && d.plaintext@ == payload
                && d.output@ == left_after_round_trip(
                container,
                c.offset as int,
                ciphertext_by(encode_utf8(c.algorithm@), encode_utf8(c.key@), payload).len() as int,
            )),
{
    let mut r = ByteReader::new(stream);
    assert(r@.remaining() =~= stream@);
    let serves: bool = match MetaChunk::new(&mut r) {
        Ok(m) => {
            let mut m = m;
            m.key_is_enough(&mut r, c)
        },
        Err(e) => true,
    };
    if serves {
        Some(decode(r.into_bytes(), c))
    } else {
        None
    }
}

/// The offset at which embedding `payload` in `container` puts the record.
pub open spec fn embedded_at(
    container: Seq<u8>,
    algorithm: Seq<u8>,
    key: Seq<u8>,
    payload: Seq<u8>,
    requested: usize,
) -> Result<usize, SteganoError> {
    match opened(container) {
        None => Err(SteganoError::MalformedContainer),
        Some(m) => splice(m, body(container), algorithm, key, payload, requested).result,
    }
}

/// The ciphertext of `payload` under the cipher that `algorithm` names; empty where it
/// names none.
pub open spec fn ciphertext_by(algorithm: Seq<u8>, key: Seq<u8>, payload: Seq<u8>) -> Seq<u8> {
    match algorithm_named(algorithm) {
        Some(a) => ciphertext(a, key, payload),
        None => Seq::empty(),
    }
}

/// Whether an extraction at `offset` finds the record that embedding `payload` in
/// `container` put there.
///
/// The embedding has put its record at `offset`, which is an offset in its own right and
/// leaves room for the sixteen bytes that an extraction needs before it. The three bytes
/// of the container before the offset are zero: an extraction reads them as the upper
/// bytes of the record's length. And the ciphertext is short enough for the one byte that
/// holds its length.
pub open spec fn undoable(
    container: Seq<u8>,
    algorithm: Seq<u8>,
    key: Seq<u8>,
    payload: Seq<u8>,
    requested: usize,
    offset: usize,
) -> bool {
    &&& embedded_at(container, algorithm, key, payload, requested) == Ok::<usize, SteganoError>(
        offset,
    )
    &&& !is_auto(offset)
    &&& 16 <= offset
    &&& container[offset - 3] == 0
    &&& container[offset - 2] == 0
    &&& container[offset - 1] == 0
    &&& ciphertext_by(algorithm, key, payload).len() < 0x100
}

/// What is left of `container` after a payload whose ciphertext has `n` bytes was embedded
/// at `offset` and extracted again: the bytes up to eight before the offset, and the bytes
/// from `n` after it.
pub open spec fn left_after_round_trip(container: Seq<u8>, offset: int, n: int) -> Seq<u8> {
    let resume = if offset + n <= container.len() {
        offset + n
    } else {
        container.len() as int
    };
    container.subrange(0, offset - 8) + container.subrange(resume, container.len() as int)
}

/// `container` with `record` put in at `offset`.
pub open spec fn with_record(container: Seq<u8>, offset: int, record: Seq<u8>) -> Seq<u8> {
    container.subrange(0, offset) + record + container.subrange(offset, container.len() as int)
}

/// A record is read back from where it was put in: where the three bytes before it are
/// zero and its payload has fewer than 256 bytes, a read that starts three bytes before
/// it gives the record, and ends where the record ends.
pub proof fn lemma_record_read_back(container: Seq<u8>, offset: int, rec: Record, stale: u32)
    requires
        3 <= offset <= container.len(),
        container[offset - 3] == 0,
        container[offset - 2] == 0,
        container[offset - 1] == 0,
        rec.data.len() < 0x100,
    ensures
        ({
            let stream = with_record(container, offset, marshalled(rec));
            let place = StreamView { bytes: stream, pos: offset - 3 };
            &&& stream.len() == container.len() + 9 + rec.data.len()
            &&& record_read(place, stale) == (Record { size: rec.data.len() as u32, ..rec })
            &&& after_record(place, stale) == (StreamView {
                bytes: stream,
                pos: offset + 9 + rec.data.len(),
            })
        }),
{
    let n = rec.data.len() as int;
    let mar = marshalled(rec);
    let stream = with_record(container, offset, mar);
    let place = StreamView { bytes: stream, pos: offset - 3 };
    lemma_be_bytes_value(rec.type_tag);
    lemma_be_bytes_value(rec.crc);
    assert(mar.len() == 9 + n);
    assert(mar[0] == n as u8);
    assert(forall|k: int| 0 <= k < 4 ==> mar[1 + k] == be_bytes(rec.type_tag)[k]);
    assert(forall|k: int| 0 <= k < n ==> mar[5 + k] == rec.data[k]);
    assert(forall|k: int| 0 <= k < 4 ==> mar[5 + n + k] == be_bytes(rec.crc)[k]);
    assert(forall|i: int| 0 <= i < offset ==> stream[i] == container[i]);
    assert(forall|i: int| 0 <= i < 9 + n ==> stream[offset + i] == mar[i]);
    assert(stream[offset] == mar[0]);
    assert(field_at(place) == be_value(0, 0, 0, n as u8));
    assert(size_read(place, stale) == n);
    let at_tag = place.after_read(4);
    assert(at_tag == StreamView { bytes: stream, pos: offset + 1 });
    assert(stream[offset + 1] == mar[1] && stream[offset + 2] == mar[2] && stream[offset + 3]
        == mar[3] && stream[offset + 4] == mar[4]);
    assert(field_read(at_tag) == rec.type_tag);
    let at_data = at_tag.after_read(4);
    assert(at_data == StreamView { bytes: stream, pos: offset + 5 });
    assert forall|k: int| 0 <= k < n implies stream[offset + 5 + k] == rec.data[k] by {
        assert(stream[offset + (5 + k)] == mar[5 + k]);
    }
    assert(payload_read(at_data, n) =~= rec.data);
    let at_crc = at_data.after_read(n);
    assert(at_crc == StreamView { bytes: stream, pos: offset + 5 + n });
    assert forall|k: int| 0 <= k < 4 implies stream[offset + 5 + n + k] == be_bytes(rec.crc)[k] by {
        assert(stream[offset + (5 + n + k)] == mar[5 + n + k]);
    }
    assert(field_read(at_crc) == rec.crc);
}

/// What follows a record that was put into a container, `skip` bytes after its end, is
/// what followed `skip` bytes after the place where it was put.
pub proof fn lemma_rest_after_record(container: Seq<u8>, offset: int, record: Seq<u8>, skip: int)
    requires
        0 <= offset <= container.len(),
        0 <= skip,
    ensures
        ({
            let stream = with_record(container, offset, record);
            let end = StreamView { bytes: stream, pos: offset + record.len() };
            end.after_read(skip).remaining() == if offset + skip <= container.len() {
                container.subrange(offset + skip, container.len() as int)
            } else {
                Seq::<u8>::empty()
            }
        }),
{
    let stream = with_record(container, offset, record);
    let end = StreamView { bytes: stream, pos: offset + record.len() };
    let len = container.len() as int;
    assert(stream.len() == len + record.len());
    if offset + skip <= len {
        assert(end.after_read(skip).remaining() =~= container.subrange(offset + skip, len));
    } else {
        assert(end.after_read(skip).remaining() =~= Seq::<u8>::empty());
    }
}

/// What embedding writes, where it succeeds at `offset`: the container with the record put
/// in at the offset.
pub proof fn lemma_encoded_stream(
    container: Seq<u8>,
    algorithm: Seq<u8>,
    key: Seq<u8>,
    payload: Seq<u8>,
    requested: usize,
    offset: usize,
)
    requires
        embedded_at(container, algorithm, key, payload, requested) == Ok::<usize, SteganoError>(
            offset,
        ),
    ensures
        opened(container) is Some,
        algorithm_named(algorithm) is Some,
        8 <= offset <= container.len(),
        encoded(container, algorithm, key, payload, requested) == Ok::<Seq<u8>, SteganoError>(
            with_record(
                container,
                offset as int,
                marshalled(embedded_record(container, algorithm, key, payload, requested)),
            ),
        ),
{
    reveal(splice);
    let m = opened(container)->Some_0;
    let put = splice(m, body(container), algorithm, key, payload, requested);
    let rec = embedded_record(container, algorithm, key, payload, requested);
    lemma_signature_written(container);
    assert(put.written =~= with_record(container, offset as int, marshalled(rec)));
}

/// The record that embedding `payload` in `container` puts in.
pub open spec fn embedded_record(
    container: Seq<u8>,
    algorithm: Seq<u8>,
    key: Seq<u8>,
    payload: Seq<u8>,
    requested: usize,
) -> Record {
    synthetic_record(
        resolved_cursor(body(container), opened(container)->Some_0, requested).chk,
        ciphertext_by(algorithm, key, payload),
    )
}

/// Two streams that agree in their first eight bytes open alike.
pub proof fn lemma_opened_alike(stream: Seq<u8>, container: Seq<u8>)
    requires
        stream.len() >= 8,
        container.len() >= 8,
        forall|i: int| 0 <= i < 8 ==> stream[i] == container[i],
    ensures
        opened(stream) == opened(container),
{
}

/// The signature that a cursor writes is the first eight bytes of the stream that it
/// opened.
pub proof fn lemma_signature_written(container: Seq<u8>)
    requires
        container.len() >= 8,
    ensures
        le_bytes(le_value(container)) == container.subrange(0, 8),
{
    lemma_le_bytes_of_value(container.subrange(0, 8));
    assert(le_value(container) == le_value(container.subrange(0, 8)));
}

/// An extraction at an offset that is given, from a stream that holds the bytes up to
/// it, under a cipher that is known: what it reads, returns and writes.
pub proof fn lemma_extract_at(m: Cursor, s: StreamView, algorithm: Seq<u8>, key: Seq<u8>, offset: usize)
    requires
        algorithm_named(algorithm) is Some,
        !is_auto(offset),
        16 <= offset,
        s.has(offset - 16),
    ensures
        ({
            let a = algorithm_named(algorithm)->Some_0;
            let place = record_place(s, offset);
            let rec = record_read(place, m.chk.size);
            let done = extract(m, s, algorithm, key, offset);
            &&& done.cursor.chk == rec
            &&& done.result == Ok::<Seq<u8>, SteganoError>(trimmed(plaintext(a, key, rec.data)))
            &&& done.written == le_bytes(m.header) + s.bytes.subrange(s.pos, s.pos + offset - 16)
                + after_record(place, m.chk.size).after_read(rec.data.len() as int).remaining()
        }),
{
    reveal(extract);
}

/// What an extraction finds after an embedding that can be undone: its record holds the
/// ciphertext, the payload is the ciphertext decrypted and trimmed, and the output is what
/// is left of the container.
pub proof fn lemma_extract_after_splice(
    container: Seq<u8>,
    algorithm: Seq<u8>,
    key: Seq<u8>,
    payload: Seq<u8>,
    requested: usize,
    offset: usize,
)
    requires
        undoable(container, algorithm, key, payload, requested, offset),
    ensures
        algorithm_named(algorithm) is Some,
        encoded(container, algorithm, key, payload, requested) is Ok,
        opened(encoded(container, algorithm, key, payload, requested)->Ok_0) is Some,
        ({
            let a = algorithm_named(algorithm)->Some_0;
            let sealed = ciphertext(a, key, payload);
            let stream = encoded(container, algorithm, key, payload, requested)->Ok_0;
            let done = extract(opened(stream)->Some_0, body(stream), algorithm, key, offset);
            &&& done.cursor.chk.data == sealed
            &&& done.result == Ok::<Seq<u8>, SteganoError>(trimmed(plaintext(a, key, sealed)))
            &&& done.written == left_after_round_trip(
                container,
                offset as int,
                sealed.len() as int,
            )
        }),
{
    lemma_encoded_stream(container, algorithm, key, payload, requested, offset);
    let a = algorithm_named(algorithm)->Some_0;
    let sealed = ciphertext(a, key, payload);
    let n = sealed.len() as int;
    let len = container.len() as int;
    let o = offset as int;
    let rec = embedded_record(container, algorithm, key, payload, requested);
    let mar = marshalled(rec);
    let stream = with_record(container, o, mar);
    assert(rec.data == sealed);
    lemma_record_read_back(container, o, rec, 0);
    lemma_rest_after_record(container, o, mar, n);
    assert(forall|i: int| 0 <= i < o ==> stream[i] == container[i]);
    lemma_opened_alike(stream, container);
    let m2 = opened(stream)->Some_0;
    let s2 = body(stream);
    lemma_extract_at(m2, s2, algorithm, key, offset);
    let place = record_place(s2, offset);
    assert(place == StreamView { bytes: stream, pos: o - 3 });
    lemma_signature_written(container);
    assert(stream.subrange(8, 8 + o - 16) =~= container.subrange(8, o - 8));
    assert(container.subrange(0, 8) + container.subrange(8, o - 8) =~= container.subrange(
        0,
        o - 8,
    ));
}

/// Byte preservation: after a payload was embedded in a container and extracted again at
/// the same offset, the output holds the bytes of the container up to eight before the
/// offset, and its bytes from as many after the offset as the ciphertext has, each as it
/// was. The bytes of the container between these two do not come back.
pub proof fn lemma_round_trip_preserves_bytes(
    container: Seq<u8>,
    algorithm: Seq<u8>,
    key: Seq<u8>,
    payload: Seq<u8>,
    requested: usize,
    offset: usize,
)
    requires
        undoable(container, algorithm, key, payload, requested, offset),
    ensures
        encoded(container, algorithm, key, payload, requested) is Ok,
        decoded(
            encoded(container, algorithm, key, payload, requested)->Ok_0,
            algorithm,
            key,
            offset,
        ) is Ok,
        decoded(
            encoded(container, algorithm, key, payload, requested)->Ok_0,
            algorithm,
            key,
            offset,
        )->Ok_0.output == left_after_round_trip(
            container,
            offset as int,
            ciphertext_by(algorithm, key, payload).len() as int,
        ),
{
    lemma_extract_after_splice(container, algorithm, key, payload, requested, offset);
}

/// Round trip under a cipher that undoes itself on the payload: where decrypting the
/// ciphertext of a payload gives what the ciphertext carries of it, a payload that was
/// embedded in a container comes back from an extraction at the same offset with the same
/// key, byte for byte.
///
/// The XOR cipher undoes itself on every payload ([`lemma_xor_twice`]). Of the block
/// cipher, [`decrypt_data`](crate::utils::decrypt_data) states it for the data at hand,
/// and [`decode`] states the round trip for both.
pub proof fn lemma_round_trip(
    container: Seq<u8>,
    algorithm: Seq<u8>,
    key: Seq<u8>,
    payload: Seq<u8>,
    requested: usize,
    offset: usize,
)
    requires
        undoable(container, algorithm, key, payload, requested, offset),
        survives(payload),
        algorithm_named(algorithm) matches Some(a) ==> plaintext(a, key, ciphertext(a, key, payload))
            == carried(a, payload),
    ensures
        encoded(container, algorithm, key, payload, requested) is Ok,
        decoded(
            encoded(container, algorithm, key, payload, requested)->Ok_0,
            algorithm,
            key,
            offset,
        ) is Ok,
        decoded(
            encoded(container, algorithm, key, payload, requested)->Ok_0,
            algorithm,
            key,
            offset,
        )->Ok_0.plaintext == payload,
{
    lemma_extract_after_splice(container, algorithm, key, payload, requested, offset);
    lemma_survivor_comes_back(algorithm_named(algorithm)->Some_0, payload);
}

/// Round trip under the XOR cipher: a payload that was embedded in a container comes back
/// from an extraction at the same offset with the same key, byte for byte.
pub proof fn lemma_round_trip_xor(
    container: Seq<u8>,
    algorithm: Seq<u8>,
    key: Seq<u8>,
    payload: Seq<u8>,
    requested: usize,
    offset: usize,
)
    requires
        algorithm_named(algorithm) == Some(Algorithm::Xor),
        undoable(container, algorithm, key, payload, requested, offset),
        survives(payload),
    ensures
        encoded(container, algorithm, key, payload, requested) is Ok,
        decoded(
            encoded(container, algorithm, key, payload, requested)->Ok_0,
            algorithm,
            key,
            offset,
        ) is Ok,
        decoded(
            encoded(container, algorithm, key, payload, requested)->Ok_0,
            algorithm,
            key,
            offset,
        )->Ok_0.plaintext == payload,
{
    lemma_xor_twice(payload, key);
    lemma_round_trip(container, algorithm, key, payload, requested, offset);
}

/// A record whose payload has fewer than 256 bytes is found where it was put in, whatever
/// stands before it: a read that starts three bytes before it gives a payload that starts
/// with the payload of the record.
pub proof fn lemma_record_read_starts(container: Seq<u8>, offset: int, rec: Record, stale: u32)
    requires
        3 <= offset <= container.len(),
        rec.data.len() < 0x100,
    ensures
        ({
            let stream = with_record(container, offset, marshalled(rec));
            let got = record_read(StreamView { bytes: stream, pos: offset - 3 }, stale);
            &&& got.data.len() >= rec.data.len()
            &&& got.data.subrange(0, rec.data.len() as int) == rec.data
        }),
{
    let n = rec.data.len() as int;
    let mar = marshalled(rec);
    let stream = with_record(container, offset, mar);
    let place = StreamView { bytes: stream, pos: offset - 3 };
    assert(mar.len() == 9 + n);
    assert(mar[0] == n as u8);
    assert(forall|k: int| 0 <= k < n ==> mar[5 + k] == rec.data[k]);
    assert(forall|i: int| 0 <= i < offset ==> stream[i] == container[i]);
    assert(forall|i: int| 0 <= i < 9 + n ==> stream[offset + i] == mar[i]);
    assert(stream[offset] == mar[0]);
    let size = size_read(place, stale);
    assert(size == be_value(stream[offset - 3], stream[offset - 2], stream[offset - 1], n as u8));
    assert(size >= n);
    let at_data = place.after_read(4).after_read(4);
    assert(at_data == StreamView { bytes: stream, pos: offset + 5 });
    let got = payload_read(at_data, size as int);
    assert forall|k: int| 0 <= k < n implies stream[offset + 5 + k] == rec.data[k] by {
        assert(stream[offset + (5 + k)] == mar[5 + k]);
    }
    assert(got.len() >= n);
    assert(got.subrange(0, n) =~= rec.data);
}

/// Trimming cuts bytes off the end and changes none: what is left is the start of what
/// was there.
pub proof fn lemma_trimmed_is_start(bytes: Seq<u8>)
    ensures
        trimmed(bytes).len() <= bytes.len(),
        forall|j: int| 0 <= j < trimmed(bytes).len() ==> #[trigger] trimmed(bytes)[j] == bytes[j],
    decreases bytes.len(),
{
    if bytes.len() > 0 && bytes.last() == 0 {
        lemma_trimmed_is_start(bytes.drop_last());
    }
}

/// The byte of `key` that the XOR cipher gives to position `i` of its input.
pub open spec fn key_byte(key: Seq<u8>, i: int) -> u8 {
    key[i % (key.len() as int)]
}

/// Whether two keys give different bytes to some position of an input of `len` bytes.
pub open spec fn keys_differ_within(key: Seq<u8>, other: Seq<u8>, len: int) -> bool {
    exists|i: int| 0 <= i < len && #[trigger] key_byte(key, i) != key_byte(other, i)
}

/// A wrong key is not noticed, and gives a wrong payload: under the XOR cipher, an
/// extraction with a key that differs from the key of the embedding somewhere within the
/// payload succeeds, and what it returns is not the payload. This holds whatever the
/// container holds before the offset.
pub proof fn lemma_wrong_key_gives_wrong_payload(
    container: Seq<u8>,
    algorithm: Seq<u8>,
    key: Seq<u8>,
    wrong_key: Seq<u8>,
    payload: Seq<u8>,
    requested: usize,
    offset: usize,
)
    requires
        algorithm_named(algorithm) == Some(Algorithm::Xor),
        embedded_at(container, algorithm, key, payload, requested) == Ok::<usize, SteganoError>(
            offset,
        ),
        !is_auto(offset),
        16 <= offset,
        payload.len() < 0x100,
        key.len() > 0,
        wrong_key.len() > 0,
        keys_differ_within(key, wrong_key, payload.len() as int),
    ensures
        encoded(container, algorithm, key, payload, requested) is Ok,
        decoded(
            encoded(container, algorithm, key, payload, requested)->Ok_0,
            algorithm,
            wrong_key,
            offset,
        ) is Ok,
        decoded(
            encoded(container, algorithm, key, payload, requested)->Ok_0,
            algorithm,
            wrong_key,
            offset,
        )->Ok_0.plaintext != payload,
{
    lemma_encoded_stream(container, algorithm, key, payload, requested, offset);
    let sealed = xor_cipher(payload, key);
    let n = payload.len() as int;
    let o = offset as int;
    let rec = embedded_record(container, algorithm, key, payload, requested);
    let stream = with_record(container, o, marshalled(rec));
    assert(rec.data == sealed);
    lemma_record_read_starts(container, o, rec, 0);
    assert(forall|i: int| 0 <= i < o ==> stream[i] == container[i]);
    lemma_opened_alike(stream, container);
    let m2 = opened(stream)->Some_0;
    let s2 = body(stream);
    lemma_extract_at(m2, s2, algorithm, wrong_key, offset);
    let place = record_place(s2, offset);
    assert(place == StreamView { bytes: stream, pos: o - 3 });
    let got = record_read(place, 0);
    let opened_data = xor_cipher(got.data, wrong_key);
    let i = choose|i: int| 0 <= i < n && #[trigger] key_byte(key, i) != key_byte(wrong_key, i);
    let a: u8 = payload[i];
    let k: u8 = key_byte(key, i);
    let w: u8 = key_byte(wrong_key, i);
    assert(got.data[i] == got.data.subrange(0, n)[i]);
    assert(got.data[i] == a ^ k);
    assert(opened_data[i] == (a ^ k) ^ w);
    assert((a ^ k) ^ w != a) by (bit_vector)
        requires
            k != w,
    ;
    lemma_trimmed_is_start(opened_data);
    if trimmed(opened_data) == payload {
        assert(trimmed(opened_data)[i] == opened_data[i]);
    }
}

} // verus!
