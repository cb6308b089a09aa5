use stegano::cli::{DecryptCmd, EncryptCmd, AUTO_OFFSET};
use stegano::error::SteganoError;
use stegano::models::{MetaChunk, IEND_TAG};
use stegano::splice::{decode, encode, try_decode};
use stegano::stream::ByteReader;
use stegano::utils::encrypt_payload;

const SIGNATURE: [u8; 8] = [0x89, b'P', b'N', b'G', 0x0d, 0x0a, 0x1a, 0x0a];

fn record(tag: &[u8; 4], payload: &[u8], crc: u32) -> Vec<u8> {
    let mut bytes = (payload.len() as u32).to_be_bytes().to_vec();
    bytes.extend_from_slice(tag);
    bytes.extend_from_slice(payload);
    bytes.extend_from_slice(&crc.to_be_bytes());
    bytes
}

/// A signature, two records of 484 bytes each, and a terminal record at offset 1000. The
/// payload of the second record is zero in its last ten bytes, and counts up before them.
fn container() -> Vec<u8> {
    let mut second: Vec<u8> = (0..474u32).map(|i| (i % 250 + 1) as u8).collect();
    second.extend_from_slice(&[0; 10]);
    let mut bytes = SIGNATURE.to_vec();
    bytes.extend(record(b"IHDR", &[0x55; 484], 0x1111_1111));
    bytes.extend(record(b"IDAT", &second, 0x2222_2222));
    assert_eq!(bytes.len(), 1000);
    bytes.extend(record(b"IEND", &[], 0xae42_6082));
    bytes
}

fn embed(payload: &str, key: &str, algorithm: &str, offset: usize) -> EncryptCmd {
    EncryptCmd {
        input: String::new(),
        output: String::new(),
        key: String::from(key),
        suppress: true,
        offset,
        payload: String::from(payload),
        file_type: String::from("PNG"),
        algorithm: String::from(algorithm),
    }
}

fn recover(key: &str, algorithm: &str, offset: usize) -> DecryptCmd {
    DecryptCmd {
        input: String::new(),
        output: String::new(),
        key: String::from(key),
        suppress: true,
        offset,
        payload: String::new(),
        file_type: String::from("PNG"),
        algorithm: String::from(algorithm),
    }
}

#[test]
fn hello_is_embedded_before_the_terminal_record_and_comes_back() {
    let source = container();

    let mut r = ByteReader::new(source.clone());
    let mut m = MetaChunk::new(&mut r).unwrap();
    assert_eq!(m.resolve_offset(&mut r, AUTO_OFFSET as usize), Ok(989));

    let encoded = encode(source.clone(), &embed("hello", "key", "xor", AUTO_OFFSET as usize))
        .unwrap();
    let sealed = [b'h' ^ b'k', b'e' ^ b'e', b'l' ^ b'y', b'l' ^ b'k', b'o' ^ b'e'];
    assert_eq!(encoded.len(), source.len() + 14);
    assert_eq!(&encoded[..989], &source[..989]);
    assert_eq!(encoded[989], 5);
    assert_eq!(&encoded[990..994], b"IEND");
    assert_eq!(&encoded[994..999], &sealed);
    assert_eq!(&encoded[999..1003], &[0xef, 0xab, 0xd3, 0x0b]);
    assert_eq!(&encoded[1003..], &source[989..]);

    let decoded = decode(encoded, &recover("key", "xor", 989)).unwrap();
    assert_eq!(decoded.plaintext, b"hello".to_vec());
}

#[test]
fn a_wrong_key_gives_a_wrong_payload_and_no_failure() {
    let encoded = encode(container(), &embed("hello", "key", "xor", 989)).unwrap();
    let decoded = decode(encoded, &recover("kex", "xor", 989));
    assert!(decoded.is_ok());
    let decoded = decoded.unwrap();
    assert_ne!(decoded.plaintext, b"hello".to_vec());
    assert_eq!(decoded.plaintext, vec![b'h', b'e', b'l' ^ b'y' ^ b'x', b'l', b'o']);
}

#[test]
fn a_wrong_key_under_the_block_cipher_gives_no_failure_either() {
    let encoded = encode(container(), &embed("hello", "key", "aes", 989)).unwrap();
    let decoded = decode(encoded, &recover("another key", "aes", 989)).unwrap();
    assert_ne!(decoded.plaintext, b"hello".to_vec());
}

#[test]
fn an_offset_that_is_given_is_used_as_it_is() {
    let source = container();
    let encoded = encode(source.clone(), &embed("hello", "key", "XOR", 500)).unwrap();
    assert_eq!(&encoded[..500], &source[..500]);
    // The cursor has read no record: the tag is zero, and the checksum starts from zero.
    assert_eq!(
        &encoded[500..514],
        &[5, 0, 0, 0, 0, 3, 0, 21, 7, 10, 0x14, 0xd0, 0x70, 0x3c]
    );
    assert_eq!(&encoded[514..], &source[500..]);
}

#[test]
fn the_round_trip_cuts_out_the_record_and_what_is_around_it() {
    let source = container();
    let encoded = encode(source.clone(), &embed("hello", "key", "xor", 989)).unwrap();
    let decoded = decode(encoded, &recover("key", "xor", 989)).unwrap();
    assert_eq!(decoded.plaintext, b"hello".to_vec());
    // Eight bytes before the offset and five after it are gone with the record.
    assert_eq!(decoded.output.len(), source.len() - 8 - 5);
    assert_eq!(&decoded.output[..981], &source[..981]);
    assert_eq!(&decoded.output[981..], &source[994..]);
}

#[test]
fn the_block_cipher_round_trip() {
    let source = container();
    let encoded = encode(source.clone(), &embed("hello", "key", "aes", 989)).unwrap();
    assert_eq!(encoded.len(), source.len() + 25);
    assert_eq!(encoded[989], 16);
    assert_eq!(&encoded[994..1010], encrypt_payload("key", "hello").as_slice());
    let decoded = decode(encoded, &recover("key", "AES", 989)).unwrap();
    assert_eq!(decoded.plaintext, b"hello".to_vec());
    assert_eq!(&decoded.output[..981], &source[..981]);
    assert_eq!(&decoded.output[981..], &source[1005..]);
}

#[test]
fn the_block_cipher_round_trip_over_two_blocks() {
    let payload = "0123456789abcdef0123456789ABCDEF";
    let encoded = encode(container(), &embed(payload, "key", "aes", 990)).unwrap();
    assert_eq!(encoded[990], 32);
    let decoded = decode(encoded, &recover("key", "aes", 990)).unwrap();
    assert_eq!(decoded.plaintext, payload.as_bytes().to_vec());
}

#[test]
fn the_block_cipher_brings_back_a_payload_that_ends_inside_a_block() {
    let source = container();
    let encoded = encode(source.clone(), &embed("confidential_data", "key", "aes", 989)).unwrap();
    assert_eq!(encoded.len(), source.len() + 9 + 32);
    assert_eq!(encoded[989], 32);
    let decoded = decode(encoded, &recover("key", "aes", 989)).unwrap();
    assert_eq!(decoded.plaintext, b"confidential_data".to_vec());
    // The container ends before as many bytes after the offset as the ciphertext has.
    assert_eq!(decoded.output, source[..981].to_vec());
}

#[test]
fn the_block_cipher_round_trip_for_every_length_that_fits() {
    for n in [0usize, 1, 15, 16, 17, 32, 33, 100, 239, 240] {
        let payload: String = (0..n).map(|i| (b'a' + (i % 26) as u8) as char).collect();
        let encoded = encode(container(), &embed(&payload, "key", "AES", 989)).unwrap();
        let decoded = decode(encoded, &recover("key", "aes", 989)).unwrap();
        assert_eq!(decoded.plaintext, payload.as_bytes(), "payload of {} bytes", n);
    }
}

#[test]
fn zeros_at_the_end_of_a_payload_do_not_come_back() {
    let encoded = encode(container(), &embed("hi\0\0", "key", "xor", 989)).unwrap();
    let decoded = decode(encoded, &recover("key", "xor", 989)).unwrap();
    assert_eq!(decoded.plaintext, b"hi".to_vec());
}

#[test]
fn an_empty_payload_comes_back_empty() {
    let source = container();
    let encoded = encode(source.clone(), &embed("", "", "xor", 989)).unwrap();
    assert_eq!(encoded.len(), source.len() + 9);
    let decoded = decode(encoded, &recover("key", "xor", 989)).unwrap();
    assert_eq!(decoded.plaintext, Vec::<u8>::new());
    assert_eq!(decoded.output.len(), source.len() - 8);
}

#[test]
fn bytes_before_the_record_that_are_not_zero_spoil_its_length() {
    // The three bytes before offset 980 are not zero: the extraction reads them as the
    // upper bytes of the length, and takes the rest of the stream for the payload.
    let encoded = encode(container(), &embed("hello", "key", "xor", 980)).unwrap();
    let decoded = decode(encoded.clone(), &recover("key", "xor", 980)).unwrap();
    assert_ne!(decoded.plaintext, b"hello".to_vec());
    assert_eq!(&decoded.plaintext[..5], b"hello");
    assert_eq!(decoded.output, encoded[..972].to_vec());
}

#[test]
fn an_embedding_at_the_end_of_the_container() {
    let mut source = container();
    source.extend_from_slice(&[0, 0, 0]);
    let end = source.len();
    let encoded = encode(source.clone(), &embed("hello", "key", "xor", end)).unwrap();
    assert_eq!(&encoded[..end], source.as_slice());
    assert_eq!(encoded.len(), end + 14);
    let decoded = decode(encoded, &recover("key", "xor", end)).unwrap();
    assert_eq!(decoded.plaintext, b"hello".to_vec());
    assert_eq!(decoded.output, source[..end - 8].to_vec());
}

#[test]
fn a_name_that_is_no_cipher_is_refused() {
    assert_eq!(
        encode(container(), &embed("hello", "key", "des", 989)),
        Err(SteganoError::UnsupportedAlgorithm)
    );
    assert_eq!(
        decode(container(), &recover("key", "", 989)).err(),
        Some(SteganoError::UnsupportedAlgorithm)
    );
}

#[test]
fn a_failure_writes_nothing() {
    let mut r = ByteReader::new(container());
    let mut m = MetaChunk::new(&mut r).unwrap();
    let mut w = vec![1, 2, 3];
    assert_eq!(
        m.write_encrypted_data(&mut r, &embed("hello", "key", "rot13", 989), &mut w),
        Err(SteganoError::UnsupportedAlgorithm)
    );
    assert_eq!(
        m.write_encrypted_data(&mut r, &embed("hello", "key", "xor", 2000), &mut w),
        Err(SteganoError::ShortRead)
    );
    assert_eq!(
        m.write_decrypted_data(&mut r, &recover("key", "xor", 3), &mut w),
        Err(SteganoError::InvalidOffset)
    );
    assert_eq!(w, vec![1, 2, 3]);
    assert_eq!(r.position(), 8);
    assert_eq!(m.chk.type_tag, 0);
}

#[test]
fn a_stream_without_signature_is_refused() {
    let mut bytes = container();
    bytes[2] = b'M';
    assert_eq!(
        encode(bytes.clone(), &embed("hello", "key", "xor", 989)),
        Err(SteganoError::MalformedContainer)
    );
    assert_eq!(
        decode(bytes, &recover("key", "xor", 989)).err(),
        Some(SteganoError::MalformedContainer)
    );
    assert_eq!(
        encode(vec![0x89, b'P', b'N'], &embed("hello", "key", "xor", 989)),
        Err(SteganoError::MalformedContainer)
    );
    // The signature is looked at before the name of the cipher.
    assert_eq!(
        encode(vec![], &embed("hello", "key", "des", 989)),
        Err(SteganoError::MalformedContainer)
    );
}

#[test]
fn an_offset_has_to_leave_room_before_the_record() {
    assert_eq!(
        encode(container(), &embed("hello", "key", "xor", 7)),
        Err(SteganoError::InvalidOffset)
    );
    assert!(encode(container(), &embed("hello", "key", "xor", 8)).is_ok());
    assert_eq!(
        decode(container(), &recover("key", "xor", 15)).err(),
        Some(SteganoError::InvalidOffset)
    );
    assert!(decode(container(), &recover("key", "xor", 16)).is_ok());
}

#[test]
fn an_offset_beyond_the_stream_is_a_short_read() {
    let len = container().len();
    assert!(encode(container(), &embed("hello", "key", "xor", len)).is_ok());
    assert_eq!(
        encode(container(), &embed("hello", "key", "xor", len + 1)),
        Err(SteganoError::ShortRead)
    );
    assert!(decode(container(), &recover("key", "xor", len + 8)).is_ok());
    assert_eq!(
        decode(container(), &recover("key", "xor", len + 9)).err(),
        Some(SteganoError::ShortRead)
    );
}

#[test]
fn a_scan_that_finds_no_room_is_an_invalid_offset() {
    let mut bytes = SIGNATURE.to_vec();
    bytes.extend(record(b"IEND", &[], 0xae42_6082));
    assert_eq!(
        encode(bytes.clone(), &embed("hello", "key", "xor", AUTO_OFFSET as usize)),
        Err(SteganoError::InvalidOffset)
    );
    assert_eq!(
        decode(bytes, &recover("key", "xor", AUTO_OFFSET as usize)).err(),
        Some(SteganoError::InvalidOffset)
    );
}

#[test]
fn a_stream_without_terminal_record_is_scanned_to_its_end() {
    let mut bytes = container();
    bytes.truncate(1000);
    let encoded = encode(bytes.clone(), &embed("hello", "key", "xor", AUTO_OFFSET as usize))
        .unwrap();
    assert_eq!(&encoded[..989], &bytes[..989]);
    // The read at the end of the stream left a cursor without tag and checksum.
    assert_eq!(
        &encoded[989..1003],
        &[5, 0, 0, 0, 0, 3, 0, 21, 7, 10, 0x14, 0xd0, 0x70, 0x3c]
    );
    assert_eq!(&encoded[1003..], &bytes[989..]);
}

#[test]
fn the_cursor_holds_the_record_that_was_embedded() {
    let mut r = ByteReader::new(container());
    let mut m = MetaChunk::new(&mut r).unwrap();
    let mut w = Vec::new();
    let offset = m
        .write_encrypted_data(&mut r, &embed("hello", "key", "xor", AUTO_OFFSET as usize), &mut w)
        .unwrap();
    assert_eq!(offset, 989);
    assert_eq!(m.chk.size, 5);
    assert_eq!(m.chk.type_tag, IEND_TAG);
    assert_eq!(m.chk.data, vec![3, 0, 21, 7, 10]);
    assert_eq!(m.chk.crc, 0xefab_d30b);
    assert_eq!(m.offset, 1000);
    assert_eq!(r.position(), 1012);
    assert_eq!(&w[..8], &SIGNATURE);
}

#[test]
fn the_cursor_holds_the_record_that_was_extracted() {
    let encoded = encode(container(), &embed("hello", "key", "xor", 989)).unwrap();
    let mut r = ByteReader::new(encoded);
    let mut m = MetaChunk::new(&mut r).unwrap();
    let mut w = Vec::new();
    let plaintext = m.write_decrypted_data(&mut r, &recover("key", "xor", 989), &mut w).unwrap();
    assert_eq!(plaintext, b"hello".to_vec());
    assert_eq!(m.offset, 986);
    assert_eq!(m.chk.size, 5);
    assert_eq!(m.chk.type_tag, 0);
    assert_eq!(m.chk.data, vec![3, 0, 21, 7, 10]);
    assert_eq!(m.chk.crc, 0x14d0_703c);
    assert_eq!(r.position(), r.len());
}

#[test]
fn a_wrong_key_gives_a_wrong_payload_whatever_stands_before_the_record() {
    // The three bytes before offset 980 are not zero.
    let encoded = encode(container(), &embed("hello", "key", "xor", 980)).unwrap();
    for wrong in ["kez", "Key", "k", "keyk", "yek"] {
        let decoded = decode(encoded.clone(), &recover(wrong, "xor", 980));
        assert!(decoded.is_ok(), "key {:?}", wrong);
        assert_ne!(decoded.unwrap().plaintext, b"hello".to_vec(), "key {:?}", wrong);
    }
    let encoded = encode(container(), &embed("hello", "key", "xor", 989)).unwrap();
    for wrong in ["kez", "Key", "k", "keyk", "yek"] {
        let decoded = decode(encoded.clone(), &recover(wrong, "xor", 989));
        assert!(decoded.is_ok(), "key {:?}", wrong);
        assert_ne!(decoded.unwrap().plaintext, b"hello".to_vec(), "key {:?}", wrong);
    }
    // A key whose bytes differ only beyond the payload is no wrong key.
    let decoded = decode(encoded, &recover("keykeX", "xor", 989)).unwrap();
    assert_eq!(decoded.plaintext, b"hello".to_vec());
}

#[test]
fn an_empty_key_serves_where_no_payload_is_read() {
    let with_payload = encode(container(), &embed("hello", "key", "xor", 989)).unwrap();
    let without = encode(container(), &embed("", "", "xor", 989)).unwrap();

    let mut r = ByteReader::new(with_payload.clone());
    let mut m = MetaChunk::new(&mut r).unwrap();
    assert!(m.key_is_enough(&mut r, &recover("key", "xor", 989)));
    assert!(m.key_is_enough(&mut r, &recover("", "aes", 989)));
    assert!(m.key_is_enough(&mut r, &recover("", "rot13", 989)));
    assert!(!m.key_is_enough(&mut r, &recover("", "xor", 989)));
    assert!(!m.key_is_enough(&mut r, &recover("", "XOR", 500)));
    // The extraction fails before it reads a record: no key is asked for.
    assert!(m.key_is_enough(&mut r, &recover("", "xor", 3)));
    assert!(m.key_is_enough(&mut r, &recover("", "xor", 5000)));
    assert_eq!(r.position(), 8);
    assert_eq!(m.offset, 8);
    assert_eq!(m.chk.type_tag, 0);
    assert_eq!(m.chk.data, Vec::<u8>::new());

    let mut r = ByteReader::new(without.clone());
    let mut m = MetaChunk::new(&mut r).unwrap();
    assert!(m.key_is_enough(&mut r, &recover("", "xor", 989)));
    assert_eq!(r.position(), 8);

    // With a scan, the cursor is as it was afterwards, too.
    // The record that is read there declares no payload.
    let mut r = ByteReader::new(container());
    let mut m = MetaChunk::new(&mut r).unwrap();
    assert!(m.key_is_enough(&mut r, &recover("", "xor", AUTO_OFFSET as usize)));
    assert_eq!(m.chk.type_tag, 0);
    // Here it declares two bytes.
    let mut bytes = container();
    bytes[989] = 2;
    let mut r = ByteReader::new(bytes);
    let mut m = MetaChunk::new(&mut r).unwrap();
    m.chk.data = vec![1, 2, 3];
    m.chk.crc = 9;
    assert!(!m.key_is_enough(&mut r, &recover("", "xor", AUTO_OFFSET as usize)));
    assert_eq!((m.chk.size, m.chk.type_tag, m.chk.crc, m.offset), (0, 0, 9, 8));
    assert_eq!(m.chk.data, vec![1, 2, 3]);
    assert_eq!(r.position(), 8);
}

#[test]
fn an_extraction_is_not_tried_with_a_key_that_does_not_serve() {
    let encoded = encode(container(), &embed("hello", "key", "xor", 989)).unwrap();
    let mut r = ByteReader::new(encoded.clone());
    let mut m = MetaChunk::new(&mut r).unwrap();
    let mut w = vec![1, 2, 3];
    assert_eq!(m.try_write_decrypted_data(&mut r, &recover("", "xor", 989), &mut w), None);
    assert_eq!(w, vec![1, 2, 3]);
    assert_eq!(r.position(), 8);
    assert_eq!(m.chk.data, Vec::<u8>::new());
    let done = m.try_write_decrypted_data(&mut r, &recover("key", "xor", 989), &mut w);
    assert_eq!(done, Some(Ok(b"hello".to_vec())));
    assert_eq!(&w[..3], &[1, 2, 3]);
    assert_eq!(&w[3..11], &SIGNATURE);

    let mut r = ByteReader::new(encoded.clone());
    let mut m = MetaChunk::new(&mut r).unwrap();
    let mut w = Vec::new();
    assert_eq!(
        m.try_write_decrypted_data(&mut r, &recover("", "xor", 3), &mut w),
        Some(Err(SteganoError::InvalidOffset))
    );
    assert_eq!(
        m.try_write_decrypted_data(&mut r, &recover("", "des", 989), &mut w),
        Some(Err(SteganoError::UnsupportedAlgorithm))
    );
}

#[test]
fn decoding_is_not_tried_with_a_key_that_does_not_serve() {
    let encoded = encode(container(), &embed("hello", "key", "xor", 989)).unwrap();
    assert!(try_decode(encoded.clone(), &recover("", "xor", 989)).is_none());
    let done = try_decode(encoded.clone(), &recover("key", "xor", 989)).unwrap().unwrap();
    assert_eq!(done.plaintext, b"hello".to_vec());
    let direct = decode(encoded.clone(), &recover("key", "xor", 989)).unwrap();
    assert_eq!(done.output, direct.output);
    // Under the block cipher an empty key is a key of zeros.
    let sealed = encode(container(), &embed("hello", "", "aes", 989)).unwrap();
    let done = try_decode(sealed, &recover("", "aes", 989)).unwrap().unwrap();
    assert_eq!(done.plaintext, b"hello".to_vec());
    // A stream that does not open asks for no key.
    let done = try_decode(vec![1, 2, 3], &recover("", "xor", 989)).unwrap();
    assert_eq!(done.err(), Some(SteganoError::MalformedContainer));
    let empty = encode(container(), &embed("", "", "xor", 989)).unwrap();
    let done = try_decode(empty, &recover("", "xor", 989)).unwrap().unwrap();
    assert_eq!(done.plaintext, Vec::<u8>::new());
}
