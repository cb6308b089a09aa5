use stegano::cli::{ShowMetaCmd, AUTO_OFFSET};
use stegano::error::SteganoError;
use stegano::models::{Chunk, Header, MetaChunk, IEND_TAG};
use stegano::stream::ByteReader;

const SIGNATURE: [u8; 8] = [0x89, b'P', b'N', b'G', 0x0d, 0x0a, 0x1a, 0x0a];

fn record(tag: &[u8; 4], payload: &[u8], crc: u32) -> Vec<u8> {
    let mut bytes = (payload.len() as u32).to_be_bytes().to_vec();
    bytes.extend_from_slice(tag);
    bytes.extend_from_slice(payload);
    bytes.extend_from_slice(&crc.to_be_bytes());
    bytes
}

/// A signature, two records of 484 zero bytes each, and a terminal record at offset 1000.
fn container() -> Vec<u8> {
    let mut bytes = SIGNATURE.to_vec();
    bytes.extend(record(b"IHDR", &[0; 484], 0x1111_1111));
    bytes.extend(record(b"IDAT", &[0; 484], 0x2222_2222));
    assert_eq!(bytes.len(), 1000);
    bytes.extend(record(b"IEND", &[], 0xae42_6082));
    bytes
}

fn cursor() -> MetaChunk {
    MetaChunk {
        header: Header { header: 0 },
        chk: Chunk { size: 0, type_tag: 0, data: Vec::new(), crc: 0 },
        offset: 0,
    }
}

#[test]
fn reader_reads_in_order() {
    let mut r = ByteReader::new(vec![1, 2, 3, 4, 5]);
    assert_eq!(r.len(), 5);
    assert_eq!(r.position(), 0);
    assert_eq!(r.read_exact(2), Some(vec![1, 2]));
    assert_eq!(r.position(), 2);
    assert_eq!(r.read_exact(0), Some(vec![]));
    assert_eq!(r.read_exact(3), Some(vec![3, 4, 5]));
    assert_eq!(r.position(), 5);
    assert_eq!(r.read_exact(0), Some(vec![]));
    assert_eq!(r.read_exact(1), None);
}

#[test]
fn reader_consumes_the_rest_on_a_short_read() {
    let mut r = ByteReader::new(vec![1, 2, 3, 4, 5]);
    assert_eq!(r.read_exact(6), None);
    assert_eq!(r.position(), 5);
    assert_eq!(r.read_to_end(), Vec::<u8>::new());
}

#[test]
fn reader_gives_its_bytes_back() {
    let mut r = ByteReader::new(vec![1, 2, 3, 4, 5]);
    r.skip(3);
    assert_eq!(r.into_bytes(), vec![1, 2, 3, 4, 5]);
    assert_eq!(ByteReader::new(vec![]).into_bytes(), Vec::<u8>::new());
}

#[test]
fn reader_stops_at_the_end() {
    let mut r = ByteReader::new(vec![1, 2, 3, 4, 5]);
    r.skip(2);
    assert_eq!(r.position(), 2);
    r.skip(10);
    assert_eq!(r.position(), 5);
    r.seek(1);
    assert_eq!(r.read_to_end(), vec![2, 3, 4, 5]);
    assert_eq!(r.position(), 5);
    r.seek(usize::MAX);
    assert_eq!(r.position(), 5);
    r.seek(0);
    assert_eq!(r.position(), 0);
}

#[test]
fn opening_reads_the_signature() {
    let mut r = ByteReader::new(container());
    let m = MetaChunk::new(&mut r).unwrap();
    assert_eq!(m.header.header, u64::from_le_bytes(SIGNATURE));
    assert_eq!(m.header.header, 0x0a1a_0a0d_474e_5089);
    assert_eq!(m.offset, 8);
    assert_eq!(m.chk.size, 0);
    assert_eq!(m.chk.type_tag, 0);
    assert_eq!(m.chk.data, Vec::<u8>::new());
    assert_eq!(m.chk.crc, 0);
    assert_eq!(r.position(), 8);
}

#[test]
fn the_signature_is_written_as_it_was_read() {
    let mut r = ByteReader::new(container());
    let m = MetaChunk::new(&mut r).unwrap();
    let mut w = vec![7];
    m.header.write(&mut w);
    assert_eq!(w[0], 7);
    assert_eq!(&w[1..], &SIGNATURE);
    let mut w = Vec::new();
    Header { header: 0x8950_4e47_0d0a_1a0a }.write(&mut w);
    assert_eq!(w, vec![0x0a, 0x1a, 0x0a, 0x0d, 0x47, 0x4e, 0x50, 0x89]);
}

#[test]
fn opening_checks_only_the_three_letters() {
    let mut r = ByteReader::new(vec![0, b'P', b'N', b'G', 1, 2, 3, 4, 5]);
    assert!(MetaChunk::new(&mut r).is_ok());
    assert_eq!(r.position(), 8);
}

#[test]
fn opening_rejects_other_signatures() {
    let mut r = ByteReader::new(vec![0x89, b'P', b'N', b'H', 0x0d, 0x0a, 0x1a, 0x0a, 0]);
    assert_eq!(MetaChunk::new(&mut r).err(), Some(SteganoError::MalformedContainer));
    assert_eq!(r.position(), 8);
    let mut r = ByteReader::new(b"\xff\xd8\xff\xe0\x00\x10JFIF".to_vec());
    assert_eq!(MetaChunk::new(&mut r).err(), Some(SteganoError::MalformedContainer));
}

#[test]
fn opening_rejects_short_streams() {
    let mut r = ByteReader::new(vec![0x89, b'P', b'N', b'G', 0x0d, 0x0a, 0x1a]);
    assert_eq!(MetaChunk::new(&mut r).err(), Some(SteganoError::MalformedContainer));
    assert_eq!(r.position(), 7);
    let mut r = ByteReader::new(vec![]);
    assert_eq!(MetaChunk::new(&mut r).err(), Some(SteganoError::MalformedContainer));
}

#[test]
fn a_record_is_read_field_by_field() {
    let mut r = ByteReader::new(record(b"tEXt", b"hello", 0x0102_0304));
    let mut m = cursor();
    assert!(m.read_chunk(&mut r));
    assert_eq!(m.chk.size, 5);
    assert_eq!(m.chk.type_tag, u32::from_be_bytes(*b"tEXt"));
    assert_eq!(m.chk.data, b"hello".to_vec());
    assert_eq!(m.chk.crc, 0x0102_0304);
    assert_eq!(r.position(), 17);
    assert_eq!(m.offset, 0);
}

#[test]
fn a_long_record_is_read_whole() {
    let payload: Vec<u8> = (0..1000u32).map(|i| (i % 251) as u8).collect();
    let mut r = ByteReader::new(record(b"IDAT", &payload, 7));
    let mut m = cursor();
    assert!(m.read_chunk(&mut r));
    assert_eq!(m.chk.size, 1000);
    assert_eq!(m.chk.data, payload);
    assert_eq!(m.chk.crc, 7);
    assert_eq!(r.position(), 1012);
}

#[test]
fn a_truncated_payload_is_kept_and_the_length_is_not_corrected() {
    let mut bytes = record(b"tEXt", b"hello", 0x0102_0304);
    bytes.truncate(11);
    let mut r = ByteReader::new(bytes);
    let mut m = cursor();
    assert!(!m.read_chunk(&mut r));
    assert_eq!(m.chk.size, 5);
    assert_eq!(m.chk.type_tag, u32::from_be_bytes(*b"tEXt"));
    assert_eq!(m.chk.data, b"hel".to_vec());
    assert_eq!(m.chk.crc, 0);
    assert_eq!(r.position(), 11);
}

#[test]
fn a_truncated_checksum_is_zero() {
    let mut bytes = record(b"tEXt", b"hello", 0x0102_0304);
    bytes.truncate(15);
    let mut r = ByteReader::new(bytes);
    let mut m = cursor();
    m.chk.crc = 99;
    assert!(!m.read_chunk(&mut r));
    assert_eq!(m.chk.data, b"hello".to_vec());
    assert_eq!(m.chk.crc, 0);
    assert_eq!(r.position(), 15);
}

#[test]
fn a_read_at_the_end_leaves_the_length_and_clears_the_rest() {
    let mut r = ByteReader::new(vec![0, 0]);
    let mut m = cursor();
    m.chk = Chunk { size: 3, type_tag: IEND_TAG, data: vec![1, 2, 3], crc: 77 };
    assert!(!m.read_chunk(&mut r));
    assert_eq!(m.chk.size, 3);
    assert_eq!(m.chk.type_tag, 0);
    assert_eq!(m.chk.data, Vec::<u8>::new());
    assert_eq!(m.chk.crc, 0);
    assert_eq!(r.position(), 2);
}

#[test]
fn the_fields_can_be_read_one_by_one() {
    let mut r = ByteReader::new(record(b"tEXt", b"hello", 0x0102_0304));
    let mut m = cursor();
    assert!(m.read_chunk_size(&mut r));
    assert_eq!((m.chk.size, r.position()), (5, 4));
    assert!(m.read_chunk_type(&mut r));
    assert_eq!((m.chk.type_tag, r.position()), (0x7445_5874, 8));
    assert!(m.read_chunk_bytes(&mut r, 2));
    assert_eq!((m.chk.data.clone(), r.position()), (b"he".to_vec(), 10));
    assert!(m.read_chunk_crc(&mut r));
    assert_eq!((m.chk.crc, r.position()), (u32::from_be_bytes(*b"llo\x01"), 14));
    assert_eq!(m.get_offset(&r), 14);
    assert_eq!(m.offset, 14);
    assert_eq!(m.find_file_length(&r), 17);
    assert_eq!(r.position(), 14);
    assert!(!m.read_chunk_bytes(&mut r, 4));
    assert_eq!((m.chk.data.clone(), r.position()), (vec![2, 3, 4], 17));
    assert!(m.read_chunk_bytes(&mut r, 0));
    assert!(!m.read_chunk_size(&mut r));
    assert_eq!(m.chk.size, 5);
}

#[test]
fn a_record_is_marshalled_with_one_byte_for_its_length() {
    let mut m = cursor();
    m.chk = Chunk {
        size: 13,
        type_tag: 0x4949_4444,
        data: vec![1, 2, 3, 4, 5],
        crc: 0xabcd_ef01,
    };
    assert_eq!(
        m.marshal_data(),
        vec![5, 0x49, 0x49, 0x44, 0x44, 1, 2, 3, 4, 5, 0xab, 0xcd, 0xef, 0x01]
    );
}

#[test]
fn the_length_byte_holds_the_low_eight_bits() {
    let mut m = cursor();
    m.chk.data = vec![7; 300];
    let bytes = m.marshal_data();
    assert_eq!(bytes.len(), 309);
    assert_eq!(bytes[0], 44);
    m.chk.data = vec![];
    assert_eq!(m.marshal_data(), vec![0, 0, 0, 0, 0, 0, 0, 0, 0]);
}

#[test]
fn the_tag_as_text() {
    let mut m = cursor();
    m.chk.type_tag = IEND_TAG;
    assert_eq!(m.chunk_type_to_string(), "IEND");
    assert!(m.is_terminal());
    m.chk.type_tag = u32::from_be_bytes(*b"IHDR");
    assert_eq!(m.chunk_type_to_string(), "IHDR");
    assert!(!m.is_terminal());
    m.chk.type_tag = 0;
    assert_eq!(m.chunk_type_to_string(), "\0\0\0\0");
    m.chk.type_tag = 0x49ff_4e44;
    assert_eq!(m.chunk_type_to_string(), "I\u{fffd}ND");
    assert!(!m.is_terminal());
}

#[test]
fn the_scan_stops_at_the_terminal_record() {
    let mut r = ByteReader::new(container());
    let mut m = MetaChunk::new(&mut r).unwrap();
    assert_eq!(m.find_iend_offset(&mut r), Ok(989));
    assert_eq!(m.offset, 1000);
    assert_eq!(m.chk.type_tag, IEND_TAG);
    assert_eq!(m.chk.crc, 0xae42_6082);
    assert_eq!(m.chk.size, 0);
    assert_eq!(r.position(), 1012);
}

#[test]
fn the_scan_ends_with_the_stream_where_no_record_is_terminal() {
    let mut bytes = container();
    bytes.truncate(1000);
    let mut r = ByteReader::new(bytes);
    let mut m = MetaChunk::new(&mut r).unwrap();
    assert_eq!(m.find_iend_offset(&mut r), Ok(989));
    assert_eq!(m.offset, 1000);
    assert_eq!(m.chk.type_tag, 0);
    assert_eq!(r.position(), 1000);

    let mut bytes = container();
    bytes.truncate(700);
    let mut r = ByteReader::new(bytes);
    let mut m = MetaChunk::new(&mut r).unwrap();
    assert_eq!(m.find_iend_offset(&mut r), Ok(689));
    assert_eq!(m.chk.size, 484);
    assert_eq!(r.position(), 700);
}

#[test]
fn the_scan_needs_eleven_bytes_before_its_stop() {
    let mut bytes = SIGNATURE.to_vec();
    bytes.extend(record(b"IEND", &[], 0xae42_6082));
    let mut r = ByteReader::new(bytes);
    let mut m = MetaChunk::new(&mut r).unwrap();
    assert_eq!(m.find_iend_offset(&mut r), Err(SteganoError::InvalidOffset));

    let mut r = ByteReader::new(SIGNATURE.to_vec());
    let mut m = MetaChunk::new(&mut r).unwrap();
    assert_eq!(m.find_iend_offset(&mut r), Err(SteganoError::InvalidOffset));
    assert_eq!(m.offset, 8);

    let mut bytes = SIGNATURE.to_vec();
    bytes.extend_from_slice(&[0, 0, 0]);
    let mut r = ByteReader::new(bytes);
    let mut m = MetaChunk::new(&mut r).unwrap();
    assert_eq!(m.find_iend_offset(&mut r), Ok(0));
}

#[test]
fn resolving_leaves_the_read_position() {
    let mut r = ByteReader::new(container());
    let mut m = MetaChunk::new(&mut r).unwrap();
    assert_eq!(m.resolve_offset(&mut r, AUTO_OFFSET as usize), Ok(989));
    assert_eq!(r.position(), 8);
    assert_eq!(m.chk.type_tag, IEND_TAG);
    assert_eq!(m.resolve_offset(&mut r, 123), Ok(123));
    assert_eq!(r.position(), 8);
    assert_eq!(m.resolve_offset(&mut r, 0), Ok(0));
    assert_eq!(m.resolve_offset(&mut r, usize::MAX), Ok(usize::MAX));
}

#[test]
fn resolving_twice_gives_the_same_offset() {
    let mut r = ByteReader::new(container());
    let mut m = MetaChunk::new(&mut r).unwrap();
    let first = m.resolve_offset(&mut r, AUTO_OFFSET as usize);
    let second = m.resolve_offset(&mut r, AUTO_OFFSET as usize);
    assert_eq!(first, Ok(989));
    assert_eq!(first, second);

    // A stream that ends inside a record, read by cursors with different lengths in hand.
    let mut bytes = container();
    bytes.truncate(1003);
    let mut r = ByteReader::new(bytes);
    let mut m = MetaChunk::new(&mut r).unwrap();
    let first = m.resolve_offset(&mut r, AUTO_OFFSET as usize);
    m.chk.size = 999;
    let second = m.resolve_offset(&mut r, AUTO_OFFSET as usize);
    assert_eq!(first, Ok(992));
    assert_eq!(first, second);
}

fn show(start_chunk: usize, end_chunk: usize, nb_chunks: usize) -> ShowMetaCmd {
    ShowMetaCmd {
        input: String::new(),
        nb_chunks,
        start_chunk,
        end_chunk,
        suppress: true,
        file_type: String::from("PNG"),
    }
}

#[test]
fn a_walk_reports_each_record() {
    let mut r = ByteReader::new(container());
    let mut m = MetaChunk::new(&mut r).unwrap();
    let reports = m.process_image(&mut r, &show(8, 108, 100));
    assert_eq!(reports.len(), 3);
    assert_eq!(reports[0].number, 8);
    assert_eq!(reports[0].offset, 8);
    assert_eq!(reports[0].chunk.size, 484);
    assert_eq!(reports[0].chunk.type_tag, u32::from_be_bytes(*b"IHDR"));
    assert_eq!(reports[0].chunk.crc, 0x1111_1111);
    assert_eq!(reports[0].chunk.data, vec![0; 484]);
    assert!(reports[0].whole);
    assert_eq!(reports[1].number, 9);
    assert_eq!(reports[1].offset, 504);
    assert_eq!(reports[1].chunk.crc, 0x2222_2222);
    assert_eq!(reports[2].number, 10);
    assert_eq!(reports[2].offset, 1000);
    assert_eq!(reports[2].chunk.type_tag, IEND_TAG);
    assert_eq!(m.offset, 1012);
    assert_eq!(r.position(), 1012);
}

#[test]
fn a_walk_is_bounded() {
    let mut r = ByteReader::new(container());
    let mut m = MetaChunk::new(&mut r).unwrap();
    assert_eq!(m.process_image(&mut r, &show(8, 108, 2)).len(), 2);
    assert_eq!(r.position(), 1000);

    let mut r = ByteReader::new(container());
    let mut m = MetaChunk::new(&mut r).unwrap();
    assert_eq!(m.process_image(&mut r, &show(8, 9, 100)).len(), 1);

    let mut r = ByteReader::new(container());
    let mut m = MetaChunk::new(&mut r).unwrap();
    assert_eq!(m.process_image(&mut r, &show(8, 8, 100)).len(), 0);
    assert_eq!(m.process_image(&mut r, &show(9, 8, 100)).len(), 0);
    assert_eq!(m.process_image(&mut r, &show(8, 100, 0)).len(), 0);
}

#[test]
fn a_walk_past_the_end_ends_with_its_bound() {
    let mut bytes = container();
    bytes.truncate(1000);
    let mut r = ByteReader::new(bytes);
    let mut m = MetaChunk::new(&mut r).unwrap();
    let reports = m.process_image(&mut r, &show(8, 18, 100));
    assert_eq!(reports.len(), 10);
    assert_eq!(reports[2].offset, 1000);
    assert_eq!(reports[2].chunk.size, 484);
    assert_eq!(reports[2].chunk.type_tag, 0);
    assert_eq!(reports[2].chunk.data, Vec::<u8>::new());
    assert!(reports[1].whole);
    assert!(!reports[2].whole);
    assert_eq!(reports[9].offset, 1000);
}

#[test]
fn a_walk_starts_where_it_is_told() {
    let mut r = ByteReader::new(container());
    let mut m = MetaChunk::new(&mut r).unwrap();
    let reports = m.process_image(&mut r, &show(504, 600, 1));
    assert_eq!(reports.len(), 1);
    assert_eq!(reports[0].number, 504);
    assert_eq!(reports[0].offset, 504);
    assert_eq!(reports[0].chunk.type_tag, u32::from_be_bytes(*b"IDAT"));

    // A start within the signature leaves the offset of the cursor as it was.
    let mut r = ByteReader::new(container());
    let mut m = MetaChunk::new(&mut r).unwrap();
    let reports = m.process_image(&mut r, &show(0, 100, 1));
    assert_eq!(reports[0].number, 0);
    assert_eq!(reports[0].offset, 8);
    assert_eq!(reports[0].chunk.size, 0x8950_4e47);
}
