use stegano::checksum::{checksum, u32_from_be_bytes, u32_to_be_bytes};

#[test]
fn checksum_of_the_terminal_record() {
    // The checksum that every terminal record of a PNG file carries.
    assert_eq!(checksum(0, 0x4945_4e44, &[]), 0xae42_6082);
}

#[test]
fn checksum_runs_over_tag_then_payload() {
    // CRC-32 of "123456789": the tag holds the first four bytes, the payload the rest.
    assert_eq!(checksum(0, 0x3132_3334, b"56789"), 0xcbf4_3926);
}

#[test]
fn checksum_of_a_record_without_tag() {
    assert_eq!(checksum(0, 0, &[3, 0, 21, 7, 10]), 0x14d0_703c);
}

#[test]
fn checksum_continues_from_its_seed() {
    assert_eq!(checksum(0xae42_6082, 0x4945_4e44, &[3, 0, 21, 7, 10]), 0xefab_d30b);
    assert_ne!(
        checksum(0xae42_6082, 0x4945_4e44, &[3, 0, 21, 7, 10]),
        checksum(0, 0x4945_4e44, &[3, 0, 21, 7, 10])
    );
}

#[test]
fn checksum_is_a_function_of_its_arguments() {
    let payload: Vec<u8> = (0..=255).collect();
    let first = checksum(17, 0x7465_5874, &payload);
    let second = checksum(17, 0x7465_5874, &payload.clone());
    assert_eq!(first, second);
}

#[test]
fn big_endian_fields() {
    assert_eq!(u32_to_be_bytes(0x4945_4e44), *b"IEND");
    assert_eq!(u32_to_be_bytes(0), [0, 0, 0, 0]);
    assert_eq!(u32_to_be_bytes(u32::MAX), [0xff; 4]);
    assert_eq!(u32_from_be_bytes(b"xxIENDyy", 2), 0x4945_4e44);
    assert_eq!(u32_from_be_bytes(&[0, 0, 1, 0xe4], 0), 484);
    assert_eq!(u32_from_be_bytes(&u32_to_be_bytes(0xdead_beef), 0), 0xdead_beef);
}
