use stegano::utils::{
    decrypt, decrypt_data, encrypt, encrypt_payload, pad_with_zeros, trim_trailing_zeros,
    u64_to_u8_array, xor_encrypt_decrypt, Algorithm,
};

#[test]
fn xor_is_its_own_inverse() {
    let input = b"Hello, World!";
    let key = "secret_key";
    let encrypted = xor_encrypt_decrypt(input, key);
    let decrypted = xor_encrypt_decrypt(&encrypted, key);
    assert_eq!(input, decrypted.as_slice());
}

#[test]
fn xor_repeats_the_key() {
    let encrypted = xor_encrypt_decrypt(b"hello", "key");
    assert_eq!(encrypted, vec![b'h' ^ b'k', b'e' ^ b'e', b'l' ^ b'y', b'l' ^ b'k', b'o' ^ b'e']);
    assert_eq!(encrypted, vec![3, 0, 21, 7, 10]);
}

#[test]
fn xor_of_nothing_needs_no_key() {
    assert_eq!(xor_encrypt_decrypt(b"", ""), Vec::<u8>::new());
}

#[test]
fn pad_with_zeros_fills_a_short_slice() {
    let input_slice: &[u8] = &[1, 2, 3, 4, 5];
    let padded_array: [u8; 16] = pad_with_zeros(input_slice);
    assert_eq!(padded_array, [1, 2, 3, 4, 5, 0, 0, 0, 0, 0, 0, 0, 0, 0, 0, 0]);
}

#[test]
fn pad_with_zeros_cuts_a_long_slice() {
    let input: Vec<u8> = (1..=20).collect();
    let padded = pad_with_zeros(&input);
    assert_eq!(padded.to_vec(), (1..=16).collect::<Vec<u8>>());
    assert_eq!(pad_with_zeros(&[]), [0u8; 16]);
}

#[test]
fn u64_to_u8_array_is_little_endian() {
    let value = 1234567890u64;
    assert_eq!(u64_to_u8_array(value), value.to_le_bytes());
    assert_eq!(
        u64_to_u8_array(0x0a1a_0a0d_474e_5089),
        [0x89, 0x50, 0x4e, 0x47, 0x0d, 0x0a, 0x1a, 0x0a]
    );
    assert_eq!(u64_to_u8_array(u64::MAX), [0xff; 8]);
}

#[test]
fn aes_encrypts_one_padded_block() {
    let encrypted = encrypt_payload("key", "hello");
    assert_eq!(
        encrypted,
        vec![
            0xf6, 0xd6, 0x85, 0x99, 0x47, 0xbe, 0x71, 0xb8, 0xe4, 0xf1, 0xb2, 0x28, 0x06, 0xbf,
            0x73, 0x2b
        ]
    );
}

#[test]
fn aes_decrypts_one_block() {
    let block = [
        0xf6, 0xd6, 0x85, 0x99, 0x47, 0xbe, 0x71, 0xb8, 0xe4, 0xf1, 0xb2, 0x28, 0x06, 0xbf, 0x73,
        0x2b,
    ];
    let decrypted = decrypt_data("key", &block);
    assert_eq!(decrypted, b"hello\0\0\0\0\0\0\0\0\0\0\0".to_vec());
}

#[test]
fn aes_pads_the_last_block_with_zeros() {
    let key = "secret_key";
    let payload = "confidential_data";
    let encrypted_data = encrypt_payload(key, payload);
    assert_eq!(encrypted_data.len(), 32);
    assert_eq!(
        encrypted_data,
        vec![
            0xf2, 0x95, 0x26, 0x35, 0x00, 0x0f, 0x9d, 0xda, 0x97, 0x98, 0x26, 0xd7, 0x26, 0xef,
            0x1d, 0xc5, 0x20, 0x8a, 0xc7, 0x8e, 0x91, 0xf5, 0x75, 0x12, 0xa9, 0xd6, 0xc4, 0x89,
            0x07, 0x77, 0x02, 0x38
        ]
    );
    let mut padded = payload.as_bytes().to_vec();
    padded.extend_from_slice(&[0; 15]);
    assert_eq!(decrypt_data(key, &encrypted_data), padded);
    assert_eq!(trim_trailing_zeros(decrypt_data(key, &encrypted_data)), payload.as_bytes());
}

#[test]
fn aes_ciphertext_takes_sixteen_bytes_for_each_block() {
    for (n, blocks) in [(0, 1), (1, 1), (15, 1), (16, 1), (17, 2), (31, 2), (32, 2), (33, 3), (240, 15), (241, 16)] {
        let payload = "x".repeat(n);
        let sealed = encrypt_payload("key", &payload);
        assert_eq!(sealed.len(), 16 * blocks, "payload of {} bytes", n);
        let mut carried = payload.as_bytes().to_vec();
        carried.resize(16 * blocks, 0);
        assert_eq!(decrypt_data("key", &sealed), carried, "payload of {} bytes", n);
        assert_eq!(trim_trailing_zeros(decrypt_data("key", &sealed)), payload.as_bytes());
    }
}

#[test]
fn aes_encrypts_an_empty_payload_as_one_block_of_zeros() {
    assert_eq!(
        encrypt_payload("key", ""),
        vec![
            0x83, 0xd9, 0x96, 0x17, 0x39, 0xb8, 0x7f, 0x2e, 0xd6, 0xc2, 0x12, 0x01, 0x2a, 0x91,
            0xb8, 0x39
        ]
    );
    assert_eq!(decrypt_data("key", &encrypt_payload("key", "")), vec![0; 16]);
}

#[test]
fn aes_decrypts_whole_blocks_only() {
    let key = "secret_key";
    let encrypted_data: Vec<u8> = vec![1, 2, 3, 4, 5, 0, 0, 0, 0, 2, 3, 0, 0, 5, 0, 7];
    let decrypted_data = decrypt_data(key, &encrypted_data);
    assert_eq!(decrypted_data.len(), 16);
    assert_eq!(decrypt_data(key, &encrypted_data[..15]).len(), 0);
    let mut longer = encrypted_data.clone();
    longer.extend_from_slice(&[9; 20]);
    assert_eq!(decrypt_data(key, &longer).len(), 32);
}

#[test]
fn aes_round_trip_over_several_blocks() {
    let payload = "0123456789abcdef0123456789ABCDEF";
    let encrypted = encrypt_payload("a key that is longer than sixteen bytes", payload);
    assert_eq!(encrypted.len(), 32);
    assert_ne!(encrypted, payload.as_bytes().to_vec());
    let decrypted = decrypt_data("a key that is longer than sixteen bytes", &encrypted);
    assert_eq!(decrypted, payload.as_bytes().to_vec());
    // Only the first sixteen bytes of the key count.
    assert_eq!(decrypt_data("a key that is lo", &encrypted), payload.as_bytes().to_vec());
}

#[test]
fn algorithm_names_ignore_case() {
    assert_eq!(Algorithm::from_name("aes"), Some(Algorithm::Aes));
    assert_eq!(Algorithm::from_name("AES"), Some(Algorithm::Aes));
    assert_eq!(Algorithm::from_name("Aes"), Some(Algorithm::Aes));
    assert_eq!(Algorithm::from_name("xor"), Some(Algorithm::Xor));
    assert_eq!(Algorithm::from_name("XoR"), Some(Algorithm::Xor));
    assert_eq!(Algorithm::from_name(""), None);
    assert_eq!(Algorithm::from_name("des"), None);
    assert_eq!(Algorithm::from_name("aes "), None);
    assert_eq!(Algorithm::from_name("xo"), None);
    assert_eq!(Algorithm::from_name("Ães"), None);
}

#[test]
fn encrypt_and_decrypt_dispatch_on_the_algorithm() {
    assert_eq!(encrypt(Algorithm::Xor, "key", "hello"), vec![3, 0, 21, 7, 10]);
    assert_eq!(encrypt(Algorithm::Aes, "key", "hello"), encrypt_payload("key", "hello"));
    assert_eq!(decrypt(Algorithm::Xor, "key", &[3, 0, 21, 7, 10]), b"hello".to_vec());
    let sealed = encrypt(Algorithm::Aes, "key", "hello");
    assert_eq!(trim_trailing_zeros(decrypt(Algorithm::Aes, "key", &sealed)), b"hello".to_vec());
}

#[test]
fn trimming_removes_only_the_zeros_at_the_end() {
    assert_eq!(trim_trailing_zeros(vec![1, 0, 2, 0, 0]), vec![1, 0, 2]);
    assert_eq!(trim_trailing_zeros(vec![0, 0, 0]), Vec::<u8>::new());
    assert_eq!(trim_trailing_zeros(vec![]), Vec::<u8>::new());
    assert_eq!(trim_trailing_zeros(vec![0, 7]), vec![0, 7]);
}
