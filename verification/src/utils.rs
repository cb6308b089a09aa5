//! The two ciphers, and the byte helpers they share.

use aes::cipher::generic_array::GenericArray;
use aes::cipher::{BlockDecrypt, BlockEncrypt, KeyInit};
use aes::Aes128;
use vstd::prelude::*;
use vstd::slice::slice_subrange;
use vstd::string::StringSliceAdditionalSpecFns;

verus! {

/// The ciphers.
#[derive(Debug, Clone, Copy, PartialEq, Eq, Structural)]
pub enum Algorithm {
    /// AES-128 on blocks of sixteen bytes, each on its own, with zero padding.
    Aes,
    /// XOR with the bytes of the key, repeated as often as needed.
    Xor,
}

/// `b` as a lower-case letter where it is an upper-case ASCII letter, else `b`.
pub open spec fn ascii_lower(b: u8) -> u8 {
    if 0x41 <= b <= 0x5a {
        (b + 0x20) as u8
    } else {
        b
    }
}

/// Whether `name` is `word` but for the case of its ASCII letters. `word` is in lower case.
pub open spec fn spells(name: Seq<u8>, word: Seq<u8>) -> bool {
    name.len() == word.len() && forall|i: int|
        0 <= i < name.len() ==> ascii_lower(#[trigger] name[i]) == word[i]
}

/// The bytes of `aes`.
pub open spec fn aes_word() -> Seq<u8> {
    seq![0x61u8, 0x65u8, 0x73u8]
}

/// The bytes of `xor`.
pub open spec fn xor_word() -> Seq<u8> {
    seq![0x78u8, 0x6fu8, 0x72u8]
}

/// The cipher that `name` selects, if any: `aes` or `xor`, in any case of the letters.
pub open spec fn algorithm_named(name: Seq<u8>) -> Option<Algorithm> {
    if spells(name, aes_word()) {
        Some(Algorithm::Aes)
    } else if spells(name, xor_word()) {
        Some(Algorithm::Xor)
    } else {
        None
    }
}

fn to_ascii_lower(b: u8) -> (l: u8)
    ensures
        l == ascii_lower(b),
{
    if 0x41 <= b && b <= 0x5a {
        b + 0x20
    } else {
        b
    }
}

impl Algorithm {
    /// Finds the cipher that `name` selects.
    pub fn from_name(name: &str) -> (found: Option<Algorithm>)
        ensures
            found == algorithm_named(name.spec_bytes()),
    {
        let bytes = name.as_bytes();
        if bytes.len() != 3 {
            return None;
        }
        let b0: u8 = to_ascii_lower(bytes[0]);
        let b1: u8 = to_ascii_lower(bytes[1]);
        let b2: u8 = to_ascii_lower(bytes[2]);
        if b0 == 0x61 && b1 == 0x65 && b2 == 0x73 {
            Some(Algorithm::Aes)
        } else if b0 == 0x78 && b1 == 0x6f && b2 == 0x72 {
            Some(Algorithm::Xor)
        } else {
            None
        }
    }
}

/// The byte at position `i` of `input` under the cyclic XOR cipher with `key`.
pub open spec fn xor_byte(input: Seq<u8>, key: Seq<u8>, i: int) -> u8 {
    input[i] ^ key[i % (key.len() as int)]
}

/// `input` with each byte XORed with the key byte at the same position, the key repeated
/// as often as needed.
pub open spec fn xor_cipher(input: Seq<u8>, key: Seq<u8>) -> Seq<u8> {
    Seq::new(input.len(), |i: int| xor_byte(input, key, i))
}

/// Encrypts or decrypts `input` with the cyclic XOR cipher: the operation is its own
/// inverse.
///
/// A key without bytes can only be used on an input without bytes.
pub fn xor_encrypt_decrypt(input: &[u8], key: &str) -> (out: Vec<u8>)
    requires
        input@.len() > 0 ==> key.spec_bytes().len() > 0,
    ensures
        out@ == xor_cipher(input@, key.spec_bytes()),
{
    let key_bytes = key.as_bytes();
    let mut out: Vec<u8> = Vec::with_capacity(input.len());
    let mut i: usize = 0;
    while i < input.len()
        invariant
            i <= input@.len(),
            key_bytes@ == key.spec_bytes(),
            input@.len() > 0 ==> key_bytes@.len() > 0,
            out@.len() == i,
            forall|j: int| 0 <= j < i ==> out@[j] == xor_byte(input@, key_bytes@, j),
        decreases input@.len() - i,
    {
        out.push(input[i] ^ key_bytes[i % key_bytes.len()]);
        i += 1;
    }
    assert(out@ =~= xor_cipher(input@, key.spec_bytes()));
    out
}

/// The first sixteen bytes of `bytes`, with zeros where `bytes` has fewer.
pub open spec fn zero_padded_block(bytes: Seq<u8>) -> Seq<u8> {
    Seq::new(16, |i: int| if i < bytes.len() { bytes[i] } else { 0u8 })
}

/// Cuts `slice` to sixteen bytes, or fills it up to sixteen with zeros.
pub fn pad_with_zeros(slice: &[u8]) -> (block: [u8; 16])
    ensures
        block@ == zero_padded_block(slice@),
{
    let mut block: [u8; 16] = [0u8; 16];
    let mut i: usize = 0;
    while i < 16 && i < slice.len()
        invariant
            i <= 16,
            i <= slice@.len(),
            forall|j: int| 0 <= j < i ==> block@[j] == slice@[j],
            forall|j: int| i <= j < 16 ==> block@[j] == 0u8,
        decreases 16 - i,
    {
        block[i] = slice[i];
        i += 1;
    }
    assert(block@ =~= zero_padded_block(slice@));
    block
}

/// The number whose eight bytes, least significant first, are the first eight of `bytes`.
pub open spec fn le_value(bytes: Seq<u8>) -> u64 {
    (bytes[0] + 0x100 * (bytes[1] + 0x100 * (bytes[2] + 0x100 * (bytes[3] + 0x100 * (bytes[4]
        + 0x100 * (bytes[5] + 0x100 * (bytes[6] + 0x100 * bytes[7]))))))) as u64
}

/// The eight bytes of `value`, least significant first.
pub open spec fn le_bytes(value: u64) -> Seq<u8> {
    let v1 = value / 0x100;
    let v2 = v1 / 0x100;
    let v3 = v2 / 0x100;
    let v4 = v3 / 0x100;
    let v5 = v4 / 0x100;
    let v6 = v5 / 0x100;
    let v7 = v6 / 0x100;
    seq![
        (value % 0x100) as u8,
        (v1 % 0x100) as u8,
        (v2 % 0x100) as u8,
        (v3 % 0x100) as u8,
        (v4 % 0x100) as u8,
        (v5 % 0x100) as u8,
        (v6 % 0x100) as u8,
        (v7 % 0x100) as u8,
    ]
}

/// Eight bytes made into a number and split again are the same eight bytes.
pub proof fn lemma_le_bytes_of_value(bytes: Seq<u8>)
    requires
        bytes.len() == 8,
    ensures
        le_bytes(le_value(bytes)) == bytes,
{
    let w7: int = bytes[7] as int;
    let w6: int = bytes[6] + 0x100 * w7;
    let w5: int = bytes[5] + 0x100 * w6;
    let w4: int = bytes[4] + 0x100 * w5;
    let w3: int = bytes[3] + 0x100 * w4;
    let w2: int = bytes[2] + 0x100 * w3;
    let w1: int = bytes[1] + 0x100 * w2;
    let w0: int = bytes[0] + 0x100 * w1;
    assert(w0 == le_value(bytes));
    assert(w0 / 0x100 == w1 && w0 % 0x100 == bytes[0]);
    assert(w1 / 0x100 == w2 && w1 % 0x100 == bytes[1]);
    assert(w2 / 0x100 == w3 && w2 % 0x100 == bytes[2]);
    assert(w3 / 0x100 == w4 && w3 % 0x100 == bytes[3]);
    assert(w4 / 0x100 == w5 && w4 % 0x100 == bytes[4]);
    assert(w5 / 0x100 == w6 && w5 % 0x100 == bytes[5]);
    assert(w6 / 0x100 == w7 && w6 % 0x100 == bytes[6]);
    assert(le_bytes(le_value(bytes)) =~= bytes);
}

/// The eight bytes of `value`, least significant first.
pub fn u64_to_u8_array(value: u64) -> (bytes: [u8; 8])
    ensures
        bytes@ == le_bytes(value),
{
    let v1: u64 = value / 0x100;
    let v2: u64 = v1 / 0x100;
    let v3: u64 = v2 / 0x100;
    let v4: u64 = v3 / 0x100;
    let v5: u64 = v4 / 0x100;
    let v6: u64 = v5 / 0x100;
    let v7: u64 = v6 / 0x100;
    let bytes: [u8; 8] = [
        (value % 0x100) as u8,
        (v1 % 0x100) as u8,
        (v2 % 0x100) as u8,
        (v3 % 0x100) as u8,
        (v4 % 0x100) as u8,
        (v5 % 0x100) as u8,
        (v6 % 0x100) as u8,
        (v7 % 0x100) as u8,
    ];
    assert(bytes@ =~= le_bytes(value));
    bytes
}

/// `bytes` without the zeros at its end.
pub open spec fn trimmed(bytes: Seq<u8>) -> Seq<u8>
    decreases bytes.len(),
{
    if bytes.len() > 0 && bytes.last() == 0 {
        trimmed(bytes.drop_last())
    } else {
        bytes
    }
}

/// Removes the zeros at the end of `bytes`.
pub fn trim_trailing_zeros(bytes: Vec<u8>) -> (out: Vec<u8>)
    ensures
        out@ == trimmed(bytes@),
{
    let mut out = bytes;
    let mut n: usize = out.len();
    assert(bytes@.subrange(0, n as int) =~= bytes@);
    while n > 0 && out[n - 1] == 0
        invariant
            n <= bytes@.len(),
            out@ == bytes@,
            trimmed(bytes@) == trimmed(bytes@.subrange(0, n as int)),
        decreases n,
    {
        assert(bytes@.subrange(0, n as int).drop_last() =~= bytes@.subrange(0, n - 1));
        n -= 1;
    }
    out.truncate(n);
    out
}

/// What AES-128 makes of one block of sixteen bytes under a key of sixteen bytes.
pub uninterp spec fn aes128_block_encryption(key: Seq<u8>, block: Seq<u8>) -> [u8; 16];

/// What AES-128 recovers from one encrypted block of sixteen bytes under a key of sixteen
/// bytes.
pub uninterp spec fn aes128_block_decryption(key: Seq<u8>, block: Seq<u8>) -> [u8; 16];

/// Calls `Aes128::new` and `BlockEncrypt::encrypt_block` of the `aes` crate on a copy of
/// `block`. The contract only names the result: the encryption of the block under the
/// key, a function of these two.
#[verifier::external_body]
fn aes128_encrypt_block(key: &[u8; 16], block: &[u8; 16]) -> (out: [u8; 16])
    ensures
        out == aes128_block_encryption(key@, block@),
{
    let cipher = Aes128::new(GenericArray::from_slice(key));
    let mut buffer = GenericArray::clone_from_slice(block);
    cipher.encrypt_block(&mut buffer);
    buffer.into()
}

/// Calls `Aes128::new` and `BlockDecrypt::decrypt_block` of the `aes` crate on a copy of
/// `block`. The contract names the result and adds what the crate documents of the pair:
/// decrypting what `encrypt_block` made of a block under the same key gives that block.
#[verifier::external_body]
fn aes128_decrypt_block(key: &[u8; 16], block: &[u8; 16]) -> (out: [u8; 16])
    ensures
        out == aes128_block_decryption(key@, block@),
        forall|plain: Seq<u8>|
            plain.len() == 16 && (#[trigger] aes128_block_encryption(key@, plain))@ == block@
                ==> out@ == plain,
{
    let cipher = Aes128::new(GenericArray::from_slice(key));
    let mut buffer = GenericArray::clone_from_slice(block);
    cipher.decrypt_block(&mut buffer);
    buffer.into()
}

/// The `i`-th stretch of sixteen bytes of `data`.
pub open spec fn block_of(data: Seq<u8>, i: int) -> Seq<u8> {
    data.subrange(16 * i, 16 * i + 16)
}

/// The `i`-th block of `data` as it is encrypted: sixteen bytes, with zeros where `data`
/// ends before the block does.
pub open spec fn padded_block_of(data: Seq<u8>, i: int) -> Seq<u8> {
    Seq::new(
        16,
        |j: int|
            if 16 * i + j < data.len() {
                data[16 * i + j]
            } else {
                0u8
            },
    )
}

/// How many blocks a payload of `len` bytes takes: as many as hold it, and one where it
/// is empty.
pub open spec fn block_count(len: int) -> int {
    if len <= 16 {
        1
    } else {
        (len + 15) / 16
    }
}

/// The first `n` blocks of `data`, each zero-padded to sixteen bytes and encrypted under
/// `key`, one after the other.
pub open spec fn aes_blocks_encrypted(key: Seq<u8>, data: Seq<u8>, n: nat) -> Seq<u8>
    decreases n,
{
    if n == 0 {
        Seq::empty()
    } else {
        aes_blocks_encrypted(key, data, (n - 1) as nat) + aes128_block_encryption(
            key,
            padded_block_of(data, n - 1),
        )@
    }
}

/// The first `n` blocks of `data`, each decrypted under `key`, one after the other.
pub open spec fn aes_blocks_decrypted(key: Seq<u8>, data: Seq<u8>, n: nat) -> Seq<u8>
    decreases n,
{
    if n == 0 {
        Seq::empty()
    } else {
        aes_blocks_decrypted(key, data, (n - 1) as nat) + aes128_block_decryption(
            key,
            block_of(data, n - 1),
        )@
    }
}

/// The ciphertext of `payload` under the block cipher. The key is cut or zero-padded to
/// sixteen bytes. The payload is encrypted in blocks of sixteen bytes, the last of them
/// zero-padded; an empty payload is one block of zeros.
pub open spec fn aes_ciphertext(key: Seq<u8>, payload: Seq<u8>) -> Seq<u8> {
    aes_blocks_encrypted(
        zero_padded_block(key),
        payload,
        block_count(payload.len() as int) as nat,
    )
}

/// What decrypting `data` under the block cipher gives: its whole blocks, decrypted; the
/// bytes after the last whole block are left out.
pub open spec fn aes_plaintext(key: Seq<u8>, data: Seq<u8>) -> Seq<u8> {
    aes_blocks_decrypted(zero_padded_block(key), data, data.len() / 16)
}

/// What the ciphertext of `payload` holds: the payload, zero-padded to whole blocks.
pub open spec fn aes_carried(payload: Seq<u8>) -> Seq<u8> {
    Seq::new(
        (16 * block_count(payload.len() as int)) as nat,
        |j: int|
            if j < payload.len() {
                payload[j]
            } else {
                0u8
            },
    )
}

/// `n` encrypted blocks take `16 * n` bytes, and the `i`-th of them is the encryption of
/// the `i`-th block of the data, zero-padded.
pub proof fn lemma_aes_blocks_encrypted(key: Seq<u8>, data: Seq<u8>, n: nat)
    ensures
        aes_blocks_encrypted(key, data, n).len() == 16 * n,
        forall|i: int|
            0 <= i < n ==> #[trigger] block_of(aes_blocks_encrypted(key, data, n), i)
                == aes128_block_encryption(key, padded_block_of(data, i))@,
    decreases n,
{
    if n > 0 {
        let head = aes_blocks_encrypted(key, data, (n - 1) as nat);
        let last = aes128_block_encryption(key, padded_block_of(data, n - 1))@;
        lemma_aes_blocks_encrypted(key, data, (n - 1) as nat);
        assert forall|i: int| 0 <= i < n implies #[trigger] block_of(head + last, i)
            == aes128_block_encryption(key, padded_block_of(data, i))@ by {
            if i < n - 1 {
                assert(block_of(head + last, i) =~= block_of(head, i));
            } else {
                assert(block_of(head + last, i) =~= last);
            }
        }
    }
}

/// The ciphertext of a payload of `n` bytes takes sixteen bytes for each of its blocks:
/// `16 * max(1, ceil(n / 16))`, which is no less than the payload takes.
pub proof fn lemma_aes_ciphertext_len(key: Seq<u8>, payload: Seq<u8>)
    ensures
        aes_ciphertext(key, payload).len() == 16 * block_count(payload.len() as int),
        aes_ciphertext(key, payload).len() >= payload.len(),
        aes_ciphertext(key, payload).len() >= 16,
        aes_ciphertext(key, payload).len() < payload.len() + 16 || payload.len() == 0,
{
    lemma_aes_blocks_encrypted(
        zero_padded_block(key),
        payload,
        block_count(payload.len() as int) as nat,
    );
}

/// How many blocks a payload of `len` bytes takes.
fn blocks_for(len: usize) -> (blocks: usize)
    ensures
        blocks == block_count(len as int),
        blocks >= 1,
        16 * (blocks - 1) <= len,
{
    if len <= 16 {
        1
    } else if len % 16 == 0 {
        len / 16
    } else {
        len / 16 + 1
    }
}

/// Encrypts `payload` with AES-128, each block on its own, under `key` cut or zero-padded
/// to sixteen bytes.
///
/// The payload is taken in blocks of sixteen bytes, and the last block is zero-padded. An
/// empty payload is encrypted as one block of zeros. The result has sixteen bytes for each
/// block: it is never shorter than the payload.
pub fn encrypt_payload(key: &str, payload: &str) -> (out: Vec<u8>)
    ensures
        out@ == aes_ciphertext(key.spec_bytes(), payload.spec_bytes()),
        out@.len() == 16 * block_count(payload.spec_bytes().len() as int),
{
    let key_block: [u8; 16] = pad_with_zeros(key.as_bytes());
    let bytes = payload.as_bytes();
    let len: usize = bytes.len();
    let blocks: usize = blocks_for(len);
    let mut out: Vec<u8> = Vec::new();
    let mut i: usize = 0;
    while i < blocks
        invariant
            i <= blocks,
            len == bytes@.len(),
            blocks == block_count(len as int),
            16 * (blocks - 1) <= len,
            key_block@ == zero_padded_block(key.spec_bytes()),
            out@ == aes_blocks_encrypted(key_block@, bytes@, i as nat),
        decreases blocks - i,
    {
        let start: usize = 16 * i;
        let end: usize = if len - start >= 16 {
            start + 16
        } else {
            len
        };
        let chunk = slice_subrange(bytes, start, end);
        let block: [u8; 16] = pad_with_zeros(chunk);
        assert(block@ =~= padded_block_of(bytes@, i as int));
        let encrypted: [u8; 16] = aes128_encrypt_block(&key_block, &block);
        out.extend_from_slice(encrypted.as_slice());
        i += 1;
    }
    proof {
        lemma_aes_ciphertext_len(key.spec_bytes(), payload.spec_bytes());
    }
    out
}

/// Decrypts `data` with AES-128, each block on its own, under `key` cut or zero-padded to
/// sixteen bytes. Bytes after the last whole block are left out.
///
/// Where `data` is the ciphertext that [`encrypt_payload`] makes of a payload under the
/// same key, the result is that payload, zero-padded to whole blocks: with the zeros at
/// its end removed it is the payload, unless the payload ends in a zero itself.
pub fn decrypt_data(key: &str, data: &[u8]) -> (out: Vec<u8>)
    ensures
        out@ == aes_plaintext(key.spec_bytes(), data@),
        forall|payload: Seq<u8>|
            data@ == #[trigger] aes_ciphertext(key.spec_bytes(), payload) ==> out@ == aes_carried(
                payload,
            ) && (survives(payload) ==> trimmed(out@) == payload),
{
    let key_block: [u8; 16] = pad_with_zeros(key.as_bytes());
    let blocks: usize = data.len() / 16;
    let mut out: Vec<u8> = Vec::new();
    let mut i: usize = 0;
    while i < blocks
        invariant
            i <= blocks,
            blocks == data@.len() / 16,
            16 * blocks <= data@.len() <= usize::MAX,
            key_block@ == zero_padded_block(key.spec_bytes()),
            out@ == aes_blocks_decrypted(key_block@, data@, i as nat),
            out@.len() == 16 * i,
            forall|payload: Seq<u8>|
                data@ == #[trigger] aes_ciphertext(key.spec_bytes(), payload) ==> out@
                    == aes_carried(payload).subrange(0, 16 * i),
        decreases blocks - i,
    {
        let chunk = slice_subrange(data, 16 * i, 16 * i + 16);
        let block: [u8; 16] = pad_with_zeros(chunk);
        assert(block@ =~= block_of(data@, i as int));
        let decrypted: [u8; 16] = aes128_decrypt_block(&key_block, &block);
        out.extend_from_slice(decrypted.as_slice());
        assert forall|payload: Seq<u8>|
            data@ == #[trigger] aes_ciphertext(key.spec_bytes(), payload) implies out@
            == aes_carried(payload).subrange(0, 16 * (i + 1)) by {
            let carried = aes_carried(payload);
            let n = block_count(payload.len() as int) as nat;
            lemma_aes_blocks_encrypted(key_block@, payload, n);
            assert(block_of(data@, i as int) == aes128_block_encryption(
                key_block@,
                padded_block_of(payload, i as int),
            )@);
            assert(decrypted@ == padded_block_of(payload, i as int));
            assert(out@ =~= carried.subrange(0, 16 * (i + 1)));
        }
        i += 1;
    }
    proof {
        assert forall|payload: Seq<u8>|
            data@ == #[trigger] aes_ciphertext(key.spec_bytes(), payload) implies out@
            == aes_carried(payload) && (survives(payload) ==> trimmed(out@) == payload) by {
            let carried = aes_carried(payload);
            lemma_aes_blocks_encrypted(
                key_block@,
                payload,
                block_count(payload.len() as int) as nat,
            );
            assert(carried.subrange(0, 16 * i) =~= carried);
            if survives(payload) {
                lemma_survivor_comes_back(Algorithm::Aes, payload);
            }
        }
    }
    out
}

/// The ciphertext of `payload` under `algorithm` and `key`.
pub open spec fn ciphertext(algorithm: Algorithm, key: Seq<u8>, payload: Seq<u8>) -> Seq<u8> {
    match algorithm {
        Algorithm::Aes => aes_ciphertext(key, payload),
        Algorithm::Xor => xor_cipher(payload, key),
    }
}

/// What decrypting `data` under `algorithm` and `key` gives.
pub open spec fn plaintext(algorithm: Algorithm, key: Seq<u8>, data: Seq<u8>) -> Seq<u8> {
    match algorithm {
        Algorithm::Aes => aes_plaintext(key, data),
        Algorithm::Xor => xor_cipher(data, key),
    }
}

/// What the ciphertext of `payload` under `algorithm` carries of it: under XOR the payload,
/// under the block cipher the payload zero-padded to whole blocks.
pub open spec fn carried(algorithm: Algorithm, payload: Seq<u8>) -> Seq<u8> {
    match algorithm {
        Algorithm::Aes => aes_carried(payload),
        Algorithm::Xor => payload,
    }
}

/// Whether `payload` comes back whole from its ciphertext: it does not end in a zero, which
/// an extraction would take for padding.
pub open spec fn survives(payload: Seq<u8>) -> bool {
    payload.len() == 0 || payload.last() != 0
}

/// Zeros added at the end of `bytes` are trimmed away again.
pub proof fn lemma_trimmed_padding(bytes: Seq<u8>, zeros: nat)
    ensures
        trimmed(bytes + Seq::new(zeros, |i: int| 0u8)) == trimmed(bytes),
    decreases zeros,
{
    let padded = bytes + Seq::new(zeros, |i: int| 0u8);
    if zeros == 0 {
        assert(padded =~= bytes);
    } else {
        assert(padded.drop_last() =~= bytes + Seq::new((zeros - 1) as nat, |i: int| 0u8));
        lemma_trimmed_padding(bytes, (zeros - 1) as nat);
    }
}

/// A payload that survives comes back from what its ciphertext carries, once the zeros at
/// the end are removed: under either cipher, whatever its length.
pub proof fn lemma_survivor_comes_back(algorithm: Algorithm, payload: Seq<u8>)
    requires
        survives(payload),
    ensures
        trimmed(carried(algorithm, payload)) == payload,
{
    if algorithm == Algorithm::Aes {
        let zeros = (16 * block_count(payload.len() as int) - payload.len()) as nat;
        assert(aes_carried(payload) =~= payload + Seq::new(zeros, |i: int| 0u8));
        lemma_trimmed_padding(payload, zeros);
    }
}

/// Whether `key` can be used under `algorithm` on an input of `len` bytes: XOR has no
/// key byte to give to a byte of the input where the key is empty.
pub open spec fn key_fits(algorithm: Algorithm, key: Seq<u8>, len: nat) -> bool {
    algorithm == Algorithm::Xor && len > 0 ==> key.len() > 0
}

/// Encrypts `payload` under `algorithm` and `key`.
pub fn encrypt(algorithm: Algorithm, key: &str, payload: &str) -> (out: Vec<u8>)
    requires
        key_fits(algorithm, key.spec_bytes(), payload.spec_bytes().len()),
    ensures
        out@ == ciphertext(algorithm, key.spec_bytes(), payload.spec_bytes()),
{
    match algorithm {
        Algorithm::Aes => encrypt_payload(key, payload),
        Algorithm::Xor => xor_encrypt_decrypt(payload.as_bytes(), key),
    }
}

/// Decrypts `data` under `algorithm` and `key`.
///
/// Where `data` is the ciphertext of a payload under the same cipher and key, the result
/// is what the ciphertext carries of that payload.
pub fn decrypt(algorithm: Algorithm, key: &str, data: &[u8]) -> (out: Vec<u8>)
    requires
        key_fits(algorithm, key.spec_bytes(), data@.len()),
    ensures
        out@ == plaintext(algorithm, key.spec_bytes(), data@),
        forall|payload: Seq<u8>|
            data@ == #[trigger] ciphertext(algorithm, key.spec_bytes(), payload) ==> out@
                == carried(algorithm, payload),
{
    match algorithm {
        Algorithm::Aes => decrypt_data(key, data),
        Algorithm::Xor => {
            let out = xor_encrypt_decrypt(data, key);
            proof {
                assert forall|payload: Seq<u8>|
                    data@ == #[trigger] ciphertext(
                        algorithm,
                        key.spec_bytes(),
                        payload,
                    ) implies out@ == payload by {
                    lemma_xor_twice(payload, key.spec_bytes());
                }
            }
            out
        },
    }
}

/// The XOR cipher undoes itself: applied twice under one key, it gives the input back.
pub proof fn lemma_xor_twice(input: Seq<u8>, key: Seq<u8>)
    ensures
        xor_cipher(xor_cipher(input, key), key) == input,
{
    let once = xor_cipher(input, key);
    assert forall|i: int| 0 <= i < input.len() implies xor_cipher(once, key)[i] == input[i] by {
        let a: u8 = input[i];
        let k: u8 = key[i % (key.len() as int)];
        assert(once[i] == a ^ k);
        assert((a ^ k) ^ k == a) by (bit_vector);
    }
    assert(xor_cipher(once, key) =~= input);
}

/// One row of a hex dump.
#[derive(Debug)]
pub struct HexRow {
    /// The address of the first byte of the row.
    pub address: u64,
    /// The bytes of the row, at most twenty.
    pub bytes: Vec<u8>,
    /// The bytes as text: a full stop for each that is no visible ASCII character.
    pub text: Vec<u8>,
}

/// How many bytes a row of a hex dump holds.
pub const HEX_ROW_LEN: usize = 20;

/// `byte` where it is a visible ASCII character, else a full stop.
pub open spec fn printable(byte: u8) -> u8 {
    if 0x21 <= byte <= 0x7e {
        byte
    } else {
        0x2e
    }
}

/// Where row `i` of a dump of `len` bytes ends.
pub open spec fn row_end(len: int, i: int) -> int {
    if 20 * i + 20 <= len {
        20 * i + 20
    } else {
        len
    }
}

/// Whether `row` is row `i` of the dump of `data` from the address `offset`.
pub open spec fn is_hex_row(row: HexRow, data: Seq<u8>, offset: u64, i: int) -> bool {
    &&& row.address == offset + 20 * i
    &&& row.bytes@ == data.subrange(20 * i, row_end(data.len() as int, i))
    &&& row.text@ == row.bytes@.map_values(|b: u8| printable(b))
}

/// Lays `data` out for a hex dump: rows of twenty bytes, each with its address, counted
/// from `offset`, and with its bytes as text.
pub fn hex_rows(data: &[u8], offset: u64) -> (rows: Vec<HexRow>)
    requires
        offset + data@.len() <= u64::MAX,
    ensures
        rows@.len() == (data@.len() + 19) / 20,
        forall|i: int| 0 <= i < rows@.len() ==> is_hex_row(#[trigger] rows@[i], data@, offset, i),
{
    let len: usize = data.len();
    let mut rows: Vec<HexRow> = Vec::new();
    let mut start: usize = 0;
    while start < len
        invariant
            start <= len,
            len == data@.len(),
            offset + len <= u64::MAX,
            start < len ==> start == 20 * rows@.len(),
            start == len ==> rows@.len() == (len + 19) / 20,
            forall|i: int|
                0 <= i < rows@.len() ==> is_hex_row(#[trigger] rows@[i], data@, offset, i),
        decreases len - start,
    {
        let end: usize = if len - start >= HEX_ROW_LEN {
            start + HEX_ROW_LEN
        } else {
            len
        };
        let mut bytes: Vec<u8> = Vec::with_capacity(HEX_ROW_LEN);
        let mut text: Vec<u8> = Vec::with_capacity(HEX_ROW_LEN);
        let mut j: usize = start;
        while j < end
            invariant
                start <= j <= end <= data@.len(),
                bytes@ == data@.subrange(start as int, j as int),
                text@ == bytes@.map_values(|b: u8| printable(b)),
            decreases end - j,
        {
            let b: u8 = data[j];
            bytes.push(b);
            text.push(
                if 0x21 <= b && b <= 0x7e {
                    b
                } else {
                    0x2e
                },
            );
            j += 1;
            assert(bytes@ =~= data@.subrange(start as int, j as int));
            assert(text@ =~= bytes@.map_values(|b: u8| printable(b)));
        }
        let ghost i = rows@.len() as int;
        let row = HexRow { address: offset + start as u64, bytes, text };
        assert(is_hex_row(row, data@, offset, i));
        rows.push(row);
        start = end;
    }
    rows
}

} // verus!
