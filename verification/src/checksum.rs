//! The integrity value of a record.

use vstd::prelude::*;

verus! {

/// The CRC-32 of `bytes`, computed onward from the running value `seed`.
pub uninterp spec fn crc32_continued(seed: u32, bytes: Seq<u8>) -> u32;

/// Calls `crc32_v2::byfour::crc32_little`. The contract only names what it returns: the
/// CRC-32 of `bytes` continued from `seed`, a function of the two arguments.
#[verifier::external_body]
fn crc32_little_of(seed: u32, bytes: &[u8]) -> (crc: u32)
    ensures
        crc == crc32_continued(seed, bytes@),
{
    crc32_v2::byfour::crc32_little(seed, bytes)
}

/// The four bytes of `value`, most significant first.
pub open spec fn be_bytes(value: u32) -> Seq<u8> {
    seq![
        (value / 0x100_0000) as u8,
        ((value / 0x1_0000) % 0x100) as u8,
        ((value / 0x100) % 0x100) as u8,
        (value % 0x100) as u8,
    ]
}

/// The number whose four bytes, most significant first, are `b0`, `b1`, `b2`, `b3`.
pub open spec fn be_value(b0: u8, b1: u8, b2: u8, b3: u8) -> u32 {
    (b0 as int * 0x100_0000 + b1 as int * 0x1_0000 + b2 as int * 0x100 + b3 as int) as u32
}

/// Splitting a number into its bytes and putting them together again gives the number.
pub proof fn lemma_be_bytes_value(value: u32)
    ensures
        be_bytes(value).len() == 4,
        be_value(be_bytes(value)[0], be_bytes(value)[1], be_bytes(value)[2], be_bytes(value)[3])
            == value,
{
}

/// The four bytes of `value`, most significant first.
pub fn u32_to_be_bytes(value: u32) -> (bytes: [u8; 4])
    ensures
        bytes@ == be_bytes(value),
{
    let bytes: [u8; 4] = [
        (value / 0x100_0000) as u8,
        ((value / 0x1_0000) % 0x100) as u8,
        ((value / 0x100) % 0x100) as u8,
        (value % 0x100) as u8,
    ];
    assert(bytes@ =~= be_bytes(value));
    bytes
}

/// Reads the four bytes at `at` as a number, most significant byte first.
pub fn u32_from_be_bytes(bytes: &[u8], at: usize) -> (value: u32)
    requires
        at + 4 <= bytes@.len(),
    ensures
        value == be_value(bytes@[at as int], bytes@[at + 1], bytes@[at + 2], bytes@[at + 3]),
{
    let b0: u32 = bytes[at] as u32;
    let b1: u32 = bytes[at + 1] as u32;
    let b2: u32 = bytes[at + 2] as u32;
    let b3: u32 = bytes[at + 3] as u32;
    b0 * 0x100_0000 + b1 * 0x1_0000 + b2 * 0x100 + b3
}

/// The bytes over which a record's checksum runs: its type tag, then its payload.
pub open spec fn checksum_input(type_tag: u32, payload: Seq<u8>) -> Seq<u8> {
    be_bytes(type_tag) + payload
}

/// The checksum of a record with this tag and payload, continued from `seed`.
pub open spec fn record_checksum(seed: u32, type_tag: u32, payload: Seq<u8>) -> u32 {
    crc32_continued(seed, checksum_input(type_tag, payload))
}

/// Computes the checksum of a record: the CRC-32, continued from `seed`, of the four
/// bytes of `type_tag` followed by `payload`. The result depends on nothing but the three
/// arguments.
pub fn checksum(seed: u32, type_tag: u32, payload: &[u8]) -> (crc: u32)
    ensures
        crc == record_checksum(seed, type_tag, payload@),
{
    let tag: [u8; 4] = u32_to_be_bytes(type_tag);
    let mut bytes: Vec<u8> = Vec::with_capacity(4);
    bytes.push(tag[0]);
    bytes.push(tag[1]);
    bytes.push(tag[2]);
    bytes.push(tag[3]);
    let mut i: usize = 0;
    while i < payload.len()
        invariant
            i <= payload@.len(),
            bytes@ == be_bytes(type_tag) + payload@.subrange(0, i as int),
        decreases payload@.len() - i,
    {
        bytes.push(payload[i]);
        i += 1;
        assert(bytes@ =~= be_bytes(type_tag) + payload@.subrange(0, i as int));
    }
    assert(payload@.subrange(0, i as int) =~= payload@);
    crc32_little_of(seed, bytes.as_slice())
}

} // verus!
