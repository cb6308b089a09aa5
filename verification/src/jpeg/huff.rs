//! Huffman coding of the coefficients of a block, and the bit buffer it writes through.

use vstd::prelude::*;

verus! {

/// The tables and the bit buffer of a Huffman encoder.
#[derive(Debug)]
pub struct Huffman {
    /// How many bits the buffer holds.
    pub buffer_put_bits: i32,
    /// The bits that are not written yet, the oldest at bit 23.
    pub buffer_put_buffer: i32,
    /// The height of the image.
    pub image_height: i32,
    /// The width of the image.
    pub image_width: i32,
    /// Code and size of each DC category for luminance.
    pub dc_matrix0: Vec<Vec<i32>>,
    /// Code and size of each AC symbol for luminance.
    pub ac_matrix0: Vec<Vec<i32>>,
    /// Code and size of each DC category for chrominance.
    pub dc_matrix1: Vec<Vec<i32>>,
    /// Code and size of each AC symbol for chrominance.
    pub ac_matrix1: Vec<Vec<i32>>,
    /// The two DC tables that the encoder codes with.
    pub dc_matrix: Vec<Vec<Vec<i32>>>,
    /// The two AC tables that the encoder codes with.
    pub ac_matrix: Vec<Vec<Vec<i32>>>,
    /// A code.
    pub code: i32,
    /// The number of DC tables.
    pub num_of_dc_tables: i32,
    /// The number of AC tables.
    pub num_of_ac_tables: i32,
    /// How many DC codes for luminance have each length.
    pub bits_dc_luminance: Vec<i32>,
    /// The DC categories for luminance, by code.
    pub val_dc_luminance: Vec<i32>,
    /// How many DC codes for chrominance have each length.
    pub bits_dc_chrominance: Vec<i32>,
    /// The DC categories for chrominance, by code.
    pub val_dc_chrominance: Vec<i32>,
    /// How many AC codes for luminance have each length.
    pub bits_ac_luminance: Vec<i32>,
    /// The AC symbols for luminance, by code.
    pub val_ac_luminance: Vec<i32>,
    /// How many AC codes for chrominance have each length.
    pub bits_ac_chrominance: Vec<i32>,
    /// The AC symbols for chrominance, by code.
    pub val_ac_chrominance: Vec<i32>,
    /// The four lists of code counts: DC and AC for luminance, DC and AC for chrominance.
    pub bits: Vec<Vec<i32>>,
    /// The four lists of symbols, in the same order.
    pub val: Vec<Vec<i32>>,
}

/// The counts of the DC codes for luminance, by length.
pub open spec fn dc_luminance_bits() -> Seq<i32> {
    seq![0i32, 1, 5, 1, 1, 1, 1, 1, 1, 1, 0, 0, 0, 0, 0, 1, 0]
}

/// The counts of the DC codes for chrominance, by length.
pub open spec fn dc_chrominance_bits() -> Seq<i32> {
    seq![0i32, 1, 3, 1, 1, 1, 1, 1, 1, 1, 0, 0, 0, 0, 0, 1, 0]
}

/// The counts of the AC codes for luminance, by length.
pub open spec fn ac_luminance_bits() -> Seq<i32> {
    seq![0i32, 2, 1, 3, 3, 2, 4, 3, 5, 5, 4, 4, 0, 0, 0, 0, 1]
}

/// The counts of the AC codes for chrominance, by length.
pub open spec fn ac_chrominance_bits() -> Seq<i32> {
    seq![0i32, 2, 1, 2, 4, 4, 3, 4, 7, 5, 4, 4, 0, 0, 0, 0, 1]
}

/// The twelve DC categories.
pub open spec fn dc_values() -> Seq<i32> {
    seq![0i32, 1, 2, 3, 4, 5, 6, 7, 8, 9, 10, 11]
}

/// The AC symbols from the sixth on, which the two tables share.
pub open spec fn ac_values_tail() -> Seq<i32> {
    seq![
        5i32, 18, 33, 49, 6, 65, 81, 7, 97, 113, 19, 34, 50, 129, 8, 20, 66, 145, 161, 177, 193,
        9, 35, 51, 82, 240, 21, 98, 114, 209, 10, 22, 36, 52, 225, 37, 241, 23, 24, 25, 26, 38, 39,
        40, 41, 42, 53, 54, 55, 56, 57, 58, 67, 68, 69, 70, 71, 72, 73, 74, 83, 84, 85, 86, 87, 88,
        89, 90, 99, 100, 101, 102, 103, 104, 105, 106, 115, 116, 117, 118, 119, 120, 121, 122, 130,
        131, 132, 133, 134, 135, 136, 137, 138, 146, 147, 148, 149, 150, 151, 152, 153, 154, 162,
        163, 164, 165, 166, 167, 168, 169, 170, 178, 179, 180, 181, 182, 183, 184, 185, 186, 194,
        195, 196, 197, 198, 199, 200, 201, 202, 210, 211, 212, 213, 214, 215, 216, 217, 218, 226,
        227, 228, 229, 230, 231, 232, 233, 234, 242, 243, 244, 245, 246, 247, 248, 249, 250,
    ]
}

/// The 162 AC symbols for luminance, by code.
pub open spec fn ac_luminance_values() -> Seq<i32> {
    seq![1i32, 2, 3, 0, 4, 17] + ac_values_tail()
}

/// The 162 AC symbols for chrominance, by code.
pub open spec fn ac_chrominance_values() -> Seq<i32> {
    seq![0i32, 1, 2, 3, 17, 4] + ac_values_tail()
}

/// Whether `table` has `rows` rows of two zeros.
pub open spec fn blank_table(table: Seq<Vec<i32>>, rows: nat) -> bool {
    table.len() == rows && forall|i: int| 0 <= i < rows ==> (#[trigger] table[i])@ == seq![0i32, 0]
}

/// A bit buffer and what was written from it.
pub struct BitSink {
    /// The bits that are not written yet, the oldest at bit 23.
    pub buffer: i32,
    /// How many bits the buffer holds.
    pub count: i32,
    /// The bytes written.
    pub out: Seq<u8>,
}

/// The lowest `size` bits of `code`.
pub open spec fn low_bits(code: i32, size: i32) -> i32 {
    code & (((1i32 << (size as u32)) - 1) as i32)
}

/// The buffer `held` with the lowest `size` bits of `code` put behind the bits it holds,
/// which with them are `count`.
pub open spec fn loaded(held: i32, code: i32, size: i32, count: i32) -> i32 {
    (low_bits(code, size) << ((24 - count) as u32)) | held
}

/// The byte in bits 16 to 23 of `buffer`: the oldest eight bits.
pub open spec fn top_byte(buffer: i32) -> u8 {
    ((buffer >> 16u32) & 0xff) as u8
}

/// A byte as it is written in the entropy-coded data: a byte of ones is followed by a
/// byte of zeros.
pub open spec fn stuffed(byte: u8) -> Seq<u8> {
    if byte == 0xff {
        seq![0xffu8, 0x00u8]
    } else {
        seq![byte]
    }
}

/// The sink after every whole byte of its buffer is written: the oldest eight bits at a
/// time, each stuffed, until fewer than eight are left.
pub open spec fn drained(sink: BitSink) -> BitSink
    decreases sink.count,
{
    if sink.count >= 8 {
        drained(
            BitSink {
                buffer: sink.buffer << 8u32,
                count: (sink.count - 8) as i32,
                out: sink.out + stuffed(top_byte(sink.buffer)),
            },
        )
    } else {
        sink
    }
}

/// The sink after the lowest `size` bits of `code` are put into it and every whole byte is
/// written.
pub open spec fn put(sink: BitSink, code: i32, size: i32) -> BitSink {
    drained(
        BitSink {
            buffer: loaded(sink.buffer, code, size, (sink.count + size) as i32),
            count: (sink.count + size) as i32,
            out: sink.out,
        },
    )
}

/// The sink after it is flushed: every whole byte is written, then the bits that are left,
/// in a byte of their own that is not stuffed, and the buffer is empty.
pub open spec fn flushed(sink: BitSink) -> BitSink {
    let rest = drained(sink);
    BitSink {
        buffer: 0,
        count: 0,
        out: if rest.count > 0 {
            rest.out + seq![top_byte(rest.buffer)]
        } else {
            rest.out
        },
    }
}

/// Whether `size` bits can be put into a buffer that holds `count`: the shifts that put
/// them there stay within 32 bits.
pub open spec fn takes(count: i32, size: i32) -> bool {
    0 <= size <= 30 && -7 <= count + size <= 24
}

/// A buffer that held fewer than eight bits holds fewer than eight after a put.
pub proof fn lemma_put_count(sink: BitSink, code: i32, size: i32)
    requires
        0 <= sink.count < 8,
        0 <= size,
        sink.count + size <= 24,
    ensures
        0 <= put(sink, code, size).count < 8,
{
    let start = BitSink {
        buffer: loaded(sink.buffer, code, size, (sink.count + size) as i32),
        count: (sink.count + size) as i32,
        out: sink.out,
    };
    lemma_drained_count(start);
}

/// Draining leaves fewer than eight bits, and none less than zero.
pub proof fn lemma_drained_count(sink: BitSink)
    requires
        0 <= sink.count,
    ensures
        0 <= drained(sink).count < 8,
    decreases sink.count,
{
    if sink.count >= 8 {
        lemma_drained_count(
            BitSink {
                buffer: sink.buffer << 8u32,
                count: (sink.count - 8) as i32,
                out: sink.out + stuffed(top_byte(sink.buffer)),
            },
        );
    }
}

fn top_byte_of(buffer: i32) -> (byte: u8)
    ensures
        byte == top_byte(buffer),
{
    let t: i32 = (buffer >> 16u32) & 0xff;
    assert(0 <= t < 256) by (bit_vector)
        requires
            t == (buffer >> 16u32) & 0xff,
    ;
    t as u8
}

fn drain(out: &mut Vec<u8>, buffer: i32, count: i32) -> (left: (i32, i32))
    ensures
        (BitSink { buffer: left.0, count: left.1, out: final(out)@ }) == drained(
            BitSink { buffer, count, out: old(out)@ },
        ),
{
    let mut put_buffer: i32 = buffer;
    let mut put_bits: i32 = count;
    while put_bits >= 8
        invariant
            drained(BitSink { buffer: put_buffer, count: put_bits, out: out@ }) == drained(
                BitSink { buffer, count, out: old(out)@ },
            ),
        decreases put_bits,
    {
        let c: u8 = top_byte_of(put_buffer);
        let ghost before = out@;
        out.push(c);
        if c == 0xff {
            out.push(0);
        }
        assert(out@ =~= before + stuffed(c));
        put_buffer = put_buffer << 8u32;
        put_bits -= 8;
    }
    (put_buffer, put_bits)
}

/// The places in a block of its coefficients, in the order in which they are coded.
pub open spec fn natural_order() -> Seq<usize> {
    seq![
        0usize, 1, 5, 6, 14, 15, 27, 28, 2, 4, 7, 13, 16, 26, 29, 42, 3, 8, 12, 17, 25, 30, 41, 43,
        9, 11, 18, 24, 31, 40, 44, 53, 10, 19, 23, 32, 39, 45, 52, 54, 20, 22, 33, 38, 46, 51, 55,
        60, 21, 34, 37, 47, 50, 56, 59, 61, 35, 36, 48, 49, 57, 58, 62, 63,
    ]
}

fn natural_order_at(k: usize) -> (place: usize)
    requires
        k < 64,
    ensures
        place == natural_order()[k as int],
        place < 64,
{
    let order: [usize; 64] = [
        0, 1, 5, 6, 14, 15, 27, 28, 2, 4, 7, 13, 16, 26, 29, 42, 3, 8, 12, 17, 25, 30, 41, 43, 9,
        11, 18, 24, 31, 40, 44, 53, 10, 19, 23, 32, 39, 45, 52, 54, 20, 22, 33, 38, 46, 51, 55, 60,
        21, 34, 37, 47, 50, 56, 59, 61, 35, 36, 48, 49, 57, 58, 62, 63,
    ];
    assert(order@ =~= natural_order());
    assert(forall|i: int| 0 <= i < 64 ==> order@[i] < 64);
    order[k]
}

/// How many bits it takes to write `v`: none for zero.
pub open spec fn bit_length(v: int) -> int
    decreases v,
{
    if v <= 0 {
        0
    } else {
        1 + bit_length(v / 2)
    }
}

/// A larger number takes no fewer bits, and no number takes fewer than none.
pub proof fn lemma_bit_length_grows(v: int, w: int)
    requires
        v <= w,
    ensures
        0 <= bit_length(v) <= bit_length(w),
    decreases w,
{
    if w > 0 {
        lemma_bit_length_grows(v / 2, w / 2);
    }
}

/// A number below 2048 takes at most eleven bits, and one below 8192 at most thirteen.
pub proof fn lemma_bit_length_limits()
    ensures
        bit_length(2047) == 11,
        bit_length(8191) == 13,
{
    reveal_with_fuel(bit_length, 15);
}

/// The size of `v` without its sign.
pub open spec fn magnitude(v: i32) -> int {
    if v < 0 {
        -v
    } else {
        v as int
    }
}

/// The number whose low bits stand for `v` in the coded data: `v` itself, or one less where
/// `v` is negative.
pub open spec fn coded(v: i32) -> i32 {
    if v < 0 {
        (v - 1) as i32
    } else {
        v
    }
}

/// The sink after the code of row `row` of `table` is put into it: a row holds a code and
/// its size.
pub open spec fn put_entry(sink: BitSink, table: Seq<Vec<i32>>, row: int) -> BitSink {
    put(sink, table[row]@[0], table[row]@[1])
}

/// The sink after a DC difference is coded: the code of its bit length, then as many of
/// its bits.
pub open spec fn put_dc(sink: BitSink, table: Seq<Vec<i32>>, diff: i32) -> BitSink {
    let n = bit_length(magnitude(diff));
    let named = put_entry(sink, table, n);
    if n != 0 {
        put(named, coded(diff), n as i32)
    } else {
        named
    }
}

/// The sink after the code of row 240 is put into it once for every sixteen zeros of a
/// run of more than fifteen.
pub open spec fn put_long_runs(sink: BitSink, table: Seq<Vec<i32>>, run: int) -> BitSink
    decreases run,
{
    if run > 15 {
        put_long_runs(put_entry(sink, table, 0xf0), table, run - 16)
    } else {
        sink
    }
}

/// The zeros that are left of a run after its sixteens are coded.
pub open spec fn short_run(run: int) -> int {
    if run > 15 {
        run % 16
    } else {
        run
    }
}

/// The sink after the coefficient `v`, which is not zero, is coded behind a run of `run`
/// zeros: the sixteens of the run, the code of the row for what is left of the run and
/// one more than the bit length of `v`, then as many bits of `v`.
pub open spec fn put_ac_value(sink: BitSink, table: Seq<Vec<i32>>, run: int, v: i32) -> BitSink {
    let n = 1 + bit_length(magnitude(v));
    let named = put_entry(put_long_runs(sink, table, run), table, short_run(run) * 16 + n);
    put(named, coded(v), n as i32)
}

/// The sink after the coefficients from the `k`-th on are coded, behind a run of `run`
/// zeros: a run that reaches the end of the block is coded by row 0.
pub open spec fn put_ac(sink: BitSink, table: Seq<Vec<i32>>, zigzag: Seq<i32>, k: int, run: int) -> BitSink
    decreases 64 - k,
{
    if k >= 64 {
        if run > 0 {
            put_entry(sink, table, 0)
        } else {
            sink
        }
    } else {
        let v = zigzag[natural_order()[k] as int];
        if v == 0 {
            put_ac(sink, table, zigzag, k + 1, run + 1)
        } else {
            put_ac(put_ac_value(sink, table, run, v), table, zigzag, k + 1, 0)
        }
    }
}

/// The sink after a block is coded: the difference of its first coefficient to `prec`,
/// then the other 63 in their order.
pub open spec fn put_block(
    sink: BitSink,
    dc_table: Seq<Vec<i32>>,
    ac_table: Seq<Vec<i32>>,
    zigzag: Seq<i32>,
    prec: i32,
) -> BitSink {
    put_ac(put_dc(sink, dc_table, (zigzag[0] - prec) as i32), ac_table, zigzag, 1, 0)
}

/// Whether `table` can code with its first `rows` rows: each holds a code and a size, and
/// no size is more than sixteen bits.
pub open spec fn codes_with(table: Seq<Vec<i32>>, rows: int) -> bool {
    table.len() >= rows && forall|i: int|
        0 <= i < rows ==> (#[trigger] table[i])@.len() >= 2 && 0 <= table[i]@[1] <= 16
}

/// Whether the coefficients of a block are in the range that the tables have rows for: a
/// DC difference of at most eleven bits, and AC coefficients of at most thirteen.
pub open spec fn block_in_range(zigzag: Seq<i32>, prec: i32) -> bool {
    &&& zigzag.len() == 64
    &&& -2047 <= zigzag[0] - prec <= 2047
    &&& forall|k: int| 1 <= k < 64 ==> -8191 <= #[trigger] zigzag[k] <= 8191
}

fn bit_length_of(v: i32) -> (n: usize)
    requires
        0 <= v <= 8191,
    ensures
        n == bit_length(v as int),
        n <= 13,
{
    let mut temp: i32 = v;
    let mut n: usize = 0;
    proof {
        lemma_bit_length_limits();
        lemma_bit_length_grows(v as int, 8191);
    }
    while temp != 0
        invariant
            0 <= temp,
            n + bit_length(temp as int) == bit_length(v as int),
            bit_length(v as int) <= 13,
        decreases temp,
    {
        proof {
            lemma_bit_length_grows(temp as int / 2, temp as int / 2);
        }
        n += 1;
        temp = temp / 2;
    }
    n
}

fn ac_tail() -> (tail: Vec<i32>)
    ensures
        tail@ == ac_values_tail(),
{
    let tail: Vec<i32> = vec![
        5, 18, 33, 49, 6, 65, 81, 7, 97, 113, 19, 34, 50, 129, 8, 20, 66, 145, 161, 177, 193, 9,
        35, 51, 82, 240, 21, 98, 114, 209, 10, 22, 36, 52, 225, 37, 241, 23, 24, 25, 26, 38, 39,
        40, 41, 42, 53, 54, 55, 56, 57, 58, 67, 68, 69, 70, 71, 72, 73, 74, 83, 84, 85, 86, 87, 88,
        89, 90, 99, 100, 101, 102, 103, 104, 105, 106, 115, 116, 117, 118, 119, 120, 121, 122, 130,
        131, 132, 133, 134, 135, 136, 137, 138, 146, 147, 148, 149, 150, 151, 152, 153, 154, 162,
        163, 164, 165, 166, 167, 168, 169, 170, 178, 179, 180, 181, 182, 183, 184, 185, 186, 194,
        195, 196, 197, 198, 199, 200, 201, 202, 210, 211, 212, 213, 214, 215, 216, 217, 218, 226,
        227, 228, 229, 230, 231, 232, 233, 234, 242, 243, 244, 245, 246, 247, 248, 249, 250,
    ];
    assert(tail@ =~= ac_values_tail());
    tail
}

fn copy_of(list: &Vec<i32>) -> (copy: Vec<i32>)
    ensures
        copy@ == list@,
{
    let mut copy: Vec<i32> = Vec::with_capacity(list.len());
    copy.extend_from_slice(list.as_slice());
    copy
}

fn blank(rows: usize) -> (table: Vec<Vec<i32>>)
    ensures
        blank_table(table@, rows as nat),
{
    let mut table: Vec<Vec<i32>> = Vec::with_capacity(rows);
    let mut i: usize = 0;
    while i < rows
        invariant
            i <= rows,
            blank_table(table@, i as nat),
        decreases rows - i,
    {
        let row: Vec<i32> = vec![0, 0];
        assert(row@ =~= seq![0i32, 0]);
        table.push(row);
        i += 1;
    }
    table
}

impl Huffman {
    /// An encoder for an image of the given size, with an empty bit buffer, the standard
    /// lists of code counts and symbols, and code tables that are still blank.
    pub fn new(width: i32, height: i32) -> (h: Huffman)
        ensures
            h.buffer_put_bits == 0,
            h.buffer_put_buffer == 0,
            h.image_height == height,
            h.image_width == width,
            blank_table(h.dc_matrix0@, 12),
            blank_table(h.ac_matrix0@, 255),
            blank_table(h.dc_matrix1@, 12),
            blank_table(h.ac_matrix1@, 255),
            h.dc_matrix@.len() == 2,
            blank_table(h.dc_matrix@[0]@, 12),
            blank_table(h.dc_matrix@[1]@, 12),
            h.ac_matrix@.len() == 2,
            blank_table(h.ac_matrix@[0]@, 255),
            blank_table(h.ac_matrix@[1]@, 255),
            h.code == 0,
            h.num_of_dc_tables == 0,
            h.num_of_ac_tables == 0,
            h.bits_dc_luminance@ == dc_luminance_bits(),
            h.val_dc_luminance@ == dc_values(),
            h.bits_dc_chrominance@ == dc_chrominance_bits(),
            h.val_dc_chrominance@ == dc_values(),
            h.bits_ac_luminance@ == ac_luminance_bits(),
            h.val_ac_luminance@ == ac_luminance_values(),
            h.bits_ac_chrominance@ == ac_chrominance_bits(),
            h.val_ac_chrominance@ == ac_chrominance_values(),
            h.bits@.len() == 4,
            h.bits@[0]@ == dc_luminance_bits(),
            h.bits@[1]@ == ac_luminance_bits(),
            h.bits@[2]@ == dc_chrominance_bits(),
            h.bits@[3]@ == ac_chrominance_bits(),
            h.val@.len() == 4,
            h.val@[0]@ == dc_values(),
            h.val@[1]@ == ac_luminance_values(),
            h.val@[2]@ == dc_values(),
            h.val@[3]@ == ac_chrominance_values(),
    {
        let bits_dc_luminance: Vec<i32> = vec![0, 1, 5, 1, 1, 1, 1, 1, 1, 1, 0, 0, 0, 0, 0, 1, 0];
        assert(bits_dc_luminance@ =~= dc_luminance_bits());
        let val_dc_luminance: Vec<i32> = vec![0, 1, 2, 3, 4, 5, 6, 7, 8, 9, 10, 11];
        assert(val_dc_luminance@ =~= dc_values());
        let bits_ac_luminance: Vec<i32> = vec![0, 2, 1, 3, 3, 2, 4, 3, 5, 5, 4, 4, 0, 0, 0, 0, 1];
        assert(bits_ac_luminance@ =~= ac_luminance_bits());
        let mut val_ac_luminance: Vec<i32> = vec![1, 2, 3, 0, 4, 17];
        assert(val_ac_luminance@ =~= seq![1i32, 2, 3, 0, 4, 17]);
        let tail: Vec<i32> = ac_tail();
        val_ac_luminance.extend_from_slice(tail.as_slice());
        let bits_dc_chrominance: Vec<i32> = vec![0, 1, 3, 1, 1, 1, 1, 1, 1, 1, 0, 0, 0, 0, 0, 1, 0];
        assert(bits_dc_chrominance@ =~= dc_chrominance_bits());
        let val_dc_chrominance: Vec<i32> = vec![0, 1, 2, 3, 4, 5, 6, 7, 8, 9, 10, 11];
        assert(val_dc_chrominance@ =~= dc_values());
        let bits_ac_chrominance: Vec<i32> = vec![0, 2, 1, 2, 4, 4, 3, 4, 7, 5, 4, 4, 0, 0, 0, 0, 1];
        assert(bits_ac_chrominance@ =~= ac_chrominance_bits());
        let mut val_ac_chrominance: Vec<i32> = vec![0, 1, 2, 3, 17, 4];
        assert(val_ac_chrominance@ =~= seq![0i32, 1, 2, 3, 17, 4]);
        val_ac_chrominance.extend_from_slice(tail.as_slice());
        let mut bits: Vec<Vec<i32>> = Vec::with_capacity(4);
        bits.push(copy_of(&bits_dc_luminance));
        bits.push(copy_of(&bits_ac_luminance));
        bits.push(copy_of(&bits_dc_chrominance));
        bits.push(copy_of(&bits_ac_chrominance));
        let mut val: Vec<Vec<i32>> = Vec::with_capacity(4);
        val.push(copy_of(&val_dc_luminance));
        val.push(copy_of(&val_ac_luminance));
        val.push(copy_of(&val_dc_chrominance));
        val.push(copy_of(&val_ac_chrominance));
        let mut dc_matrix: Vec<Vec<Vec<i32>>> = Vec::with_capacity(2);
        dc_matrix.push(blank(12));
        dc_matrix.push(blank(12));
        let mut ac_matrix: Vec<Vec<Vec<i32>>> = Vec::with_capacity(2);
        ac_matrix.push(blank(255));
        ac_matrix.push(blank(255));
        Huffman {
            buffer_put_bits: 0,
            buffer_put_buffer: 0,
            image_height: height,
            image_width: width,
            dc_matrix0: blank(12),
            ac_matrix0: blank(255),
            dc_matrix1: blank(12),
            ac_matrix1: blank(255),
            dc_matrix,
            ac_matrix,
            code: 0,
            num_of_dc_tables: 0,
            num_of_ac_tables: 0,
            bits_dc_luminance,
            val_dc_luminance,
            bits_dc_chrominance,
            val_dc_chrominance,
            bits_ac_luminance,
            val_ac_luminance,
            bits_ac_chrominance,
            val_ac_chrominance,
            bits,
            val,
        }
    }

    /// The bit buffer of the encoder, with `out` as what it has written.
    pub open spec fn sink(&self, out: Seq<u8>) -> BitSink {
        BitSink { buffer: self.buffer_put_buffer, count: self.buffer_put_bits, out }
    }

    /// Puts the lowest `size` bits of `code` into the bit buffer and writes every whole
    /// byte to `out_stream`, a byte of ones followed by a byte of zeros.
    pub fn buffer_it(&mut self, out_stream: &mut Vec<u8>, code: i32, size: i32)
        requires
            takes(old(self).buffer_put_bits, size),
        ensures
            final(self).sink(final(out_stream)@) == put(
                old(self).sink(old(out_stream)@),
                code,
                size,
            ),
            *final(self) == (Huffman {
                buffer_put_bits: final(self).buffer_put_bits,
                buffer_put_buffer: final(self).buffer_put_buffer,
                ..*old(self)
            }),
    {
        let mut put_buffer: i32 = code;
        let mut put_bits: i32 = self.buffer_put_bits;
        let width: u32 = size as u32;
        assert(1 <= (1i32 << width)) by (bit_vector)
            requires
                width <= 30,
        ;
        put_buffer = put_buffer & ((1i32 << width) - 1);
        put_bits += size;
        put_buffer = put_buffer << ((24 - put_bits) as u32);
        put_buffer = put_buffer | self.buffer_put_buffer;
        let left = drain(out_stream, put_buffer, put_bits);
        self.buffer_put_buffer = left.0;
        self.buffer_put_bits = left.1;
    }

    /// Writes what the bit buffer holds to `out_stream` and empties it: every whole byte,
    /// then the bits that are left in a byte of their own.
    pub fn flush_buffer(&mut self, out_stream: &mut Vec<u8>)
        ensures
            final(self).sink(final(out_stream)@) == flushed(old(self).sink(old(out_stream)@)),
            *final(self) == (Huffman { buffer_put_bits: 0, buffer_put_buffer: 0, ..*old(self) }),
    {
        let left = drain(out_stream, self.buffer_put_buffer, self.buffer_put_bits);
        let ghost rest = drained(old(self).sink(old(out_stream)@));
        if left.1 > 0 {
            let c: u8 = top_byte_of(left.0);
            out_stream.push(c);
            assert(out_stream@ =~= rest.out + seq![top_byte(rest.buffer)]);
        }
        self.buffer_put_buffer = 0;
        self.buffer_put_bits = 0;
    }

    fn put_row(&mut self, out_stream: &mut Vec<u8>, ac: bool, table: usize, row: usize)
        requires
            0 <= old(self).buffer_put_bits < 8,
            ac ==> table < old(self).ac_matrix@.len() && row < 255 && codes_with(
                old(self).ac_matrix@[table as int]@,
                255,
            ),
            !ac ==> table < old(self).dc_matrix@.len() && row < 12 && codes_with(
                old(self).dc_matrix@[table as int]@,
                12,
            ),
        ensures
            final(self).sink(final(out_stream)@) == put_entry(
                old(self).sink(old(out_stream)@),
                if ac {
                    old(self).ac_matrix@[table as int]@
                } else {
                    old(self).dc_matrix@[table as int]@
                },
                row as int,
            ),
            0 <= final(self).buffer_put_bits < 8,
            *final(self) == (Huffman {
                buffer_put_bits: final(self).buffer_put_bits,
                buffer_put_buffer: final(self).buffer_put_buffer,
                ..*old(self)
            }),
    {
        let code: i32 = if ac {
            self.ac_matrix[table][row][0]
        } else {
            self.dc_matrix[table][row][0]
        };
        let size: i32 = if ac {
            self.ac_matrix[table][row][1]
        } else {
            self.dc_matrix[table][row][1]
        };
        proof {
            lemma_put_count(self.sink(out_stream@), code, size);
        }
        self.buffer_it(out_stream, code, size);
    }

    fn put_bits(&mut self, out_stream: &mut Vec<u8>, v: i32, n: usize)
        requires
            0 <= old(self).buffer_put_bits < 8,
            n <= 14,
            -8191 <= v <= 8191,
        ensures
            final(self).sink(final(out_stream)@) == put(
                old(self).sink(old(out_stream)@),
                coded(v),
                n as i32,
            ),
            0 <= final(self).buffer_put_bits < 8,
            *final(self) == (Huffman {
                buffer_put_bits: final(self).buffer_put_bits,
                buffer_put_buffer: final(self).buffer_put_buffer,
                ..*old(self)
            }),
    {
        let code: i32 = if v < 0 {
            v - 1
        } else {
            v
        };
        proof {
            lemma_put_count(self.sink(out_stream@), code, n as i32);
        }
        self.buffer_it(out_stream, code, n as i32);
    }

    /// Codes one block of coefficients and writes the code through the bit buffer.
    ///
    /// The first coefficient is coded as its difference to `prec`, with the DC table
    /// `dc_code`; the others follow in their order, each run of zeros together with the
    /// coefficient behind it, with the AC table `ac_code`. The encoder notes that it has
    /// two tables of each kind.
    ///
    /// The two tables have to hold a code and a size of at most sixteen bits in each of
    /// their rows, the bit buffer fewer than eight bits, and the coefficients have to be
    /// in the range that the tables have rows for.
    pub fn huffman_block_encoder(
        &mut self,
        out_stream: &mut Vec<u8>,
        zigzag: &[i32; 64],
        prec: i32,
        dc_code: i32,
        ac_code: i32,
    )
        requires
            0 <= old(self).buffer_put_bits < 8,
            0 <= dc_code < old(self).dc_matrix@.len(),
            0 <= ac_code < old(self).ac_matrix@.len(),
            codes_with(old(self).dc_matrix@[dc_code as int]@, 12),
            codes_with(old(self).ac_matrix@[ac_code as int]@, 255),
            block_in_range(zigzag@, prec),
        ensures
            final(self).sink(final(out_stream)@) == put_block(
                old(self).sink(old(out_stream)@),
                old(self).dc_matrix@[dc_code as int]@,
                old(self).ac_matrix@[ac_code as int]@,
                zigzag@,
                prec,
            ),
            0 <= final(self).buffer_put_bits < 8,
            *final(self) == (Huffman {
                buffer_put_bits: final(self).buffer_put_bits,
                buffer_put_buffer: final(self).buffer_put_buffer,
                num_of_dc_tables: 2,
                num_of_ac_tables: 2,
                ..*old(self)
            }),
    {
        let ghost dc_table = self.dc_matrix@[dc_code as int]@;
        let ghost ac_table = self.ac_matrix@[ac_code as int]@;
        let ghost target = put_block(self.sink(out_stream@), dc_table, ac_table, zigzag@, prec);
        let dc: usize = dc_code as usize;
        let ac: usize = ac_code as usize;
        self.num_of_dc_tables = 2;
        self.num_of_ac_tables = 2;
        let ghost noted = *self;

        let diff: i32 = zigzag[0] - prec;
        let size: i32 = if diff < 0 {
            -diff
        } else {
            diff
        };
        let nbits: usize = bit_length_of(size);
        proof {
            lemma_bit_length_limits();
            lemma_bit_length_grows(size as int, 2047);
        }
        self.put_row(out_stream, false, dc, nbits);
        if nbits != 0 {
            self.put_bits(out_stream, diff, nbits);
        }
        let mut r: usize = 0;
        let mut k: usize = 1;
        while k < 64
            invariant
                1 <= k <= 64,
                r < k,
                0 <= self.buffer_put_bits < 8,
                ac as int == ac_code,
                ac < self.ac_matrix@.len(),
                ac_table == self.ac_matrix@[ac as int]@,
                codes_with(ac_table, 255),
                block_in_range(zigzag@, prec),
                target == put_ac(self.sink(out_stream@), ac_table, zigzag@, k as int, r as int),
                *self == (Huffman {
                    buffer_put_bits: self.buffer_put_bits,
                    buffer_put_buffer: self.buffer_put_buffer,
                    ..noted
                }),
            decreases 64 - k,
        {
            let place: usize = natural_order_at(k);
            let v: i32 = zigzag[place];
            if v == 0 {
                r += 1;
            } else {
                let ghost run = r as int;
                let ghost entered = self.sink(out_stream@);
                while r > 15
                    invariant
                        r <= run,
                        run < 64,
                        0 <= self.buffer_put_bits < 8,
                        ac < self.ac_matrix@.len(),
                        ac_table == self.ac_matrix@[ac as int]@,
                        codes_with(ac_table, 255),
                        put_long_runs(self.sink(out_stream@), ac_table, r as int) == put_long_runs(
                            entered,
                            ac_table,
                            run,
                        ),
                        short_run(r as int) == short_run(run),
                        *self == (Huffman {
                            buffer_put_bits: self.buffer_put_bits,
                            buffer_put_buffer: self.buffer_put_buffer,
                            ..noted
                        }),
                    decreases r,
                {
                    self.put_row(out_stream, true, ac, 0xf0);
                    r -= 16;
                }
                let size: i32 = if v < 0 {
                    -v
                } else {
                    v
                };
                let nbits: usize = 1 + bit_length_of(size);
                let row: usize = r * 16 + nbits;
                self.put_row(out_stream, true, ac, row);
                self.put_bits(out_stream, v, nbits);
                r = 0;
            }
            k += 1;
        }
        if r > 0 {
            self.put_row(out_stream, true, ac, 0);
        }
    }
}

} // verus!
