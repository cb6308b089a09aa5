//! Reading the payloads of marker segments.

use crate::jpeg::comment::CommentHeader;
use crate::jpeg::dct::{coefficient_read, DctStruct};
use crate::jpeg::dht::DhtHeader;
use crate::jpeg::dqt::DqtHeader;
use crate::jpeg::header::{be16, JfifHeader};
use crate::jpeg::huff::{
    ac_chrominance_bits, ac_chrominance_values, ac_luminance_bits, ac_luminance_values,
    blank_table, dc_chrominance_bits, dc_luminance_bits, dc_values, Huffman,
};
use crate::jpeg::obj::{high_nibble, low_nibble, Image, JpegObj};
use crate::jpeg::sof::SofHeader;
use crate::jpeg::sos::SosHeader;
use crate::models::{string_from_utf8_lossy, utf8_lossy};
use crate::stream::{ByteReader, StreamView};
use vstd::prelude::*;

verus! {

/// The image that the payload `data` of a frame segment describes.
///
/// The payload holds the precision, the height and the width in two bytes each, the number
/// of components, and for each component three bytes: its identifier, its two sampling
/// factors packed into one byte, and the number of its quantization table. The DC tables
/// are numbered from 1, one for each component; the AC tables from 11, one more than
/// there are components. The spectral selection is the whole block.
pub open spec fn frame_image(data: Seq<u8>) -> Image {
    let n = data[5] as nat;
    Image {
        precision: data[0],
        image_height: be16(data[1], data[2]),
        image_width: be16(data[3], data[4]),
        number_of_components: data[5],
        comp_id: Seq::new(n, |i: int| data[6 + 3 * i]),
        hsamp_factor: Seq::new(n, |i: int| high_nibble(data[7 + 3 * i])),
        vsamp_factor: Seq::new(n, |i: int| low_nibble(data[7 + 3 * i])),
        qtable_number: Seq::new(n, |i: int| data[8 + 3 * i]),
        dctable_number: Seq::new(n, |i: int| (1 + i) as u8),
        actable_number: Seq::new(n + 1, |i: int| (11 + i) as u8),
        ss: 0,
        se: 0x3f,
        ah: 0,
        al: 0,
    }
}

/// Reads the payload of a frame segment: see [`frame_image`].
///
/// The payload has to hold the three bytes of each component that it counts, and it can
/// count no more than 244 of them: the numbers of the AC tables are bytes.
pub fn process_sof_data(data: &[u8]) -> (obj: JpegObj)
    requires
        data@.len() >= 6,
        data@.len() >= 6 + 3 * data@[5],
        data@[5] <= 244,
    ensures
        obj@ == frame_image(data@),
{
    let precision: u8 = data[0];
    let image_height: u16 = data[1] as u16 * 0x100 + data[2] as u16;
    let image_width: u16 = data[3] as u16 * 0x100 + data[4] as u16;
    let number_of_components: u8 = data[5];
    let n: usize = number_of_components as usize;
    let mut comp_id: Vec<u8> = Vec::with_capacity(n);
    let mut hsamp_factor: Vec<u8> = Vec::with_capacity(n);
    let mut vsamp_factor: Vec<u8> = Vec::with_capacity(n);
    let mut qtable_number: Vec<u8> = Vec::with_capacity(n);
    let mut dctable_number: Vec<u8> = Vec::with_capacity(n);
    let mut actable_number: Vec<u8> = Vec::with_capacity(n + 1);
    let ghost img = frame_image(data@);
    let mut i: usize = 0;
    while i < n
        invariant
            i <= n,
            n == data@[5],
            n <= 244,
            data@.len() >= 6 + 3 * n,
            img == frame_image(data@),
            comp_id@ == img.comp_id.subrange(0, i as int),
            hsamp_factor@ == img.hsamp_factor.subrange(0, i as int),
            vsamp_factor@ == img.vsamp_factor.subrange(0, i as int),
            qtable_number@ == img.qtable_number.subrange(0, i as int),
            dctable_number@ == img.dctable_number.subrange(0, i as int),
            actable_number@ == img.actable_number.subrange(0, i as int),
        decreases n - i,
    {
        let index: usize = 6 + 3 * i;
        comp_id.push(data[index]);
        hsamp_factor.push(data[index + 1] / 0x10);
        vsamp_factor.push(data[index + 1] % 0x10);
        qtable_number.push(data[index + 2]);
        dctable_number.push((1 + i) as u8);
        actable_number.push((11 + i) as u8);
        i += 1;
        assert(comp_id@ =~= img.comp_id.subrange(0, i as int));
        assert(hsamp_factor@ =~= img.hsamp_factor.subrange(0, i as int));
        assert(vsamp_factor@ =~= img.vsamp_factor.subrange(0, i as int));
        assert(qtable_number@ =~= img.qtable_number.subrange(0, i as int));
        assert(dctable_number@ =~= img.dctable_number.subrange(0, i as int));
        assert(actable_number@ =~= img.actable_number.subrange(0, i as int));
    }
    actable_number.push((11 + n) as u8);
    assert(comp_id@ =~= img.comp_id);
    assert(hsamp_factor@ =~= img.hsamp_factor);
    assert(vsamp_factor@ =~= img.vsamp_factor);
    assert(qtable_number@ =~= img.qtable_number);
    assert(dctable_number@ =~= img.dctable_number);
    assert(actable_number@ =~= img.actable_number);
    JpegObj {
        precision,
        image_height,
        image_width,
        number_of_components,
        comp_id,
        hsamp_factor,
        vsamp_factor,
        qtable_number,
        dctable_number,
        actable_number,
        ss: 0x00,
        se: 0x3f,
        ah: 0x00,
        al: 0x00,
    }
}

/// How many components are read from the payload `data` of a scan segment: as many as it
/// counts, but only those of which it holds the first two bytes.
pub open spec fn scan_components_read(data: Seq<u8>) -> nat {
    let held = if data.len() >= 8 {
        (data.len() - 4) / 4
    } else {
        0
    };
    if data[5] <= held {
        data[5] as nat
    } else {
        held as nat
    }
}

/// The byte of `data` at `i`, or zero where `data` ends before it.
pub open spec fn byte_or_zero(data: Seq<u8>, i: int) -> u8 {
    if 0 <= i < data.len() {
        data[i]
    } else {
        0
    }
}

/// The image that the payload `data` of a scan segment describes, for an image of the
/// given height and width.
///
/// The payload holds the precision in its first byte and the number of components in its
/// sixth, and for each component four bytes: its identifier, the numbers of its two
/// Huffman tables packed into one byte, its two sampling factors packed into one byte, and
/// the number of its quantization table. After the components that are read come the
/// spectral selection and the two bit positions packed into one byte; what the payload
/// does not hold of these is zero.
pub open spec fn scan_image(data: Seq<u8>, image_height: u16, image_width: u16) -> Image {
    let n = scan_components_read(data);
    let end = 6 + 4 * (n as int);
    Image {
        precision: data[0],
        image_height,
        image_width,
        number_of_components: data[5],
        comp_id: Seq::new(n, |i: int| data[6 + 4 * i]),
        hsamp_factor: Seq::new(n, |i: int| high_nibble(data[8 + 4 * i])),
        vsamp_factor: Seq::new(n, |i: int| low_nibble(data[8 + 4 * i])),
        qtable_number: Seq::new(n, |i: int| data[9 + 4 * i]),
        dctable_number: Seq::new(n, |i: int| high_nibble(data[7 + 4 * i])),
        actable_number: Seq::new(n, |i: int| low_nibble(data[7 + 4 * i])),
        ss: byte_or_zero(data, end),
        se: byte_or_zero(data, end + 1),
        ah: high_nibble(byte_or_zero(data, end + 2)),
        al: low_nibble(byte_or_zero(data, end + 2)),
    }
}

/// Whether the payload `data` of a scan segment holds each component that is read from it
/// whole: it does not end after the second or third byte of one.
pub open spec fn scan_components_whole(data: Seq<u8>) -> bool {
    data.len() < 8 || (data.len() - 8) / 4 >= data[5] || (data.len() - 8) % 4 >= 2
}

/// Reads the payload of a scan segment: see [`scan_image`].
pub fn process_sos_data(data: &[u8], image_height: u16, image_width: u16) -> (obj: JpegObj)
    requires
        data@.len() >= 6,
        scan_components_whole(data@),
    ensures
        obj@ == scan_image(data@, image_height, image_width),
{
    let precision: u8 = data[0];
    let number_of_components: u8 = data[5];
    let n: usize = number_of_components as usize;
    let mut comp_id: Vec<u8> = Vec::with_capacity(n);
    let mut dc_table_number: Vec<u8> = Vec::with_capacity(n);
    let mut ac_table_number: Vec<u8> = Vec::with_capacity(n);
    let mut hsamp_factor: Vec<u8> = Vec::with_capacity(n);
    let mut vsamp_factor: Vec<u8> = Vec::with_capacity(n);
    let mut qtable_number: Vec<u8> = Vec::with_capacity(n);
    let ghost img = scan_image(data@, image_height, image_width);
    let ghost total = scan_components_read(data@);
    let len: usize = data.len();
    let mut index: usize = 6;
    let mut i: usize = 0;
    while i < n && index + 1 < len
        invariant
            i <= n,
            n == data@[5],
            len == data@.len(),
            index == 6 + 4 * i,
            i <= total,
            total == scan_components_read(data@),
            scan_components_whole(data@),
            img == scan_image(data@, image_height, image_width),
            comp_id@ == img.comp_id.subrange(0, i as int),
            hsamp_factor@ == img.hsamp_factor.subrange(0, i as int),
            vsamp_factor@ == img.vsamp_factor.subrange(0, i as int),
            qtable_number@ == img.qtable_number.subrange(0, i as int),
            dc_table_number@ == img.dctable_number.subrange(0, i as int),
            ac_table_number@ == img.actable_number.subrange(0, i as int),
        decreases n - i,
    {
        comp_id.push(data[index]);
        dc_table_number.push(data[index + 1] / 0x10);
        ac_table_number.push(data[index + 1] % 0x10);
        hsamp_factor.push(data[index + 2] / 0x10);
        vsamp_factor.push(data[index + 2] % 0x10);
        qtable_number.push(data[index + 3]);
        index += 4;
        i += 1;
        assert(comp_id@ =~= img.comp_id.subrange(0, i as int));
        assert(hsamp_factor@ =~= img.hsamp_factor.subrange(0, i as int));
        assert(vsamp_factor@ =~= img.vsamp_factor.subrange(0, i as int));
        assert(qtable_number@ =~= img.qtable_number.subrange(0, i as int));
        assert(dc_table_number@ =~= img.dctable_number.subrange(0, i as int));
        assert(ac_table_number@ =~= img.actable_number.subrange(0, i as int));
    }
    assert(i == total);
    let ss: u8 = if index < len {
        data[index]
    } else {
        0
    };
    let se: u8 = if index + 1 < len {
        data[index + 1]
    } else {
        0
    };
    let ah_al: u8 = if index + 2 < len {
        data[index + 2]
    } else {
        0
    };
    assert(comp_id@ =~= img.comp_id);
    assert(hsamp_factor@ =~= img.hsamp_factor);
    assert(vsamp_factor@ =~= img.vsamp_factor);
    assert(qtable_number@ =~= img.qtable_number);
    assert(dc_table_number@ =~= img.dctable_number);
    assert(ac_table_number@ =~= img.actable_number);
    JpegObj {
        precision,
        image_height,
        image_width,
        number_of_components,
        comp_id,
        hsamp_factor,
        vsamp_factor,
        qtable_number,
        dctable_number: dc_table_number,
        actable_number: ac_table_number,
        ss,
        se,
        ah: ah_al / 0x10,
        al: ah_al % 0x10,
    }
}

/// The lists of code counts that a new encoder holds: DC and AC for luminance, DC and AC
/// for chrominance.
pub open spec fn standard_bits() -> Seq<Seq<i32>> {
    seq![dc_luminance_bits(), ac_luminance_bits(), dc_chrominance_bits(), ac_chrominance_bits()]
}

/// The lists of symbols that a new encoder holds, in the same order.
pub open spec fn standard_val() -> Seq<Seq<i32>> {
    seq![dc_values(), ac_luminance_values(), dc_values(), ac_chrominance_values()]
}

/// How many of the seventeen counts of a table are read at `index`: those that `data`
/// still holds.
pub open spec fn counts_held(data: Seq<u8>, index: int) -> int {
    if index + 17 <= data.len() {
        17
    } else {
        data.len() - index
    }
}

/// Whether the symbols of the table at `index` are read: `data` holds as many, after the
/// counts, as the first count says.
pub open spec fn symbols_held(data: Seq<u8>, index: int) -> bool {
    index + counts_held(data, index) + data[index] <= data.len()
}

/// Where the table at `index` ends: after its counts, and after its symbols where they
/// are read.
pub open spec fn table_end(data: Seq<u8>, index: int) -> int {
    if symbols_held(data, index) {
        index + counts_held(data, index) + data[index]
    } else {
        index + counts_held(data, index)
    }
}

/// The list of counts of the table read at `index`, which was `before`: the counts that
/// `data` holds replace the first of them, and the third and fourth entry then take the
/// upper and the lower part of the place two bytes before the end of the table.
pub open spec fn table_bits(data: Seq<u8>, index: int, before: Seq<i32>) -> Seq<i32> {
    Seq::new(
        17,
        |j: int|
            if j == 2 {
                (((table_end(data, index) - 2) as usize) / 0x100) as i32
            } else if j == 3 {
                ((table_end(data, index) - 2) as usize) as i32
            } else if j < counts_held(data, index) {
                data[index + j] as i32
            } else {
                before[j]
            },
    )
}

/// The list of symbols of the table read at `index`, which was `before`.
pub open spec fn table_val(data: Seq<u8>, index: int, before: Seq<i32>) -> Seq<i32> {
    if symbols_held(data, index) {
        Seq::new(
            data[index] as nat,
            |k: int| data[index + counts_held(data, index) + k] as i32,
        )
    } else {
        before
    }
}

/// Where table `i` starts: the first after the four bytes of the size, each other where
/// the one before it ends. A table that starts at the end of `data` is not read, nor are
/// those after it.
pub open spec fn table_start(data: Seq<u8>, i: int) -> int
    decreases i,
{
    if i <= 0 {
        4
    } else if table_start(data, i - 1) < data.len() {
        table_end(data, table_start(data, i - 1))
    } else {
        table_start(data, i - 1)
    }
}

/// Whether table `i` is read.
pub open spec fn table_is_read(data: Seq<u8>, i: int) -> bool {
    table_start(data, i) < data.len()
}

/// The encoder that the payload `data` of a table segment gives: a new encoder for an
/// image whose height and width are in the first four bytes, with each table that is read
/// in place of the standard one.
pub open spec fn tables_read(data: Seq<u8>, h: Huffman) -> bool {
    &&& h.image_height == be16(data[0], data[1])
    &&& h.image_width == be16(data[2], data[3])
    &&& h.bits@.len() == 4
    &&& h.val@.len() == 4
    &&& forall|i: int|
        0 <= i < 4 ==> (#[trigger] h.bits@[i])@ == if table_is_read(data, i) {
            table_bits(data, table_start(data, i), standard_bits()[i])
        } else {
            standard_bits()[i]
        }
    &&& forall|i: int|
        0 <= i < 4 ==> (#[trigger] h.val@[i])@ == if table_is_read(data, i) {
            table_val(data, table_start(data, i), standard_val()[i])
        } else {
            standard_val()[i]
        }
}

/// Whether `h` is as a new encoder is, but for its image size and its two lists of lists.
pub open spec fn otherwise_new(h: Huffman) -> bool {
    &&& h.buffer_put_bits == 0
    &&& h.buffer_put_buffer == 0
    &&& blank_table(h.dc_matrix0@, 12)
    &&& blank_table(h.ac_matrix0@, 255)
    &&& blank_table(h.dc_matrix1@, 12)
    &&& blank_table(h.ac_matrix1@, 255)
    &&& h.dc_matrix@.len() == 2
    &&& blank_table(h.dc_matrix@[0]@, 12)
    &&& blank_table(h.dc_matrix@[1]@, 12)
    &&& h.ac_matrix@.len() == 2
    &&& blank_table(h.ac_matrix@[0]@, 255)
    &&& blank_table(h.ac_matrix@[1]@, 255)
    &&& h.code == 0
    &&& h.num_of_dc_tables == 0
    &&& h.num_of_ac_tables == 0
    &&& h.bits_dc_luminance@ == dc_luminance_bits()
    &&& h.val_dc_luminance@ == dc_values()
    &&& h.bits_dc_chrominance@ == dc_chrominance_bits()
    &&& h.val_dc_chrominance@ == dc_values()
    &&& h.bits_ac_luminance@ == ac_luminance_bits()
    &&& h.val_ac_luminance@ == ac_luminance_values()
    &&& h.bits_ac_chrominance@ == ac_chrominance_bits()
    &&& h.val_ac_chrominance@ == ac_chrominance_values()
}

fn read_table_at(data: &[u8], index: usize, bits: &Vec<i32>, val: &Vec<i32>) -> (read: (
    Vec<i32>,
    Vec<i32>,
    usize,
))
    requires
        4 <= index < data@.len(),
        bits@.len() == 17,
    ensures
        read.0@ == table_bits(data@, index as int, bits@),
        read.1@ == table_val(data@, index as int, val@),
        read.2 == table_end(data@, index as int),
        index < read.2 <= data@.len(),
{
    let len: usize = data.len();
    let held: usize = if len - index >= 17 {
        17
    } else {
        len - index
    };
    let mut row: Vec<i32> = Vec::with_capacity(17);
    let mut j: usize = 0;
    while j < 17
        invariant
            j <= 17,
            bits@.len() == 17,
            held == counts_held(data@, index as int),
            index + held <= data@.len() <= usize::MAX,
            row@.len() == j,
            forall|t: int|
                0 <= t < j ==> row@[t] == if t < held {
                    data@[index + t] as i32
                } else {
                    bits@[t]
                },
        decreases 17 - j,
    {
        if j < held {
            row.push(data[index + j] as i32);
        } else {
            row.push(bits[j]);
        }
        j += 1;
    }
    let at: usize = index + held;
    let symbols: usize = data[index] as usize;
    let mut end: usize = at;
    let mut list: Vec<i32> = Vec::new();
    if symbols <= len - at {
        let mut k: usize = 0;
        while k < symbols
            invariant
                k <= symbols,
                at + symbols <= data@.len() <= usize::MAX,
                list@.len() == k,
                forall|t: int| 0 <= t < k ==> list@[t] == data@[at + t] as i32,
            decreases symbols - k,
        {
            list.push(data[at + k] as i32);
            k += 1;
        }
        end = at + symbols;
        assert(list@ =~= table_val(data@, index as int, val@));
    } else {
        list.extend_from_slice(val.as_slice());
        assert(list@ =~= table_val(data@, index as int, val@));
    }
    let place: usize = end - 2;
    row.set(2, #[verifier::truncate] ((place / 0x100) as i32));
    row.set(3, #[verifier::truncate] (place as i32));
    assert(row@ =~= table_bits(data@, index as int, bits@));
    (row, list, end)
}

/// Reads the payload of a segment that defines Huffman tables into a new encoder: see
/// [`tables_read`].
pub fn process_dht_data(data: &[u8]) -> (h: Huffman)
    requires
        data@.len() >= 4,
    ensures
        tables_read(data@, h),
        otherwise_new(h),
{
    let image_height: u16 = data[0] as u16 * 0x100 + data[1] as u16;
    let image_width: u16 = data[2] as u16 * 0x100 + data[3] as u16;
    let mut huf = Huffman::new(image_width as i32, image_height as i32);
    let len: usize = data.len();
    let mut index: usize = 4;
    let mut i: usize = 0;
    assert(huf.bits@.len() == 4 && huf.val@.len() == 4);
    while i < 4 && index < len
        invariant
            i <= 4,
            len == data@.len(),
            4 <= index <= len,
            index == table_start(data@, i as int),
            otherwise_new(huf),
            huf.image_height == be16(data@[0], data@[1]),
            huf.image_width == be16(data@[2], data@[3]),
            huf.bits@.len() == 4,
            huf.val@.len() == 4,
            forall|t: int| 0 <= t < i ==> table_is_read(data@, t),
            forall|t: int|
                0 <= t < i ==> (#[trigger] huf.bits@[t])@ == table_bits(
                    data@,
                    table_start(data@, t),
                    standard_bits()[t],
                ),
            forall|t: int|
                0 <= t < i ==> (#[trigger] huf.val@[t])@ == table_val(
                    data@,
                    table_start(data@, t),
                    standard_val()[t],
                ),
            forall|t: int| i <= t < 4 ==> (#[trigger] huf.bits@[t])@ == standard_bits()[t],
            forall|t: int| i <= t < 4 ==> (#[trigger] huf.val@[t])@ == standard_val()[t],
        decreases 4 - i,
    {
        let read = read_table_at(data, index, &huf.bits[i], &huf.val[i]);
        let (row, list, end) = read;
        huf.bits.set(i, row);
        huf.val.set(i, list);
        index = end;
        i += 1;
    }
    proof {
        if i < 4 {
            lemma_tables_after(data@, i as int);
        }
    }
    huf
}

/// Once a table starts at the end of the payload, so does every one after it.
pub proof fn lemma_tables_after(data: Seq<u8>, i: int)
    requires
        0 <= i,
        data.len() >= 4,
        !table_is_read(data, i),
    ensures
        forall|t: int| i <= t ==> !table_is_read(data, t),
{
    assert forall|t: int| i <= t implies !table_is_read(data, t) by {
        lemma_table_stays(data, i, t);
    }
}

/// A table that starts at the end of the payload pins the start of every later one.
pub proof fn lemma_table_stays(data: Seq<u8>, i: int, t: int)
    requires
        0 <= i <= t,
        !table_is_read(data, i),
    ensures
        table_start(data, t) == table_start(data, i),
    decreases t - i,
{
    if t > i {
        lemma_table_stays(data, i, t - 1);
    }
}

/// The two bytes at the read position as a number, most significant byte first; zero
/// where fewer than two bytes are left.
pub open spec fn marker_read(s: StreamView) -> u16 {
    if s.has(2) {
        be16(s.bytes[s.pos], s.bytes[s.pos + 1])
    } else {
        0
    }
}

/// Reads a marker: two bytes, most significant first. Where fewer than two bytes are
/// left, the marker is zero and the rest of the stream is consumed.
pub fn read_marker(r: &mut ByteReader) -> (marker: u16)
    ensures
        marker == marker_read(old(r)@),
        final(r)@ == old(r)@.after_read(2),
{
    match r.read_exact(2) {
        Some(bytes) => bytes[0] as u16 * 0x100 + bytes[1] as u16,
        None => 0,
    }
}

/// Why the headers of a stream could not be read.
#[derive(Debug, Clone, Copy, PartialEq, Eq, Structural)]
pub enum JpegReadError {
    /// The start lies beyond what a stream can be moved to.
    InvalidSeek,
    /// The stream ended inside a segment.
    UnexpectedEof,
    /// A segment declares a length that it cannot have, or holds what cannot be read.
    Malformed,
}

/// The marker of a JFIF segment.
pub const JFIF_MARKER: u16 = 0xffe0;

/// The marker of a comment segment.
pub const COMMENT_MARKER: u16 = 0xfffe;

/// The marker of a segment of quantization tables.
pub const DQT_MARKER: u16 = 0xffdb;

/// The marker of a segment that starts a frame.
pub const SOF_MARKER: u16 = 0xffc0;

/// The marker of a segment of Huffman tables.
pub const DHT_MARKER: u16 = 0xffc4;

/// The marker of a segment that starts a scan.
pub const SOS_MARKER: u16 = 0xffda;

/// The marker that ends the image.
pub const EOI_MARKER: u16 = 0xffd9;

/// Whether `marker` opens a segment that is read.
pub open spec fn opens_segment(marker: u16) -> bool {
    marker == JFIF_MARKER || marker == COMMENT_MARKER || marker == DQT_MARKER || marker
        == SOF_MARKER || marker == DHT_MARKER || marker == SOS_MARKER
}

/// How many bytes are read as the payload of a segment that declares `length`: two more
/// for a JFIF segment, four fewer for quantization tables, two fewer for the others.
pub open spec fn payload_len(marker: u16, length: u16) -> int {
    if marker == JFIF_MARKER {
        length + 2
    } else if marker == DQT_MARKER {
        length - 4
    } else {
        length - 2
    }
}

/// Whether `data` can be read as the payload of a segment with this marker.
pub open spec fn payload_reads(marker: u16, data: Seq<u8>) -> bool {
    if marker == JFIF_MARKER {
        data.len() == 18 && data[0] == 0x4a && data[1] == 0x46
    } else if marker == DQT_MARKER {
        data.len() == 128
    } else if marker == SOF_MARKER {
        data.len() >= 6 && data.len() >= 6 + 3 * data[5] && data[5] <= 244
    } else if marker == DHT_MARKER {
        data.len() >= 4
    } else if marker == SOS_MARKER {
        data.len() >= 6 && scan_components_whole(data)
    } else {
        true
    }
}

/// The payloads that a walk over a stream found: of each kind of segment the last.
pub struct Segments {
    pub jfif: Option<Seq<u8>>,
    pub comment: Option<Seq<u8>>,
    pub dqt: Option<Seq<u8>>,
    pub sof: Option<Seq<u8>>,
    pub dht: Option<Seq<u8>>,
    pub sos: Option<Seq<u8>>,
    /// The height of the image when the scan was read: that of the frame before it.
    pub scan_height: u16,
    /// The width of the image when the scan was read.
    pub scan_width: u16,
    /// The height of the image as the last frame gave it.
    pub height: u16,
    /// The width of the image as the last frame gave it.
    pub width: u16,
}

/// No payloads.
pub open spec fn no_segments() -> Segments {
    Segments {
        jfif: None,
        comment: None,
        dqt: None,
        sof: None,
        dht: None,
        sos: None,
        scan_height: 0,
        scan_width: 0,
        height: 0,
        width: 0,
    }
}

/// `found` with the payload `data` of a segment with this marker.
pub open spec fn with_segment(found: Segments, marker: u16, data: Seq<u8>) -> Segments {
    if marker == JFIF_MARKER {
        Segments { jfif: Some(data), ..found }
    } else if marker == COMMENT_MARKER {
        Segments { comment: Some(data), ..found }
    } else if marker == DQT_MARKER {
        Segments { dqt: Some(data), ..found }
    } else if marker == SOF_MARKER {
        Segments {
            sof: Some(data),
            height: be16(data[1], data[2]),
            width: be16(data[3], data[4]),
            ..found
        }
    } else if marker == DHT_MARKER {
        Segments { dht: Some(data), ..found }
    } else if marker == SOS_MARKER {
        Segments { sos: Some(data), scan_height: found.height, scan_width: found.width, ..found }
    } else {
        found
    }
}

/// The bytes that are read as the payload of the segment with this marker whose length is
/// at the position of `s`.
///
/// The read fails where the stream ends before the length or inside the payload, and where
/// the segment declares a length that it cannot have.
pub open spec fn payload_held(s: StreamView, marker: u16) -> Result<Seq<u8>, JpegReadError> {
    let at_data = s.after_read(2);
    let n = payload_len(marker, marker_read(s));
    if !s.has(2) {
        Err(JpegReadError::UnexpectedEof)
    } else if n < 0 {
        Err(JpegReadError::Malformed)
    } else if !at_data.has(n) {
        Err(JpegReadError::UnexpectedEof)
    } else {
        Ok(at_data.bytes.subrange(at_data.pos, at_data.pos + n))
    }
}

/// The payload of the segment with this marker whose length is at the position of `s`:
/// the bytes that are read as its payload, where they can be read as one of its kind.
pub open spec fn segment_read(s: StreamView, marker: u16) -> Result<Seq<u8>, JpegReadError> {
    match payload_held(s, marker) {
        Err(e) => Err(e),
        Ok(data) => if payload_reads(marker, data) {
            Ok(data)
        } else {
            Err(JpegReadError::Malformed)
        },
    }
}

/// The stream after the segment whose length is at the position of `s` was read.
pub open spec fn after_segment(s: StreamView, marker: u16) -> StreamView {
    s.after_read(2).after_read(payload_len(marker, marker_read(s)))
}

/// A walk over the markers of a stream from the position of `s`, of at most `left`
/// markers, with `found` in hand.
///
/// A marker that opens a segment is followed by the length of the segment in two bytes and
/// by its payload; any other marker is passed over. The walk ends at the marker that ends
/// the image, and at a marker of zero, which is also what the end of the stream reads as.
/// It fails where a segment cannot be read: see [`segment_read`].
pub open spec fn segments_walked(s: StreamView, found: Segments, left: nat) -> Result<
    Segments,
    JpegReadError,
>
    decreases left,
{
    let marker = marker_read(s);
    let at_length = s.after_read(2);
    if left == 0 || marker == EOI_MARKER || marker == 0 {
        Ok(found)
    } else if !opens_segment(marker) {
        segments_walked(at_length, found, (left - 1) as nat)
    } else {
        match segment_read(at_length, marker) {
            Err(e) => Err(e),
            Ok(data) => segments_walked(
                after_segment(at_length, marker),
                with_segment(found, marker, data),
                (left - 1) as nat,
            ),
        }
    }
}

/// The most markers that a walk reads: one for each number from `start_chunk` to
/// `end_chunk`, and no more than one more than `num_chunks`.
pub open spec fn markers_allowed(start_chunk: usize, end_chunk: usize, num_chunks: usize) -> nat {
    if start_chunk > end_chunk {
        0
    } else if end_chunk - start_chunk + 1 <= num_chunks + 1 {
        (end_chunk - start_chunk + 1) as nat
    } else {
        (num_chunks + 1) as nat
    }
}

/// What [`read_jpeg_headers`] finds in a stream: a walk from `start_chunk`, unless that
/// lies beyond what a stream can be moved to.
pub open spec fn segments_found(
    s: StreamView,
    start_chunk: usize,
    end_chunk: usize,
    num_chunks: usize,
) -> Result<Segments, JpegReadError> {
    if start_chunk > i64::MAX {
        Err(JpegReadError::InvalidSeek)
    } else {
        segments_walked(
            s.after_read(start_chunk as int),
            no_segments(),
            markers_allowed(start_chunk, end_chunk, num_chunks),
        )
    }
}

/// Whether `c` is white space: one of the characters with the Unicode property
/// `White_Space`, which are the tab, the line feed, the vertical tab, the form feed, the
/// carriage return, the space, the next line, the no-break space, the ogham space mark, the
/// spaces from the en quad to the hair space, the line and the paragraph separator, the
/// narrow no-break space, the medium mathematical space and the ideographic space.
pub open spec fn white_space(c: char) -> bool {
    let u = c as u32;
    ||| 0x09 <= u <= 0x0d
    ||| u == 0x20
    ||| u == 0x85
    ||| u == 0xa0
    ||| u == 0x1680
    ||| 0x2000 <= u <= 0x200a
    ||| u == 0x2028
    ||| u == 0x2029
    ||| u == 0x202f
    ||| u == 0x205f
    ||| u == 0x3000
}

/// Whether `c` is white space.
pub fn is_white_space(c: char) -> (white: bool)
    ensures
        white == white_space(c),
{
    let u: u32 = c as u32;
    (0x09 <= u && u <= 0x0d) || u == 0x20 || u == 0x85 || u == 0xa0 || u == 0x1680 || (0x2000 <= u
        && u <= 0x200a) || u == 0x2028 || u == 0x2029 || u == 0x202f || u == 0x205f || u == 0x3000
}

/// `text` without the white space at its start.
pub open spec fn trimmed_at_start(text: Seq<char>) -> Seq<char>
    decreases text.len(),
{
    if text.len() > 0 && white_space(text.first()) {
        trimmed_at_start(text.drop_first())
    } else {
        text
    }
}

/// `text` without the white space at its end.
pub open spec fn trimmed_at_end(text: Seq<char>) -> Seq<char>
    decreases text.len(),
{
    if text.len() > 0 && white_space(text.last()) {
        trimmed_at_end(text.drop_last())
    } else {
        text
    }
}

/// `text` without the white space at its two ends.
pub open spec fn text_trimmed(text: Seq<char>) -> Seq<char> {
    trimmed_at_end(trimmed_at_start(text))
}

/// Calls `str::trim` and takes the text as a `String`. The contract says what the
/// documentation of std does: the result is the text without its leading and trailing
/// white space, where white space is what has the Unicode property `White_Space`.
#[verifier::external_body]
fn trimmed_string(text: &str) -> (out: String)
    ensures
        out@ == text_trimmed(text@),
{
    text.trim().to_owned()
}

/// The headers of a JPEG stream, each where its segment was found.
#[derive(Debug)]
pub struct JpegHeaders {
    /// The JFIF header.
    pub jfif: Option<JfifHeader>,
    /// The comment; one without text where no comment was found.
    pub comment: Option<CommentHeader>,
    /// The quantization tables.
    pub dqt: Option<DqtHeader>,
    /// The start of the frame.
    pub sof: Option<SofHeader>,
    /// The Huffman tables.
    pub dht: Option<DhtHeader>,
    /// The start of the scan.
    pub sos: Option<SosHeader>,
}

/// Whether `headers` holds what was read from the payloads `found`: each header where its
/// payload was found, read as the reader of its kind reads it.
pub open spec fn headers_of(headers: JpegHeaders, found: Segments) -> bool {
    &&& headers.jfif is Some <==> found.jfif is Some
    &&& headers.jfif matches Some(h) ==> h.version == be16(
        found.jfif->Some_0[2],
        found.jfif->Some_0[3],
    )
    &&& headers.comment is Some
    &&& headers.comment->Some_0.comment@ == match found.comment {
        Some(data) => text_trimmed(utf8_lossy(data)),
        None => Seq::<char>::empty(),
    }
    &&& headers.dqt is Some <==> found.dqt is Some
    &&& headers.dqt matches Some(h) ==> forall|i: int, j: int|
        0 <= i < 2 && 0 <= j < 64 ==> h.dct.quantum@[i]@[j] == coefficient_read(
            found.dqt->Some_0,
            i,
            j,
        )
    &&& headers.sof is Some <==> found.sof is Some
    &&& headers.sof matches Some(h) ==> h.jpeg_obj@ == frame_image(found.sof->Some_0)
    &&& headers.dht is Some <==> found.dht is Some
    &&& headers.dht matches Some(h) ==> tables_read(found.dht->Some_0, h.huf) && otherwise_new(
        h.huf,
    )
    &&& headers.sos is Some <==> found.sos is Some
    &&& headers.sos matches Some(h) ==> h.jpeg_obj@ == scan_image(
        found.sos->Some_0,
        found.scan_height,
        found.scan_width,
    )
}

/// What was read of one segment.
enum Header {
    Jfif(JfifHeader),
    Comment(Vec<u8>),
    Dqt(DqtHeader),
    Sof(SofHeader),
    Dht(DhtHeader),
    Sos(SosHeader),
}

/// Whether `header` is what is read of the payload `data` of a segment with this marker,
/// for an image of the given size.
spec fn header_reads(header: Header, marker: u16, data: Seq<u8>, height: u16, width: u16) -> bool {
    match header {
        Header::Jfif(h) => marker == JFIF_MARKER && h.version == be16(data[2], data[3]),
        Header::Comment(d) => marker == COMMENT_MARKER && d@ == data,
        Header::Dqt(h) => marker == DQT_MARKER && forall|i: int, j: int|
            0 <= i < 2 && 0 <= j < 64 ==> h.dct.quantum@[i]@[j] == coefficient_read(data, i, j),
        Header::Sof(h) => marker == SOF_MARKER && h.jpeg_obj@ == frame_image(data),
        Header::Dht(h) => marker == DHT_MARKER && tables_read(data, h.huf) && otherwise_new(h.huf),
        Header::Sos(h) => marker == SOS_MARKER && h.jpeg_obj@ == scan_image(data, height, width),
    }
}

fn read_payload(r: &mut ByteReader, marker: u16) -> (read: Result<Vec<u8>, JpegReadError>)
    requires
        opens_segment(marker),
    ensures
        final(r)@.bytes == old(r)@.bytes,
        read matches Err(e) ==> payload_held(old(r)@, marker) == Err::<Seq<u8>, JpegReadError>(e),
        read matches Ok(data) ==> payload_held(old(r)@, marker) == Ok::<Seq<u8>, JpegReadError>(
            data@,
        ) && final(r)@ == after_segment(old(r)@, marker),
{
    let length: usize = match r.read_exact(2) {
        Some(b) => b[0] as usize * 0x100 + b[1] as usize,
        None => {
            return Err(JpegReadError::UnexpectedEof);
        },
    };
    assert(length == marker_read(old(r)@));
    let n: usize = if marker == JFIF_MARKER {
        length + 2
    } else if marker == DQT_MARKER {
        if length < 4 {
            return Err(JpegReadError::Malformed);
        }
        length - 4
    } else {
        if length < 2 {
            return Err(JpegReadError::Malformed);
        }
        length - 2
    };
    match r.read_exact(n) {
        Some(data) => Ok(data),
        None => Err(JpegReadError::UnexpectedEof),
    }
}

fn read_segment(r: &mut ByteReader, marker: u16, height: u16, width: u16) -> (read: Result<
    Header,
    JpegReadError,
>)
    requires
        opens_segment(marker),
    ensures
        final(r)@.bytes == old(r)@.bytes,
        read matches Err(e) ==> segment_read(old(r)@, marker) == Err::<Seq<u8>, JpegReadError>(e),
        read matches Ok(h) ==> segment_read(old(r)@, marker) is Ok && header_reads(
            h,
            marker,
            segment_read(old(r)@, marker)->Ok_0,
            height,
            width,
        ) && final(r)@ == after_segment(old(r)@, marker),
{
    let data: Vec<u8> = match read_payload(r, marker) {
        Ok(data) => data,
        Err(e) => {
            return Err(e);
        },
    };
    if marker == JFIF_MARKER {
        match JfifHeader::new(data.as_slice()) {
            Ok(h) => Ok(Header::Jfif(h)),
            Err(e) => Err(JpegReadError::Malformed),
        }
    } else if marker == COMMENT_MARKER {
        Ok(Header::Comment(data))
    } else if marker == DQT_MARKER {
        match DctStruct::new(data.as_slice()) {
            Ok(dct) => Ok(Header::Dqt(DqtHeader::new(dct))),
            Err(e) => Err(JpegReadError::Malformed),
        }
    } else if marker == SOF_MARKER {
        if data.len() < 6 || data.len() < 6 + 3 * (data[5] as usize) || data[5] > 244 {
            return Err(JpegReadError::Malformed);
        }
        Ok(Header::Sof(SofHeader::new(process_sof_data(data.as_slice()))))
    } else if marker == DHT_MARKER {
        if data.len() < 4 {
            return Err(JpegReadError::Malformed);
        }
        Ok(Header::Dht(DhtHeader::new(process_dht_data(data.as_slice()))))
    } else {
        if data.len() < 6 || !(data.len() < 8 || (data.len() - 8) / 4 >= data[5] as usize || (
        data.len() - 8) % 4 >= 2) {
            return Err(JpegReadError::Malformed);
        }
        Ok(Header::Sos(SosHeader::new(process_sos_data(data.as_slice(), height, width))))
    }
}

/// Reads the headers of a JPEG stream: moves `start_chunk` bytes on, then walks over at most as
/// many markers as there are numbers from `start_chunk` to `end_chunk`, and no more than
/// one more than `num_chunks`. See [`segments_walked`] for the walk and [`headers_of`] for
/// what is read of each segment.
///
/// Fails with `UnexpectedEof` where the stream ends inside a segment, with `Malformed`
/// where a segment cannot be read, and with `InvalidSeek` where the start is too far.
pub fn read_jpeg_headers(
    r: &mut ByteReader,
    start_chunk: usize,
    end_chunk: usize,
    num_chunks: usize,
) -> (read: Result<JpegHeaders, JpegReadError>)
    ensures
        read matches Ok(headers) ==> segments_found(old(r)@, start_chunk, end_chunk, num_chunks)
            is Ok && headers_of(
            headers,
            segments_found(old(r)@, start_chunk, end_chunk, num_chunks)->Ok_0,
        ),
        read matches Err(e) ==> segments_found(old(r)@, start_chunk, end_chunk, num_chunks)
            == Err::<Segments, JpegReadError>(e),
        final(r)@.bytes == old(r)@.bytes,
{
    if start_chunk as u64 > 0x7fff_ffff_ffff_ffff {
        return Err(JpegReadError::InvalidSeek);
    }
    r.skip(start_chunk);
    let ghost s0 = r@;
    let ghost total = markers_allowed(start_chunk, end_chunk, num_chunks);
    let ghost target = segments_walked(s0, no_segments(), total);
    let mut jfif: Option<JfifHeader> = None;
    let mut comment_data: Option<Vec<u8>> = None;
    let mut dqt: Option<DqtHeader> = None;
    let mut sof: Option<SofHeader> = None;
    let mut dht: Option<DhtHeader> = None;
    let mut sos: Option<SosHeader> = None;
    let mut image_width: u16 = 0;
    let mut image_height: u16 = 0;
    let ghost mut found = no_segments();
    // `limit` is one less than the number of markers allowed, where any is.
    let limit: usize = if start_chunk > end_chunk {
        0
    } else if end_chunk - start_chunk <= num_chunks {
        end_chunk - start_chunk
    } else {
        num_chunks
    };
    let mut more: bool = start_chunk <= end_chunk;
    let mut i: usize = 0;
    while more
        invariant
            r@.bytes == s0.bytes,
            s0 == old(r)@.after_read(start_chunk as int),
            start_chunk <= i64::MAX,
            total == markers_allowed(start_chunk, end_chunk, num_chunks),
            target == segments_walked(s0, no_segments(), total),
            i <= limit,
            more ==> total == limit + 1,
            target == segments_walked(
                r@,
                found,
                if more {
                    (limit + 1 - i) as nat
                } else {
                    0
                },
            ),
            image_height == found.height,
            image_width == found.width,
            jfif is Some <==> found.jfif is Some,
            jfif matches Some(h) ==> header_reads(
                Header::Jfif(h),
                JFIF_MARKER,
                found.jfif->Some_0,
                0,
                0,
            ),
            comment_data is Some <==> found.comment is Some,
            comment_data matches Some(d) ==> d@ == found.comment->Some_0,
            dqt is Some <==> found.dqt is Some,
            dqt matches Some(h) ==> header_reads(Header::Dqt(h), DQT_MARKER, found.dqt->Some_0, 0, 0),
            sof is Some <==> found.sof is Some,
            sof matches Some(h) ==> header_reads(Header::Sof(h), SOF_MARKER, found.sof->Some_0, 0, 0),
            dht is Some <==> found.dht is Some,
            dht matches Some(h) ==> header_reads(Header::Dht(h), DHT_MARKER, found.dht->Some_0, 0, 0),
            sos is Some <==> found.sos is Some,
            sos matches Some(h) ==> header_reads(
                Header::Sos(h),
                SOS_MARKER,
                found.sos->Some_0,
                found.scan_height,
                found.scan_width,
            ),
        decreases
            (if more {
                limit + 1 - i
            } else {
                0
            }),
    {
        let marker: u16 = read_marker(r);
        if marker == EOI_MARKER || marker == 0 {
            more = false;
        } else {
            if marker == JFIF_MARKER || marker == COMMENT_MARKER || marker == DQT_MARKER || marker
                == SOF_MARKER || marker == DHT_MARKER || marker == SOS_MARKER {
                let ghost at_length = r@;
                let header = match read_segment(r, marker, image_height, image_width) {
                    Ok(header) => header,
                    Err(e) => {
                        return Err(e);
                    },
                };
                proof {
                    found = with_segment(found, marker, segment_read(at_length, marker)->Ok_0);
                }
                match header {
                    Header::Jfif(h) => {
                        jfif = Some(h);
                    },
                    Header::Comment(d) => {
                        comment_data = Some(d);
                    },
                    Header::Dqt(h) => {
                        dqt = Some(h);
                    },
                    Header::Sof(h) => {
                        image_width = h.jpeg_obj.image_width;
                        image_height = h.jpeg_obj.image_height;
                        sof = Some(h);
                    },
                    Header::Dht(h) => {
                        dht = Some(h);
                    },
                    Header::Sos(h) => {
                        sos = Some(h);
                    },
                }
            }
            if i == limit {
                more = false;
            } else {
                i += 1;
            }
        }
    }
    let comment = match comment_data {
        Some(data) => {
            let text = string_from_utf8_lossy(data.as_slice());
            CommentHeader::new(trimmed_string(text.as_str()).as_str())
        },
        None => CommentHeader::new(""),
    };
    proof {
        reveal_strlit("");
        assert(""@ =~= Seq::<char>::empty());
    }
    Ok(JpegHeaders { jfif, comment: Some(comment), dqt, sof, dht, sos })
}

} // verus!
