//! PulseMQ storage engine: log-structured storage with segment-based append.
//!
//! A partition log is a sequence of segments; the active segment takes new
//! records. Each record is written to the segment's `.log` file as a 4-byte
//! big-endian size followed by the record itself:
//!
//! ```text
//! offset i64 | timestamp i64 | key length i32 (-1: no key) | key | value length i32 | value
//! ```
//!
//! and after every `index_interval` bytes of log a sparse index entry
//! (offset relative to the segment base, then log position, both u32) is
//! written to the segment's `.index` file. The files themselves are opened
//! and written by the broker; this module decides what goes into them.

use crate::buffer::{
    be_i32, be_i64, be_u32, buf_contents, buf_len, buf_new, buf_put_i32, buf_put_i64, buf_put_slice,
    i32_from_be, i64_from_be, lemma_i32_be_roundtrip, lemma_i64_be_roundtrip,
    lemma_u32_from_be_prefix, lemma_u64_from_be_prefix, u32_to_be,
};
use bytes::BytesMut;
use vstd::prelude::*;
use vstd::string::StringExecFns;

verus! {

/// Errors of the storage engine.
#[derive(Debug)]
pub enum StorageError {
    /// An I/O error on a segment file or directory.
    Io(std::io::Error),
    SegmentNotFound,
    OffsetOutOfRange,
    InvalidRecord,
    NotInitialized,
    /// No partition with this topic and number is open.
    PartitionNotFound(String, i32),
}

/// Configuration for the storage engine.
#[derive(Debug, Clone)]
pub struct StorageConfig {
    /// Directory under which every partition gets a directory of its own.
    pub data_dir: String,
    pub segment_max_bytes: u64,
    /// Number of log bytes after which a sparse index entry is written.
    pub index_interval_bytes: u32,
}

impl Default for StorageConfig {
    /// Data under `./data`, 1 GiB segments, an index entry every 4 KiB.
    fn default() -> (config: StorageConfig)
        ensures
            config.data_dir@ == "./data"@,
            config.segment_max_bytes == 1073741824,
            config.index_interval_bytes == 4096,
    {
        StorageConfig {
            data_dir: String::from_str("./data"),
            segment_max_bytes: 1073741824,
            index_interval_bytes: 4096,
        }
    }
}

/// A single record to be appended.
#[derive(Debug, Clone)]
pub struct Record {
    pub key: Option<Vec<u8>>,
    pub value: Vec<u8>,
    pub timestamp: i64,
}

/// The bytes of a record stored at `offset`: offset, timestamp, key length
/// (or -1 when there is no key) and key, value length and value. Lengths are
/// written as `i32`, truncated as `as i32` truncates.
pub open spec fn encoded_record(offset: i64, record: Record) -> Seq<u8> {
    be_i64(offset) + be_i64(record.timestamp) + match record.key {
        Some(k) => be_i32(k@.len() as i32) + k@,
        None => be_i32(-1i32),
    } + be_i32(record.value@.len() as i32) + record.value@
}

/// Reading a record's layout back gives the record: the first eight bytes
/// are the offset and the next eight the timestamp, each a big-endian
/// `i64`; then comes the key length as a big-endian `i32` (-1 when there is
/// no key) and the key's bytes, then the value length and the value's
/// bytes, which end the encoding. Stated for keys and values whose lengths
/// an `i32` holds.
pub proof fn lemma_encoded_record_reads_back(offset: i64, record: Record)
    requires
        record.key matches Some(k) ==> k@.len() <= i32::MAX,
        record.value@.len() <= i32::MAX,
    ensures
        ({
            let e = encoded_record(offset, record);
            let value_at: int = match record.key {
                Some(k) => 20 + k@.len() as int,
                None => 20,
            };
            &&& e.len() == encoded_record_len(record)
            &&& i64_from_be(e) == offset
            &&& i64_from_be(e.skip(8)) == record.timestamp
            &&& record.key is None ==> i32_from_be(e.skip(16)) == -1
            &&& record.key matches Some(k) ==> i32_from_be(e.skip(16)) == k@.len() && e.subrange(
                20,
                value_at,
            ) == k@
            &&& i32_from_be(e.skip(value_at)) == record.value@.len()
            &&& e.skip(value_at + 4) == record.value@
        }),
{
    let e = encoded_record(offset, record);
    lemma_i64_be_roundtrip(offset);
    lemma_i64_be_roundtrip(record.timestamp);
    lemma_i32_be_roundtrip(-1i32);
    lemma_i32_be_roundtrip(record.value@.len() as i32);
    assert(e.take(8) =~= be_i64(offset));
    assert(e.skip(8).take(8) =~= be_i64(record.timestamp));
    lemma_u64_from_be_prefix(e);
    lemma_u64_from_be_prefix(be_i64(offset));
    lemma_u64_from_be_prefix(e.skip(8));
    lemma_u64_from_be_prefix(be_i64(record.timestamp));
    let value_at: int = match record.key {
        Some(k) => 20 + k@.len() as int,
        None => 20,
    };
    match record.key {
        Some(k) => {
            lemma_i32_be_roundtrip(k@.len() as i32);
            assert(e.skip(16).take(4) =~= be_i32(k@.len() as i32));
            lemma_u32_from_be_prefix(e.skip(16));
            lemma_u32_from_be_prefix(be_i32(k@.len() as i32));
            assert(e.subrange(20, value_at) =~= k@);
        },
        None => {
            assert(e.skip(16).take(4) =~= be_i32(-1i32));
            lemma_u32_from_be_prefix(e.skip(16));
            lemma_u32_from_be_prefix(be_i32(-1i32));
        },
    }
    assert(e.skip(value_at).take(4) =~= be_i32(record.value@.len() as i32));
    lemma_u32_from_be_prefix(e.skip(value_at));
    lemma_u32_from_be_prefix(be_i32(record.value@.len() as i32));
    assert(e.skip(value_at + 4) =~= record.value@);
}

/// Number of bytes of a record's encoding.
pub open spec fn encoded_record_len(record: Record) -> nat {
    match record.key {
        Some(k) => 24 + k@.len() + record.value@.len(),
        None => 24 + record.value@.len(),
    }
}

/// Whether the encoding of `record` fits in a buffer (at most `isize::MAX` bytes).
pub fn encoded_len_fits(record: &Record) -> (fits: bool)
    ensures
        fits == (encoded_record_len(*record) <= isize::MAX),
{
    let key_len: usize = match &record.key {
        Some(k) => k.len(),
        None => 0,
    };
    let value_len = record.value.len();
    let limit = isize::MAX as usize;
    key_len <= limit && value_len <= limit - key_len && 24 <= limit - key_len - value_len
}

/// Lays out the record stored at `offset` in a fresh buffer.
pub fn encode_record(offset: i64, record: &Record) -> (buf: BytesMut)
    requires
        encoded_record_len(*record) <= isize::MAX,
    ensures
        buf_contents(buf) == encoded_record(offset, *record),
        buf_contents(buf).len() == encoded_record_len(*record),
{
    let mut buf = buf_new();
    buf_put_i64(&mut buf, offset);
    buf_put_i64(&mut buf, record.timestamp);
    match &record.key {
        Some(k) => {
            buf_put_i32(&mut buf, k.len() as i32);
            buf_put_slice(&mut buf, k.as_slice());
        },
        None => {
            buf_put_i32(&mut buf, -1);
        },
    }
    buf_put_i32(&mut buf, record.value.len() as i32);
    buf_put_slice(&mut buf, record.value.as_slice());
    assert(buf_contents(buf) =~= encoded_record(offset, *record));
    buf
}

// ---------------------------------------------------------------------------
// Directory and file names
// ---------------------------------------------------------------------------

/// The decimal digit character for `d` (`0 <= d < 10`).
pub open spec fn digit_char(d: nat) -> char {
    if d == 0 {
        '0'
    } else if d == 1 {
        '1'
    } else if d == 2 {
        '2'
    } else if d == 3 {
        '3'
    } else if d == 4 {
        '4'
    } else if d == 5 {
        '5'
    } else if d == 6 {
        '6'
    } else if d == 7 {
        '7'
    } else if d == 8 {
        '8'
    } else {
        '9'
    }
}

/// The decimal digits of `n`, most significant first, without leading zeros
/// ("0" for zero).
pub open spec fn decimal(n: nat) -> Seq<char>
    decreases n,
{
    if n < 10 {
        seq![digit_char(n)]
    } else {
        decimal(n / 10).push(digit_char(n % 10))
    }
}

/// `count` zero characters.
pub open spec fn zeros(count: nat) -> Seq<char> {
    Seq::new(count, |i: int| '0')
}

/// `digits` with zeros put in front until it is at least `width` long.
pub open spec fn zero_padded(digits: Seq<char>, width: nat) -> Seq<char> {
    if digits.len() < width {
        zeros((width - digits.len()) as nat) + digits
    } else {
        digits
    }
}

/// The magnitude of `v`.
pub open spec fn magnitude(v: int) -> nat {
    if v < 0 {
        (-v) as nat
    } else {
        v as nat
    }
}

/// `v` in decimal with a leading `-` when negative, as `format!("{}", v)`
/// writes it.
pub open spec fn signed_decimal(v: int) -> Seq<char> {
    if v < 0 {
        seq!['-'] + decimal(magnitude(v))
    } else {
        decimal(magnitude(v))
    }
}

/// `v` in decimal, zero-padded after the sign to a total width of 20, as
/// `format!("{:020}", v)` writes it.
pub open spec fn segment_stem(v: i64) -> Seq<char> {
    if v < 0 {
        seq!['-'] + zero_padded(decimal(magnitude(v as int)), 19)
    } else {
        zero_padded(decimal(magnitude(v as int)), 20)
    }
}

/// The one-character string of the decimal digit `d`.
fn digit_str(d: u64) -> (s: &'static str)
    requires
        d < 10,
    ensures
        s@ == seq![digit_char(d as nat)],
{
    proof {
        reveal_strlit("0");
        reveal_strlit("1");
        reveal_strlit("2");
        reveal_strlit("3");
        reveal_strlit("4");
        reveal_strlit("5");
        reveal_strlit("6");
        reveal_strlit("7");
        reveal_strlit("8");
        reveal_strlit("9");
    }
    match d {
        0 => "0",
        1 => "1",
        2 => "2",
        3 => "3",
        4 => "4",
        5 => "5",
        6 => "6",
        7 => "7",
        8 => "8",
        _ => "9",
    }
}

/// Appends the decimal digits of `n` to `s`.
fn append_decimal(s: &mut String, n: u64)
    ensures
        final(s)@ == old(s)@ + decimal(n as nat),
    decreases n,
{
    if n >= 10 {
        append_decimal(s, n / 10);
    }
    s.append(digit_str(n % 10));
    assert(final(s)@ =~= old(s)@ + decimal(n as nat));
}

/// Ten to the power `k`.
pub open spec fn pow10(k: nat) -> nat
    decreases k,
{
    if k == 0 {
        1
    } else {
        10 * pow10((k - 1) as nat)
    }
}

/// A number below `10^k` has at most `k` decimal digits.
proof fn lemma_decimal_len_bound(n: nat, k: nat)
    requires
        1 <= k,
        n < pow10(k),
    ensures
        decimal(n).len() <= k,
    decreases k,
{
    if n >= 10 {
        assert(pow10(k) == 10 * pow10((k - 1) as nat));
        assert(k != 1) by {
            if k == 1 {
                assert(pow10(0) == 1);
            }
        }
        lemma_decimal_len_bound(n / 10, (k - 1) as nat);
    }
}

/// A `u64` has at most 20 decimal digits.
proof fn lemma_u64_decimal_len(n: u64)
    ensures
        decimal(n as nat).len() <= 20,
{
    reveal_with_fuel(pow10, 21);
    assert(pow10(20) == 100000000000000000000nat);
    lemma_decimal_len_bound(n as nat, 20);
}

/// The number of decimal digits of `n`.
fn decimal_len(n: u64) -> (len: usize)
    ensures
        len == decimal(n as nat).len(),
    decreases n,
{
    proof {
        lemma_u64_decimal_len(n);
    }
    if n >= 10 {
        decimal_len(n / 10) + 1
    } else {
        1
    }
}

/// The magnitude of `v` as a `u64`.
fn magnitude_u64(v: i64) -> (m: u64)
    ensures
        m == magnitude(v as int),
{
    if v < 0 {
        ((-(v + 1)) as u64) + 1
    } else {
        v as u64
    }
}

/// Appends `v` in decimal, with a leading `-` when negative.
fn append_signed_decimal(s: &mut String, v: i64)
    ensures
        final(s)@ == old(s)@ + signed_decimal(v as int),
{
    proof {
        reveal_strlit("-");
    }
    let ghost s0 = s@;
    if v < 0 {
        s.append("-");
    }
    append_decimal(s, magnitude_u64(v));
    assert(s@ =~= s0 + signed_decimal(v as int));
}

/// Appends `v` in decimal, zero-padded after the sign to a total width of 20.
fn append_segment_stem(s: &mut String, v: i64)
    ensures
        final(s)@ == old(s)@ + segment_stem(v),
{
    proof {
        reveal_strlit("-");
        reveal_strlit("0");
    }
    let ghost s0 = s@;
    let m = magnitude_u64(v);
    let width: usize = if v < 0 {
        s.append("-");
        19
    } else {
        20
    };
    let ghost s1 = s@;
    let len = decimal_len(m);
    let mut i: usize = len;
    while i < width
        invariant
            len <= i <= width || (width <= len && i == len),
            s@ == s1 + zeros((i - len) as nat),
        decreases width - i,
    {
        proof {
            reveal_strlit("0");
        }
        s.append("0");
        i = i + 1;
        assert(s@ =~= s1 + zeros((i - len) as nat));
    }
    append_decimal(s, m);
    assert(s@ =~= s0 + segment_stem(v));
}

/// Name of the directory that holds a partition's segments: the topic, a
/// dash and the partition number, as `format!("{}-{}", topic, partition)`.
pub fn partition_dir_name(topic: &str, partition: i32) -> (name: String)
    ensures
        name@ == topic@ + seq!['-'] + signed_decimal(partition as int),
{
    proof {
        reveal_strlit("-");
    }
    let mut name = String::from_str(topic);
    name.append("-");
    append_signed_decimal(&mut name, partition as i64);
    assert(name@ =~= topic@ + seq!['-'] + signed_decimal(partition as int));
    name
}

/// Name of the log file of the segment based at `base_offset`:
/// `format!("{:020}.log", base_offset)`.
pub fn segment_log_file_name(base_offset: i64) -> (name: String)
    ensures
        name@ == segment_stem(base_offset) + ".log"@,
{
    let mut name = String::new();
    append_segment_stem(&mut name, base_offset);
    name.append(".log");
    name
}

/// Name of the index file of the segment based at `base_offset`:
/// `format!("{:020}.index", base_offset)`.
pub fn segment_index_file_name(base_offset: i64) -> (name: String)
    ensures
        name@ == segment_stem(base_offset) + ".index"@,
{
    let mut name = String::new();
    append_segment_stem(&mut name, base_offset);
    name.append(".index");
    name
}

// ---------------------------------------------------------------------------
// Segments
// ---------------------------------------------------------------------------

/// What a log segment keeps track of.
pub struct SegmentView {
    /// Offset of the first record of the segment.
    pub base_offset: i64,
    /// Offset the next appended record gets.
    pub next_offset: i64,
    /// Number of bytes written to the segment's log file.
    pub current_position: u64,
    /// Log bytes written since the last index entry.
    pub bytes_since_index: u32,
    /// Log bytes after which an index entry is written.
    pub index_interval: u32,
}

/// The active log segment of a partition: where its next record goes and
/// when its next sparse index entry is due. Its files are held by the broker.
pub struct LogSegment {
    base_offset: i64,
    current_position: u64,
    bytes_since_index: u32,
    index_interval: u32,
    next_offset: i64,
}

impl View for LogSegment {
    type V = SegmentView;

    closed spec fn view(&self) -> SegmentView {
        SegmentView {
            base_offset: self.base_offset,
            next_offset: self.next_offset,
            current_position: self.current_position,
            bytes_since_index: self.bytes_since_index,
            index_interval: self.index_interval,
        }
    }
}

/// A record whose offset is taken and whose bytes are laid out, to be
/// written to the segment's log file: `size_prefix`, then `record_bytes`.
pub struct PendingAppend {
    /// The offset the record was given.
    pub offset: i64,
    /// Number of bytes of `record_bytes`, as a `u32`.
    pub record_size: u32,
    /// `record_size` in big-endian.
    pub size_prefix: [u8; 4],
    /// The record's encoding.
    pub record_bytes: BytesMut,
}

/// Number of log-file bytes a pending record takes: its size prefix and its bytes.
pub open spec fn entry_len(pending: PendingAppend) -> nat {
    pending.record_size as nat + 4
}

/// The segment after an offset is taken for a new record.
pub open spec fn after_begin(seg: SegmentView) -> SegmentView {
    SegmentView { next_offset: seg.next_offset.wrapping_add(1), ..seg }
}

/// Whether writing `entry` more bytes of log makes an index entry due.
pub open spec fn index_due(seg: SegmentView, entry: nat) -> bool {
    seg.bytes_since_index + entry >= seg.index_interval
}

/// The segment after `entry` bytes of log were written: the bytes count
/// towards the next index entry, and when no index entry is due the log
/// position moves past them.
pub open spec fn after_record_written(seg: SegmentView, entry: nat) -> SegmentView {
    SegmentView {
        bytes_since_index: (seg.bytes_since_index + entry) as u32,
        current_position: if index_due(seg, entry) {
            seg.current_position
        } else {
            (seg.current_position + entry) as u64
        },
        ..seg
    }
}

/// The segment after the index entry for a record of `entry` log bytes was
/// written: the count restarts and the log position moves past the record.
pub open spec fn after_index_written(seg: SegmentView, entry: nat) -> SegmentView {
    SegmentView {
        bytes_since_index: 0,
        current_position: (seg.current_position + entry) as u64,
        ..seg
    }
}

/// The sparse index entry for the record at `offset` that starts at the
/// segment's current log position: the offset relative to the segment base
/// and the position, each as a big-endian `u32` (truncated as `as u32` does).
pub open spec fn index_entry(seg: SegmentView, offset: i64) -> Seq<u8> {
    be_u32(offset.wrapping_sub(seg.base_offset) as u32) + be_u32(seg.current_position as u32)
}

/// The segment after a record of `entry` log bytes is appended in full: its
/// offset taken, its log entry written and, when due, its index entry written.
pub open spec fn complete_append(seg: SegmentView, entry: nat) -> SegmentView {
    let taken = after_begin(seg);
    let logged = after_record_written(taken, entry);
    if index_due(taken, entry) {
        after_index_written(logged, entry)
    } else {
        logged
    }
}

/// The segment after records of the given log-entry sizes are appended in
/// full, in order.
pub open spec fn complete_appends(seg: SegmentView, entries: Seq<nat>) -> SegmentView
    decreases entries.len(),
{
    if entries.len() == 0 {
        seg
    } else {
        complete_append(complete_appends(seg, entries.drop_last()), entries.last())
    }
}

/// Sum of the given sizes.
pub open spec fn total_len(entries: Seq<nat>) -> nat
    decreases entries.len(),
{
    if entries.len() == 0 {
        0
    } else {
        total_len(entries.drop_last()) + entries.last()
    }
}

/// The index spacing of a segment: fewer log bytes than the index interval
/// have been written since the last index entry (none at all when the
/// interval is zero, so that every record gets an entry).
pub open spec fn index_spacing_kept(seg: SegmentView) -> bool {
    seg.bytes_since_index < seg.index_interval || seg.bytes_since_index == 0
}

/// A sparse index entry is written once at least `index_interval` log bytes
/// have accumulated, so no more than that stay unindexed: appending a record
/// in full keeps the index spacing of a segment.
pub proof fn lemma_complete_append_keeps_index_spacing(seg: SegmentView, entry: nat)
    requires
        index_spacing_kept(seg),
        seg.index_interval + entry <= u32::MAX,
    ensures
        index_spacing_kept(complete_append(seg, entry)),
        seg.bytes_since_index + entry <= u32::MAX,
{
}

/// Offsets in a partition are dense and ordered: appending records in full
/// hands out the offsets `next_offset, next_offset + 1, ...`, so the log end
/// offset moves by the number of records appended, and the log grows by the
/// bytes of their entries. The segment's base offset and index interval
/// stay, and so does its index spacing.
pub proof fn lemma_complete_appends(seg: SegmentView, entries: Seq<nat>)
    requires
        index_spacing_kept(seg),
        seg.next_offset + entries.len() <= i64::MAX,
        seg.current_position + total_len(entries) <= u64::MAX,
        forall|i: int| 0 <= i < entries.len() ==> seg.index_interval + #[trigger] entries[i] <= u32::MAX,
    ensures
        complete_appends(seg, entries).next_offset == seg.next_offset + entries.len(),
        complete_appends(seg, entries).current_position == seg.current_position + total_len(entries),
        complete_appends(seg, entries).base_offset == seg.base_offset,
        complete_appends(seg, entries).index_interval == seg.index_interval,
        index_spacing_kept(complete_appends(seg, entries)),
    decreases entries.len(),
{
    if entries.len() > 0 {
        let prefix = entries.drop_last();
        assert forall|i: int| 0 <= i < prefix.len() implies seg.index_interval + #[trigger] prefix[i]
            <= u32::MAX by {
            assert(prefix[i] == entries[i]);
        }
        lemma_complete_appends(seg, prefix);
        let before = complete_appends(seg, prefix);
        assert(seg.index_interval + entries[entries.len() - 1] <= u32::MAX);
        lemma_complete_append_keeps_index_spacing(before, entries.last());
    }
}

/// Positions, among the records appended (counted from 0), of the records
/// that get a sparse index entry when records of the given log-entry sizes
/// are appended in full, in order, to `seg`.
pub open spec fn indexed_records(seg: SegmentView, entries: Seq<nat>) -> Seq<int>
    decreases entries.len(),
{
    if entries.len() == 0 {
        Seq::empty()
    } else {
        let prefix = entries.drop_last();
        let taken = after_begin(complete_appends(seg, prefix));
        if index_due(taken, entries.last()) {
            indexed_records(seg, prefix).push(prefix.len() as int)
        } else {
            indexed_records(seg, prefix)
        }
    }
}

/// The bytes added to the segment's index file when records of the given
/// log-entry sizes are appended in full, in order, to `seg`: the index
/// entries handed out by [`LogSegment::record_written`] when one is due.
pub open spec fn index_bytes(seg: SegmentView, entries: Seq<nat>) -> Seq<u8>
    decreases entries.len(),
{
    if entries.len() == 0 {
        Seq::empty()
    } else {
        let prefix = entries.drop_last();
        let before = complete_appends(seg, prefix);
        let taken = after_begin(before);
        if index_due(taken, entries.last()) {
            index_bytes(seg, prefix) + index_entry(taken, before.next_offset)
        } else {
            index_bytes(seg, prefix)
        }
    }
}

/// An offset taken relative to a base with `wrapping_sub` and cut to 32
/// bits is the true difference cut to 32 bits: the wrap-around is a
/// multiple of 2^64.
proof fn lemma_relative_offset_u32(offset: i64, base: i64)
    ensures
        offset.wrapping_sub(base) as u32 == (offset - base) as u32,
{
    assert(offset.wrapping_sub(base) as u32 == (offset - base) as u32) by (bit_vector);
}

/// The sparse index points at records: appending records in full adds to
/// the index file a list of 8-byte entries, one per indexed record, in the
/// order of the records. The entry of the record appended `k`-th holds its
/// offset relative to the segment base and the log position at which its
/// entry starts (the segment's position plus the bytes of the records before
/// it), each as a big-endian `u32` (truncated as `as u32` does). When every
/// record's log entry is at least the index interval, every record gets an
/// index entry.
pub proof fn lemma_index_entries(seg: SegmentView, entries: Seq<nat>)
    requires
        index_spacing_kept(seg),
        seg.base_offset <= seg.next_offset,
        seg.next_offset + entries.len() <= i64::MAX,
        seg.current_position + total_len(entries) <= u64::MAX,
        forall|i: int| 0 <= i < entries.len() ==> seg.index_interval + #[trigger] entries[i] <= u32::MAX,
    ensures
        forall|m1: int, m2: int|
            0 <= m1 < m2 < indexed_records(seg, entries).len() ==> #[trigger] indexed_records(
                seg,
                entries,
            )[m1] < #[trigger] indexed_records(seg, entries)[m2],
        forall|m: int|
            0 <= m < indexed_records(seg, entries).len() ==> 0 <= #[trigger] indexed_records(
                seg,
                entries,
            )[m] < entries.len(),
        index_bytes(seg, entries).len() == 8 * indexed_records(seg, entries).len(),
        forall|m: int|
            0 <= m < indexed_records(seg, entries).len() ==> index_bytes(seg, entries).subrange(
                8 * m,
                8 * m + 8,
            ) == be_u32(
                (seg.next_offset - seg.base_offset + #[trigger] indexed_records(seg, entries)[m]) as u32,
            ) + be_u32(
                (seg.current_position + total_len(entries.take(indexed_records(seg, entries)[m])))
                    as u32,
            ),
        (forall|i: int| 0 <= i < entries.len() ==> #[trigger] entries[i] >= seg.index_interval)
            ==> indexed_records(seg, entries) == Seq::new(entries.len(), |i: int| i),
    decreases entries.len(),
{
    if entries.len() > 0 {
        let prefix = entries.drop_last();
        let k = prefix.len() as int;
        assert forall|i: int| 0 <= i < prefix.len() implies seg.index_interval + #[trigger] prefix[i]
            <= u32::MAX by {
            assert(prefix[i] == entries[i]);
        }
        lemma_index_entries(seg, prefix);
        lemma_complete_appends(seg, prefix);
        let before = complete_appends(seg, prefix);
        let taken = after_begin(before);
        let ks0 = indexed_records(seg, prefix);
        let ks = indexed_records(seg, entries);
        let b0 = index_bytes(seg, prefix);
        let b = index_bytes(seg, entries);
        assert(entries.take(k) =~= prefix);
        assert forall|m: int| 0 <= m < ks0.len() implies entries.take(#[trigger] ks0[m])
            == prefix.take(ks0[m]) by {
            assert(entries.take(ks0[m]) =~= prefix.take(ks0[m]));
        }
        if index_due(taken, entries.last()) {
            let e = index_entry(taken, before.next_offset);
            lemma_relative_offset_u32(before.next_offset, seg.base_offset);
            assert(before.next_offset - seg.base_offset == seg.next_offset - seg.base_offset + k);
            assert(ks == ks0.push(k));
            assert(b == b0 + e);
            assert forall|m: int| 0 <= m < ks.len() implies b.subrange(8 * m, 8 * m + 8) == be_u32(
                (seg.next_offset - seg.base_offset + #[trigger] ks[m]) as u32,
            ) + be_u32((seg.current_position + total_len(entries.take(ks[m]))) as u32) by {
                if m < ks0.len() {
                    assert(ks[m] == ks0[m]);
                    assert(b.subrange(8 * m, 8 * m + 8) =~= b0.subrange(8 * m, 8 * m + 8));
                } else {
                    assert(b.subrange(8 * m, 8 * m + 8) =~= e);
                }
            }
            assert forall|m1: int, m2: int| 0 <= m1 < m2 < ks.len() implies #[trigger] ks[m1]
                < #[trigger] ks[m2] by {
                if m2 < ks0.len() {
                    assert(ks[m1] == ks0[m1] && ks[m2] == ks0[m2]);
                } else {
                    assert(ks[m1] == ks0[m1]);
                }
            }
            if forall|i: int| 0 <= i < entries.len() ==> #[trigger] entries[i] >= seg.index_interval {
                assert forall|i: int| 0 <= i < prefix.len() implies #[trigger] prefix[i]
                    >= seg.index_interval by {
                    assert(prefix[i] == entries[i]);
                }
                assert(ks =~= Seq::new(entries.len(), |i: int| i));
            }
        } else {
            assert(ks == ks0);
            assert(b == b0);
            if forall|i: int| 0 <= i < entries.len() ==> #[trigger] entries[i] >= seg.index_interval {
                assert(entries[entries.len() - 1] >= seg.index_interval);
            }
        }
    }
}

impl LogSegment {
    /// A new, empty segment starting at `base_offset`, with an index entry
    /// due after every `index_interval` bytes of log.
    pub fn create(base_offset: i64, index_interval: u32) -> (seg: LogSegment)
        ensures
            seg@ == (SegmentView {
                base_offset,
                next_offset: base_offset,
                current_position: 0,
                bytes_since_index: 0,
                index_interval,
            }),
    {
        LogSegment {
            base_offset,
            current_position: 0,
            bytes_since_index: 0,
            index_interval,
            next_offset: base_offset,
        }
    }

    /// Takes the next offset for `record` (offsets wrap around at the end of
    /// the `i64` range) and lays the record out for the log file.
    pub fn begin_append(&mut self, record: &Record) -> (pending: PendingAppend)
        requires
            encoded_record_len(*record) <= isize::MAX,
        ensures
            final(self)@ == after_begin(old(self)@),
            pending.offset == old(self)@.next_offset,
            buf_contents(pending.record_bytes) == encoded_record(pending.offset, *record),
            pending.record_size == encoded_record_len(*record) as u32,
            pending.size_prefix@ == be_u32(pending.record_size),
    {
        let offset = self.next_offset;
        self.next_offset = offset.wrapping_add(1);
        let record_bytes = encode_record(offset, record);
        let record_size = buf_len(&record_bytes) as u32;
        let size_prefix = u32_to_be(record_size);
        PendingAppend { offset, record_size, size_prefix, record_bytes }
    }

    /// Records that the log entry of `pending` was written. Returns the
    /// sparse index entry to write when one is due; otherwise the append is
    /// complete.
    pub fn record_written(&mut self, pending: &PendingAppend) -> (entry: Option<[u8; 8]>)
        requires
            entry_len(*pending) <= u32::MAX,
            old(self)@.bytes_since_index + entry_len(*pending) <= u32::MAX,
            old(self)@.current_position + entry_len(*pending) <= u64::MAX,
        ensures
            final(self)@ == after_record_written(old(self)@, entry_len(*pending)),
            index_due(old(self)@, entry_len(*pending)) ==> (entry matches Some(e) && e@
                == index_entry(old(self)@, pending.offset)),
            !index_due(old(self)@, entry_len(*pending)) ==> entry is None,
    {
        let entry_size = pending.record_size + 4;
        self.bytes_since_index = self.bytes_since_index + entry_size;
        if self.bytes_since_index >= self.index_interval {
            let relative_offset = pending.offset.wrapping_sub(self.base_offset) as u32;
            let r = u32_to_be(relative_offset);
            let p = u32_to_be(self.current_position as u32);
            let e = [r[0], r[1], r[2], r[3], p[0], p[1], p[2], p[3]];
            assert(e@ =~= index_entry(old(self)@, pending.offset));
            Some(e)
        } else {
            self.current_position = self.current_position + entry_size as u64;
            None
        }
    }

    /// Records that the index entry due after `pending` was written.
    pub fn index_written(&mut self, pending: &PendingAppend)
        requires
            old(self)@.current_position + entry_len(*pending) <= u64::MAX,
        ensures
            final(self)@ == after_index_written(old(self)@, entry_len(*pending)),
    {
        self.bytes_since_index = 0;
        self.current_position = self.current_position + pending.record_size as u64 + 4;
    }

    /// The offset the next appended record gets.
    pub fn next_offset(&self) -> (o: i64)
        ensures
            o == self@.next_offset,
    {
        self.next_offset
    }

    /// The offset of the segment's first record.
    pub fn base_offset(&self) -> (o: i64)
        ensures
            o == self@.base_offset,
    {
        self.base_offset
    }

    /// Log bytes written since the last index entry.
    pub fn bytes_since_index(&self) -> (n: u32)
        ensures
            n == self@.bytes_since_index,
    {
        self.bytes_since_index
    }

    /// Number of bytes written to the segment's log file.
    pub fn size_bytes(&self) -> (n: u64)
        ensures
            n == self@.current_position,
    {
        self.current_position
    }
}

// ---------------------------------------------------------------------------
// Partitions and the engine
// ---------------------------------------------------------------------------

/// What a partition log is: its topic, number, directory name and active segment.
pub struct PartitionView {
    pub topic: Seq<char>,
    pub partition: i32,
    pub dir_name: Seq<char>,
    pub segment: SegmentView,
}

/// A single partition log (currently one active segment).
pub struct PartitionLog {
    topic: String,
    partition: i32,
    dir_name: String,
    active_segment: LogSegment,
    config: StorageConfig,
}

impl View for PartitionLog {
    type V = PartitionView;

    closed spec fn view(&self) -> PartitionView {
        PartitionView {
            topic: self.topic@,
            partition: self.partition,
            dir_name: self.dir_name@,
            segment: self.active_segment@,
        }
    }
}

/// A copy of a storage configuration.
fn copy_config(config: &StorageConfig) -> (copy: StorageConfig)
    ensures
        copy.data_dir@ == config.data_dir@,
        copy.segment_max_bytes == config.segment_max_bytes,
        copy.index_interval_bytes == config.index_interval_bytes,
{
    StorageConfig {
        data_dir: config.data_dir.clone(),
        segment_max_bytes: config.segment_max_bytes,
        index_interval_bytes: config.index_interval_bytes,
    }
}

impl PartitionLog {
    /// A partition log for `topic`/`partition`, in the directory named by
    /// [`partition_dir_name`] under the data directory, with a new segment
    /// at offset 0. (Recovering existing segments is not done yet.)
    pub fn open(topic: &str, partition: i32, config: &StorageConfig) -> (log: PartitionLog)
        ensures
            log@ == (PartitionView {
                topic: topic@,
                partition,
                dir_name: topic@ + seq!['-'] + signed_decimal(partition as int),
                segment: SegmentView {
                    base_offset: 0,
                    next_offset: 0,
                    current_position: 0,
                    bytes_since_index: 0,
                    index_interval: config.index_interval_bytes,
                },
            }),
    {
        let dir_name = partition_dir_name(topic, partition);
        let segment = LogSegment::create(0, config.index_interval_bytes);
        PartitionLog {
            topic: String::from_str(topic),
            partition,
            dir_name,
            active_segment: segment,
            config: copy_config(config),
        }
    }

    /// The partition's topic.
    pub fn topic(&self) -> (t: &str)
        ensures
            t@ == self@.topic,
    {
        self.topic.as_str()
    }

    /// The partition's number.
    pub fn partition(&self) -> (p: i32)
        ensures
            p == self@.partition,
    {
        self.partition
    }

    /// Name of the partition's directory under the data directory.
    pub fn dir_name(&self) -> (d: &str)
        ensures
            d@ == self@.dir_name,
    {
        self.dir_name.as_str()
    }

    /// The active segment.
    pub fn active_segment(&self) -> (seg: &LogSegment)
        ensures
            seg@ == self@.segment,
    {
        &self.active_segment
    }

    /// Takes the next offset of the partition for `record`; see
    /// [`LogSegment::begin_append`].
    pub fn begin_append(&mut self, record: &Record) -> (pending: PendingAppend)
        requires
            encoded_record_len(*record) <= isize::MAX,
        ensures
            final(self)@ == (PartitionView { segment: after_begin(old(self)@.segment), ..old(self)@ }),
            pending.offset == old(self)@.segment.next_offset,
            buf_contents(pending.record_bytes) == encoded_record(pending.offset, *record),
            pending.record_size == encoded_record_len(*record) as u32,
            pending.size_prefix@ == be_u32(pending.record_size),
    {
        self.active_segment.begin_append(record)
    }

    /// Records that the log entry of `pending` was written; see
    /// [`LogSegment::record_written`].
    pub fn record_written(&mut self, pending: &PendingAppend) -> (entry: Option<[u8; 8]>)
        requires
            entry_len(*pending) <= u32::MAX,
            old(self)@.segment.bytes_since_index + entry_len(*pending) <= u32::MAX,
            old(self)@.segment.current_position + entry_len(*pending) <= u64::MAX,
        ensures
            final(self)@ == (PartitionView {
                segment: after_record_written(old(self)@.segment, entry_len(*pending)),
                ..old(self)@
            }),
            index_due(old(self)@.segment, entry_len(*pending)) ==> (entry matches Some(e) && e@
                == index_entry(old(self)@.segment, pending.offset)),
            !index_due(old(self)@.segment, entry_len(*pending)) ==> entry is None,
    {
        self.active_segment.record_written(pending)
    }

    /// Records that the index entry due after `pending` was written; see
    /// [`LogSegment::index_written`].
    pub fn index_written(&mut self, pending: &PendingAppend)
        requires
            old(self)@.segment.current_position + entry_len(*pending) <= u64::MAX,
        ensures
            final(self)@ == (PartitionView {
                segment: after_index_written(old(self)@.segment, entry_len(*pending)),
                ..old(self)@
            }),
    {
        self.active_segment.index_written(pending)
    }

    /// The offset the next record appended to the partition gets.
    pub fn log_end_offset(&self) -> (o: i64)
        ensures
            o == self@.segment.next_offset,
    {
        self.active_segment.next_offset()
    }
}

/// Whether a partition log is the one of `topic`/`partition`.
pub open spec fn is_partition(log: PartitionView, topic: Seq<char>, partition: i32) -> bool {
    log.topic == topic && log.partition == partition
}

/// Whether no two of the partition logs share a topic and number.
pub open spec fn distinct_partitions(logs: Seq<PartitionView>) -> bool {
    forall|i: int, j: int|
        #![trigger logs[i], logs[j]]
        0 <= i < logs.len() && 0 <= j < logs.len() && i != j ==> !is_partition(
            logs[i],
            logs[j].topic,
            logs[j].partition,
        )
}

/// Whether one of the partition logs is the one of `topic`/`partition`.
pub open spec fn has_partition(logs: Seq<PartitionView>, topic: Seq<char>, partition: i32) -> bool {
    exists|i: int| 0 <= i < logs.len() && is_partition(#[trigger] logs[i], topic, partition)
}

/// The log end offset of `topic`/`partition`: that of its log when it is
/// open, 0 (an empty partition) when it is not.
pub open spec fn end_offset_of(logs: Seq<PartitionView>, topic: Seq<char>, partition: i32) -> i64 {
    if has_partition(logs, topic, partition) {
        logs[choose|i: int| 0 <= i < logs.len() && is_partition(#[trigger] logs[i], topic, partition)].segment.next_offset
    } else {
        0
    }
}

/// Whether the partition logs `after` differ from `before` only in the log
/// of `topic`/`partition`: every log of `before` is still there at its
/// position, unchanged unless it is that partition's (which stays that
/// partition's), and every log added is that partition's. Each step of an
/// append is such a change: taking an offset, writing an entry or an index
/// entry ([`StorageEngine::begin_append`], [`StorageEngine::record_written`],
/// [`StorageEngine::index_written`] at the partition's position, see
/// [`lemma_update_changes_only`]), and opening the partition
/// ([`StorageEngine::add_partition`], see [`lemma_push_changes_only`]).
pub open spec fn changes_only(
    before: Seq<PartitionView>,
    after: Seq<PartitionView>,
    topic: Seq<char>,
    partition: i32,
) -> bool {
    &&& before.len() <= after.len()
    &&& forall|i: int|
        #![trigger after[i]]
        0 <= i < before.len() ==> after[i] == before[i] || (is_partition(before[i], topic, partition)
            && is_partition(after[i], topic, partition))
    &&& forall|i: int|
        #![trigger after[i]]
        before.len() <= i < after.len() ==> is_partition(after[i], topic, partition)
}

/// Replacing the log of `topic`/`partition` by another log of that
/// partition changes only that partition.
pub proof fn lemma_update_changes_only(
    logs: Seq<PartitionView>,
    index: int,
    log: PartitionView,
    topic: Seq<char>,
    partition: i32,
)
    requires
        0 <= index < logs.len(),
        is_partition(logs[index], topic, partition),
        is_partition(log, topic, partition),
    ensures
        changes_only(logs, logs.update(index, log), topic, partition),
{
}

/// Adding a log of `topic`/`partition` changes only that partition.
pub proof fn lemma_push_changes_only(
    logs: Seq<PartitionView>,
    log: PartitionView,
    topic: Seq<char>,
    partition: i32,
)
    requires
        is_partition(log, topic, partition),
    ensures
        changes_only(logs, logs.push(log), topic, partition),
{
}

/// Partitions are independent logs: a change that touches only
/// `topic`/`partition` leaves every other partition as it was: whether it is
/// open, and its log end offset.
pub proof fn lemma_changes_only_keep_others(
    before: Seq<PartitionView>,
    after: Seq<PartitionView>,
    topic: Seq<char>,
    partition: i32,
    other_topic: Seq<char>,
    other_partition: i32,
)
    requires
        distinct_partitions(before),
        distinct_partitions(after),
        changes_only(before, after, topic, partition),
        !(other_topic == topic && other_partition == partition),
    ensures
        has_partition(after, other_topic, other_partition) == has_partition(
            before,
            other_topic,
            other_partition,
        ),
        end_offset_of(after, other_topic, other_partition) == end_offset_of(
            before,
            other_topic,
            other_partition,
        ),
{
    if has_partition(after, other_topic, other_partition) {
        let i = choose|i: int|
            0 <= i < after.len() && is_partition(#[trigger] after[i], other_topic, other_partition);
        assert(i < before.len());
        assert(after[i] == before[i]);
        assert(is_partition(before[i], other_topic, other_partition));
    }
    if has_partition(before, other_topic, other_partition) {
        let c = choose|i: int|
            0 <= i < before.len() && is_partition(#[trigger] before[i], other_topic, other_partition);
        assert(after[c] == before[c]);
        assert(is_partition(after[c], other_topic, other_partition));
        let a = choose|i: int|
            0 <= i < after.len() && is_partition(#[trigger] after[i], other_topic, other_partition);
        if a != c {
            assert(!is_partition(after[a], after[c].topic, after[c].partition));
        }
    }
}

/// Whether each state of the partition logs in `states` differs from the
/// one before it only in the log of `topic`/`partition`, and each state has
/// every partition at most once (as the engine keeps them).
pub open spec fn changes_only_along(states: Seq<Seq<PartitionView>>, topic: Seq<char>, partition: i32) -> bool {
    &&& forall|k: int| 0 <= k < states.len() ==> distinct_partitions(#[trigger] states[k])
    &&& forall|k: int|
        0 <= k < states.len() - 1 ==> changes_only(#[trigger] states[k], states[k + 1], topic, partition)
}

/// Partitions are independent logs, across a whole append: however many
/// steps it takes, each touching only `topic`/`partition` (opening it,
/// taking offsets, writing entries and index entries), every other partition
/// is at the end where it was at the start: open or not, with the same log
/// end offset.
pub proof fn lemma_append_keeps_other_partitions(
    states: Seq<Seq<PartitionView>>,
    topic: Seq<char>,
    partition: i32,
    other_topic: Seq<char>,
    other_partition: i32,
)
    requires
        states.len() >= 1,
        changes_only_along(states, topic, partition),
        !(other_topic == topic && other_partition == partition),
    ensures
        has_partition(states.last(), other_topic, other_partition) == has_partition(
            states[0],
            other_topic,
            other_partition,
        ),
        end_offset_of(states.last(), other_topic, other_partition) == end_offset_of(
            states[0],
            other_topic,
            other_partition,
        ),
    decreases states.len(),
{
    if states.len() > 1 {
        let prefix = states.drop_last();
        assert forall|k: int| 0 <= k < prefix.len() implies distinct_partitions(#[trigger] prefix[k]) by {
            assert(prefix[k] == states[k]);
        }
        assert forall|k: int| 0 <= k < prefix.len() - 1 implies changes_only(
            #[trigger] prefix[k],
            prefix[k + 1],
            topic,
            partition,
        ) by {
            assert(prefix[k] == states[k]);
            assert(prefix[k + 1] == states[k + 1]);
        }
        lemma_append_keeps_other_partitions(prefix, topic, partition, other_topic, other_partition);
        let n = states.len() - 1;
        assert(distinct_partitions(states[n - 1]));
        assert(distinct_partitions(states[n]));
        assert(changes_only(states[n - 1], states[n], topic, partition));
        lemma_changes_only_keep_others(
            states[n - 1],
            states[n],
            topic,
            partition,
            other_topic,
            other_partition,
        );
    }
}

/// Main storage engine: the configuration and the open partition logs, at
/// most one per topic and partition number.
pub struct StorageEngine {
    config: StorageConfig,
    partitions: Vec<PartitionLog>,
}

impl StorageEngine {
    /// The open partition logs, in the order they were opened.
    pub closed spec fn partitions_view(&self) -> Seq<PartitionView> {
        self.partitions@.map_values(|log: PartitionLog| log@)
    }

    /// The engine's configuration.
    pub closed spec fn config_view(&self) -> StorageConfig {
        self.config
    }

    /// The engine's invariant: no two open partition logs share a topic and
    /// number.
    pub open spec fn wf(&self) -> bool {
        distinct_partitions(self.partitions_view())
    }

    /// An engine with `config` and no open partition.
    pub fn new(config: StorageConfig) -> (engine: StorageEngine)
        ensures
            engine.wf(),
            engine.partitions_view() == Seq::<PartitionView>::empty(),
            engine.config_view() == config,
    {
        let engine = StorageEngine { config, partitions: Vec::new() };
        assert(engine.partitions_view() =~= Seq::<PartitionView>::empty());
        engine
    }

    /// The engine's configuration.
    pub fn config(&self) -> (config: &StorageConfig)
        ensures
            *config == self.config_view(),
    {
        &self.config
    }

    /// Position of the log of `topic`/`partition` among the open ones, if
    /// it is open.
    pub fn partition_index(&self, topic: &str, partition: i32) -> (index: Option<usize>)
        requires
            self.wf(),
        ensures
            match index {
                Some(i) => i < self.partitions_view().len() && is_partition(
                    self.partitions_view()[i as int],
                    topic@,
                    partition,
                ),
                None => !has_partition(self.partitions_view(), topic@, partition),
            },
    {
        let wanted = String::from_str(topic);
        let n = self.partitions.len();
        let ghost logs = self.partitions_view();
        let mut i: usize = 0;
        while i < n
            invariant
                n == self.partitions@.len(),
                logs == self.partitions_view(),
                wanted@ == topic@,
                i <= n,
                forall|j: int| 0 <= j < i ==> !is_partition(#[trigger] logs[j], topic@, partition),
            decreases n - i,
        {
            assert(logs[i as int] == self.partitions@[i as int]@);
            if self.partitions[i].partition == partition && self.partitions[i].topic == wanted {
                return Some(i);
            }
            i = i + 1;
        }
        assert(!has_partition(logs, topic@, partition));
        None
    }

    /// Takes in the partition log `log`, whose topic and number must not be
    /// open yet, and returns its position. The log is opened by the caller
    /// (with [`PartitionLog::open`] and this engine's configuration), so that
    /// its directory and files can be made before it is registered.
    pub fn add_partition(&mut self, log: PartitionLog) -> (index: usize)
        requires
            old(self).wf(),
            !has_partition(old(self).partitions_view(), log@.topic, log@.partition),
        ensures
            final(self).wf(),
            index == old(self).partitions_view().len(),
            final(self).config_view() == old(self).config_view(),
            final(self).partitions_view() == old(self).partitions_view().push(log@),
            changes_only(old(self).partitions_view(), final(self).partitions_view(), log@.topic, log@.partition),
    {
        let index = self.partitions.len();
        let ghost old_logs = self.partitions_view();
        let ghost added = log@;
        self.partitions.push(log);
        assert(self.partitions_view() =~= old_logs.push(added));
        proof {
            lemma_push_changes_only(old_logs, added, added.topic, added.partition);
        }
        index
    }

    /// The log at position `index`.
    pub fn partition_log(&self, index: usize) -> (log: &PartitionLog)
        requires
            index < self.partitions_view().len(),
        ensures
            log@ == self.partitions_view()[index as int],
    {
        &self.partitions[index]
    }

    /// Takes the next offset of the log at position `index` for `record`;
    /// see [`LogSegment::begin_append`]. The other logs stay as they are.
    pub fn begin_append(&mut self, index: usize, record: &Record) -> (pending: PendingAppend)
        requires
            old(self).wf(),
            index < old(self).partitions_view().len(),
            encoded_record_len(*record) <= isize::MAX,
        ensures
            final(self).wf(),
            final(self).config_view() == old(self).config_view(),
            final(self).partitions_view() == old(self).partitions_view().update(
                index as int,
                PartitionView {
                    segment: after_begin(old(self).partitions_view()[index as int].segment),
                    ..old(self).partitions_view()[index as int]
                },
            ),
            pending.offset == old(self).partitions_view()[index as int].segment.next_offset,
            buf_contents(pending.record_bytes) == encoded_record(pending.offset, *record),
            pending.record_size == encoded_record_len(*record) as u32,
            pending.size_prefix@ == be_u32(pending.record_size),
            changes_only(
                old(self).partitions_view(),
                final(self).partitions_view(),
                old(self).partitions_view()[index as int].topic,
                old(self).partitions_view()[index as int].partition,
            ),
    {
        let ghost old_logs = self.partitions_view();
        let pending = self.partitions[index].begin_append(record);
        assert(self.partitions_view() =~= old_logs.update(
            index as int,
            PartitionView { segment: after_begin(old_logs[index as int].segment), ..old_logs[index as int] },
        ));
        proof {
            lemma_update_changes_only(
                old_logs,
                index as int,
                self.partitions_view()[index as int],
                old_logs[index as int].topic,
                old_logs[index as int].partition,
            );
        }
        pending
    }

    /// Records that the log entry of `pending` was written to the log at
    /// position `index`; see [`LogSegment::record_written`].
    pub fn record_written(&mut self, index: usize, pending: &PendingAppend) -> (entry: Option<[u8; 8]>)
        requires
            old(self).wf(),
            index < old(self).partitions_view().len(),
            entry_len(*pending) <= u32::MAX,
            old(self).partitions_view()[index as int].segment.bytes_since_index + entry_len(*pending)
                <= u32::MAX,
            old(self).partitions_view()[index as int].segment.current_position + entry_len(*pending)
                <= u64::MAX,
        ensures
            final(self).wf(),
            final(self).config_view() == old(self).config_view(),
            final(self).partitions_view() == old(self).partitions_view().update(
                index as int,
                PartitionView {
                    segment: after_record_written(
                        old(self).partitions_view()[index as int].segment,
                        entry_len(*pending),
                    ),
                    ..old(self).partitions_view()[index as int]
                },
            ),
            index_due(old(self).partitions_view()[index as int].segment, entry_len(*pending)) ==> (
            entry matches Some(e) && e@ == index_entry(
                old(self).partitions_view()[index as int].segment,
                pending.offset,
            )),
            !index_due(old(self).partitions_view()[index as int].segment, entry_len(*pending))
                ==> entry is None,
            changes_only(
                old(self).partitions_view(),
                final(self).partitions_view(),
                old(self).partitions_view()[index as int].topic,
                old(self).partitions_view()[index as int].partition,
            ),
    {
        let ghost old_logs = self.partitions_view();
        let entry = self.partitions[index].record_written(pending);
        assert(self.partitions_view() =~= old_logs.update(
            index as int,
            PartitionView {
                segment: after_record_written(old_logs[index as int].segment, entry_len(*pending)),
                ..old_logs[index as int]
            },
        ));
        proof {
            lemma_update_changes_only(
                old_logs,
                index as int,
                self.partitions_view()[index as int],
                old_logs[index as int].topic,
                old_logs[index as int].partition,
            );
        }
        entry
    }

    /// Records that the index entry due after `pending` was written for the
    /// log at position `index`; see [`LogSegment::index_written`].
    pub fn index_written(&mut self, index: usize, pending: &PendingAppend)
        requires
            old(self).wf(),
            index < old(self).partitions_view().len(),
            old(self).partitions_view()[index as int].segment.current_position + entry_len(*pending)
                <= u64::MAX,
        ensures
            final(self).wf(),
            final(self).config_view() == old(self).config_view(),
            final(self).partitions_view() == old(self).partitions_view().update(
                index as int,
                PartitionView {
                    segment: after_index_written(
                        old(self).partitions_view()[index as int].segment,
                        entry_len(*pending),
                    ),
                    ..old(self).partitions_view()[index as int]
                },
            ),
            changes_only(
                old(self).partitions_view(),
                final(self).partitions_view(),
                old(self).partitions_view()[index as int].topic,
                old(self).partitions_view()[index as int].partition,
            ),
    {
        let ghost old_logs = self.partitions_view();
        self.partitions[index].index_written(pending);
        assert(self.partitions_view() =~= old_logs.update(
            index as int,
            PartitionView {
                segment: after_index_written(old_logs[index as int].segment, entry_len(*pending)),
                ..old_logs[index as int]
            },
        ));
        proof {
            lemma_update_changes_only(
                old_logs,
                index as int,
                self.partitions_view()[index as int],
                old_logs[index as int].topic,
                old_logs[index as int].partition,
            );
        }
    }

    /// Position of the log that records for `topic`/`partition` are appended
    /// to, or `PartitionNotFound` when that partition is not open.
    pub fn append_target(&self, topic: &str, partition: i32) -> (res: Result<usize, StorageError>)
        requires
            self.wf(),
        ensures
            match res {
                Ok(i) => i < self.partitions_view().len() && is_partition(
                    self.partitions_view()[i as int],
                    topic@,
                    partition,
                ),
                Err(StorageError::PartitionNotFound(t, p)) => t@ == topic@ && p == partition
                    && !has_partition(self.partitions_view(), topic@, partition),
                Err(_) => false,
            },
    {
        match self.partition_index(topic, partition) {
            Some(i) => Ok(i),
            None => Err(StorageError::PartitionNotFound(String::from_str(topic), partition)),
        }
    }

    /// Log end offset of `topic`/`partition`: that of its log, or 0 for a
    /// partition that is not open (an empty partition).
    pub fn log_end_offset(&self, topic: &str, partition: i32) -> (res: Result<i64, StorageError>)
        requires
            self.wf(),
        ensures
            res matches Ok(o) && o == end_offset_of(self.partitions_view(), topic@, partition),
    {
        match self.partition_index(topic, partition) {
            Some(i) => {
                let ghost logs = self.partitions_view();
                proof {
                    let c = choose|k: int| 0 <= k < logs.len() && is_partition(#[trigger] logs[k], topic@, partition);
                    assert(is_partition(logs[i as int], topic@, partition));
                    if c != i {
                        assert(!is_partition(logs[c], logs[i as int].topic, logs[i as int].partition));
                    }
                }
                Ok(self.partitions[i].log_end_offset())
            },
            None => Ok(0),
        }
    }
}

/// Human-readable name of the storage engine.
pub fn storage_engine_name() -> (name: &'static str)
    ensures
        name@ == "PulseMQ Storage Engine v0.1"@,
{
    "PulseMQ Storage Engine v0.1"
}

} // verus!
