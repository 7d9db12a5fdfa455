//! The broker's request handling: the Kafka-compatible responses it sends,
//! and the per-connection state machine that turns bytes read from a socket
//! into requests. The sockets themselves, the storage files and the clock
//! belong to the broker program.
//!
//! Every response is a frame: a big-endian `i32` size of the rest, then the
//! rest.

use crate::buffer::{
    be_i16, be_i32, be_i64, buf_contents, buf_len, buf_new, buf_as_slice, buf_split_to, buf_put_i16, buf_put_i32,
    buf_put_i64, buf_put_slice, i16_from_be, i32_from_be, i64_from_be, lemma_i16_be_roundtrip,
    lemma_i32_be_roundtrip, lemma_i64_be_roundtrip, lemma_u16_from_be_prefix,
    lemma_u32_from_be_prefix, lemma_u64_from_be_prefix,
};
use crate::protocol::{
    api_key_of, lemma_request_header_layout, ApiKey, parse_request_header, parse_request_size,
    request_header_layout, request_header_parsed, ProtocolError, RequestHeader, MAX_REQUEST_SIZE,
};
use crate::buffer::utf8_lossy;
use crate::storage::{Record, StorageError};
use bytes::BytesMut;
use vstd::prelude::*;

verus! {

broadcast use vstd::string::group_string_axioms;

/// The bytes of an ASCII string: one per character.
pub open spec fn ascii_bytes(s: Seq<char>) -> Seq<u8> {
    s.map_values(|c: char| c as u8)
}

/// The UTF-8 bytes of a string.
pub open spec fn utf8_bytes(s: Seq<char>) -> Seq<u8> {
    vstd::utf8::encode_utf8(s)
}

/// A response frame holding `body`: its length as a big-endian `i32`
/// (truncated as `as i32` truncates), then the body.
pub open spec fn frame(body: Seq<u8>) -> Seq<u8> {
    be_i32(body.len() as i32) + body
}

/// A response frame is self-delimiting: reading its first four bytes as a
/// big-endian `i32`, as a size prefix is read, gives the length of its body,
/// and the body follows them.
pub proof fn lemma_frame_announces_body_len(body: Seq<u8>)
    requires
        body.len() <= i32::MAX,
    ensures
        frame(body).len() == body.len() + 4,
        i32_from_be(frame(body)) == body.len(),
        frame(body).skip(4) == body,
{
    lemma_i32_be_roundtrip(body.len() as i32);
    assert(frame(body).skip(4) =~= body);
    assert(frame(body).take(4) =~= be_i32(body.len() as i32));
    lemma_u32_from_be_prefix(frame(body));
    lemma_u32_from_be_prefix(be_i32(body.len() as i32));
}

/// The bytes of an ASCII string slice.
fn ascii_as_bytes(s: &str) -> (b: &[u8])
    requires
        vstd::string::is_ascii(s),
    ensures
        b@ == ascii_bytes(s@),
{
    let b = s.as_bytes();
    assert(b@ =~= ascii_bytes(s@));
    b
}

/// Puts the size of the frame under construction in front of it, in place
/// of the first four bytes, which were reserved for it.
fn finish_frame(response: &mut BytesMut)
    requires
        4 <= buf_contents(*old(response)).len() <= isize::MAX,
    ensures
        buf_contents(*final(response)) == frame(buf_contents(*old(response)).skip(4)),
{
    let _reserved = buf_split_to(response, 4);
    let size = buf_len(response) as i32;
    let mut framed = buf_new();
    buf_put_i32(&mut framed, size);
    buf_put_slice(&mut framed, buf_as_slice(response));
    *response = framed;
}

// ---------------------------------------------------------------------------
// ApiVersions
// ---------------------------------------------------------------------------

/// The APIs the broker advertises, as (key, min version, max version):
/// Produce 0..=9, Fetch 0..=11, Metadata 0..=12, ApiVersions 0..=3.
pub open spec fn advertised_apis() -> Seq<(i16, i16, i16)> {
    seq![(0i16, 0i16, 9i16), (1i16, 0i16, 11i16), (3i16, 0i16, 12i16), (18i16, 0i16, 3i16)]
}

/// The bytes of a list of advertised APIs, each as three big-endian `i16`s.
pub open spec fn api_entries(apis: Seq<(i16, i16, i16)>) -> Seq<u8>
    decreases apis.len(),
{
    if apis.len() == 0 {
        Seq::empty()
    } else {
        api_entries(apis.drop_last()) + be_i16(apis.last().0) + be_i16(apis.last().1) + be_i16(
            apis.last().2,
        )
    }
}

/// Each advertised API takes six bytes.
proof fn lemma_api_entries_len(apis: Seq<(i16, i16, i16)>)
    ensures
        api_entries(apis).len() == 6 * apis.len(),
    decreases apis.len(),
{
    if apis.len() > 0 {
        lemma_api_entries_len(apis.drop_last());
    }
}

/// Body of the ApiVersions response: correlation id, error code 0, the
/// number of APIs and the APIs, throttle time 0.
pub open spec fn api_versions_body(correlation_id: i32) -> Seq<u8> {
    be_i32(correlation_id) + be_i16(0) + be_i32(4) + api_entries(advertised_apis()) + be_i32(0)
}

/// The ApiVersions response for the request with `correlation_id`.
pub fn api_versions_response(correlation_id: i32) -> (response: BytesMut)
    ensures
        buf_contents(response) == frame(api_versions_body(correlation_id)),
        i32_from_be(buf_contents(response).skip(4)) == correlation_id,
{
    let mut response = buf_new();
    buf_put_i32(&mut response, 0);  // size placeholder
    buf_put_i32(&mut response, correlation_id);
    buf_put_i16(&mut response, 0);  // error_code = NONE

    let apis: [(i16, i16, i16); 4] = [(0, 0, 9), (1, 0, 11), (3, 0, 12), (18, 0, 3)];
    assert(apis@ =~= advertised_apis());
    buf_put_i32(&mut response, 4);
    let ghost head = buf_contents(response);
    let mut i: usize = 0;
    while i < 4
        invariant
            i <= 4,
            apis@ == advertised_apis(),
            head.len() == 14,
            buf_contents(response) == head + api_entries(apis@.take(i as int)),
            buf_contents(response).len() == 14 + 6 * i,
        decreases 4 - i,
    {
        let (key, min_v, max_v) = apis[i];
        buf_put_i16(&mut response, key);
        buf_put_i16(&mut response, min_v);
        buf_put_i16(&mut response, max_v);
        assert(apis@.take(i + 1).drop_last() =~= apis@.take(i as int));
        i = i + 1;
        assert(buf_contents(response) =~= head + api_entries(apis@.take(i as int)));
        proof {
            lemma_api_entries_len(apis@.take(i as int));
        }
    }
    assert(apis@.take(4) =~= apis@);
    buf_put_i32(&mut response, 0);  // throttle_time_ms
    assert(buf_contents(response).skip(4) =~= api_versions_body(correlation_id));
    finish_frame(&mut response);
    proof {
        lemma_api_versions_response_fields(correlation_id);
    }
    response
}

// ---------------------------------------------------------------------------
// Metadata
// ---------------------------------------------------------------------------

/// Host the broker advertises in Metadata responses.
pub open spec fn advertised_host() -> Seq<char> {
    "localhost"@
}

/// Cluster id the broker advertises in Metadata responses.
pub open spec fn advertised_cluster_id() -> Seq<char> {
    "pulsemq-cluster"@
}

/// Port the broker advertises in Metadata responses.
pub const ADVERTISED_PORT: i32 = 9092;

/// Body of the Metadata response: correlation id, throttle time 0, one
/// broker (id, host as i16 length and bytes, port, null rack), the cluster
/// id, this broker as controller, and no topics.
pub open spec fn metadata_body(correlation_id: i32, broker_id: i32) -> Seq<u8> {
    be_i32(correlation_id) + be_i32(0) + be_i32(1) + be_i32(broker_id) + be_i16(
        advertised_host().len() as i16,
    ) + ascii_bytes(advertised_host()) + be_i32(ADVERTISED_PORT) + be_i16(-1i16) + be_i16(
        advertised_cluster_id().len() as i16,
    ) + ascii_bytes(advertised_cluster_id()) + be_i32(broker_id) + be_i32(0)
}

/// The Metadata response to `header` from broker `broker_id`.
pub fn metadata_response(header: &RequestHeader, broker_id: i32) -> (response: BytesMut)
    ensures
        buf_contents(response) == frame(metadata_body(header.correlation_id, broker_id)),
        i32_from_be(buf_contents(response).skip(4)) == header.correlation_id,
{
    proof {
        reveal_strlit("localhost");
        reveal_strlit("pulsemq-cluster");
    }
    let mut response = buf_new();
    buf_put_i32(&mut response, 0);  // size placeholder
    buf_put_i32(&mut response, header.correlation_id);
    buf_put_i32(&mut response, 0);  // throttle_time_ms

    // Brokers array: one broker
    buf_put_i32(&mut response, 1);
    buf_put_i32(&mut response, broker_id);
    let host = ascii_as_bytes("localhost");
    buf_put_i16(&mut response, host.len() as i16);
    buf_put_slice(&mut response, host);
    buf_put_i32(&mut response, ADVERTISED_PORT);
    buf_put_i16(&mut response, -1);  // rack: null

    let cluster_id = ascii_as_bytes("pulsemq-cluster");
    buf_put_i16(&mut response, cluster_id.len() as i16);
    buf_put_slice(&mut response, cluster_id);

    buf_put_i32(&mut response, broker_id);  // controller_id

    // Topics array: none yet
    buf_put_i32(&mut response, 0);
    assert(buf_contents(response).skip(4) =~= metadata_body(header.correlation_id, broker_id));
    finish_frame(&mut response);
    proof {
        lemma_metadata_response_fields(header.correlation_id, broker_id);
    }
    response
}

// ---------------------------------------------------------------------------
// Produce
// ---------------------------------------------------------------------------

/// Partition that Produce requests are appended to, until their bodies are parsed.
pub const PRODUCE_PARTITION: i32 = 0;

/// Topic that Produce requests are appended to, until their bodies are parsed.
pub fn produce_topic() -> (topic: &'static str)
    ensures
        topic@ == "test-topic"@,
{
    "test-topic"
}

/// The record appended for a Produce request, until request bodies are
/// parsed: no key, a fixed greeting as value, stamped with `timestamp`
/// (milliseconds since the Unix epoch).
pub fn produce_record(timestamp: i64) -> (record: Record)
    ensures
        record.key is None,
        record.value@ == ascii_bytes("hello from PulseMQ produce"@),
        record.timestamp == timestamp,
{
    proof {
        reveal_strlit("hello from PulseMQ produce");
    }
    let value = vstd::slice::slice_to_vec(ascii_as_bytes("hello from PulseMQ produce"));
    Record { key: None, value, timestamp }
}

/// Body of a successful Produce response: correlation id, throttle time 0,
/// one topic (its name as i16 length and UTF-8 bytes) with one partition:
/// its number, error code 0, the base offset of the appended records, and
/// -1 for log append time and log start offset.
pub open spec fn produce_body(correlation_id: i32, topic: Seq<char>, partition: i32, base_offset: i64) -> Seq<u8> {
    be_i32(correlation_id) + be_i32(0) + be_i32(1) + be_i16(utf8_bytes(topic).len() as i16)
        + utf8_bytes(topic) + be_i32(1) + be_i32(partition) + be_i16(0) + be_i64(base_offset)
        + be_i64(-1i64) + be_i64(-1i64)
}

/// The successful Produce response to `header`, for records appended to
/// `topic`/`partition` from `base_offset` on.
pub fn produce_response(header: &RequestHeader, topic: &str, partition: i32, base_offset: i64) -> (response: BytesMut)
    requires
        utf8_bytes(topic@).len() + 64 <= isize::MAX,
    ensures
        buf_contents(response) == frame(produce_body(header.correlation_id, topic@, partition, base_offset)),
        i32_from_be(buf_contents(response).skip(4)) == header.correlation_id,
{
    let mut response = buf_new();
    buf_put_i32(&mut response, 0);  // size placeholder
    buf_put_i32(&mut response, header.correlation_id);
    buf_put_i32(&mut response, 0);  // throttle_time_ms

    // Responses array: one topic
    buf_put_i32(&mut response, 1);
    buf_put_i16(&mut response, topic.len() as i16);
    buf_put_slice(&mut response, topic.as_bytes());

    // Partition responses: one partition
    buf_put_i32(&mut response, 1);
    buf_put_i32(&mut response, partition);
    buf_put_i16(&mut response, 0);  // error_code = NONE
    buf_put_i64(&mut response, base_offset);
    buf_put_i64(&mut response, -1);  // log_append_time
    buf_put_i64(&mut response, -1);  // log_start_offset
    assert(buf_contents(response).skip(4) =~= produce_body(header.correlation_id, topic@, partition, base_offset));
    finish_frame(&mut response);
    proof {
        let body = produce_body(header.correlation_id, topic@, partition, base_offset);
        assert(body.take(4) =~= be_i32(header.correlation_id));
        lemma_echoed_in_frame(header.correlation_id, body);
    }
    response
}

// ---------------------------------------------------------------------------
// Errors
// ---------------------------------------------------------------------------

/// Body of the generic error response: correlation id and a non-zero error code (1).
pub open spec fn empty_error_body(correlation_id: i32) -> Seq<u8> {
    be_i32(correlation_id) + be_i16(1)
}

/// The generic error response sent for requests the broker does not handle
/// or could not serve, so that the client does not hang.
pub fn empty_error_response(correlation_id: i32) -> (response: BytesMut)
    ensures
        buf_contents(response) == frame(empty_error_body(correlation_id)),
        i32_from_be(buf_contents(response).skip(4)) == correlation_id,
{
    let mut response = buf_new();
    buf_put_i32(&mut response, 0);
    buf_put_i32(&mut response, correlation_id);
    buf_put_i16(&mut response, 1);  // non-zero error
    assert(buf_contents(response).skip(4) =~= empty_error_body(correlation_id));
    finish_frame(&mut response);
    proof {
        lemma_error_response_fields(correlation_id);
    }
    response
}

// ---------------------------------------------------------------------------
// What a response says
// ---------------------------------------------------------------------------

/// Two bytes of `s` laid out as the big-endian bytes of `v` read back as `v`.
proof fn lemma_reads_i16(s: Seq<u8>, at: int, v: i16)
    requires
        0 <= at,
        at + 2 <= s.len(),
        s.subrange(at, at + 2) == be_i16(v),
    ensures
        i16_from_be(s.skip(at)) == v,
{
    lemma_i16_be_roundtrip(v);
    assert(s.skip(at).take(2) =~= s.subrange(at, at + 2));
    lemma_u16_from_be_prefix(s.skip(at));
    lemma_u16_from_be_prefix(be_i16(v));
}

/// Four bytes of `s` laid out as the big-endian bytes of `v` read back as `v`.
proof fn lemma_reads_i32(s: Seq<u8>, at: int, v: i32)
    requires
        0 <= at,
        at + 4 <= s.len(),
        s.subrange(at, at + 4) == be_i32(v),
    ensures
        i32_from_be(s.skip(at)) == v,
{
    lemma_i32_be_roundtrip(v);
    assert(s.skip(at).take(4) =~= s.subrange(at, at + 4));
    lemma_u32_from_be_prefix(s.skip(at));
    lemma_u32_from_be_prefix(be_i32(v));
}

/// Eight bytes of `s` laid out as the big-endian bytes of `v` read back as `v`.
proof fn lemma_reads_i64(s: Seq<u8>, at: int, v: i64)
    requires
        0 <= at,
        at + 8 <= s.len(),
        s.subrange(at, at + 8) == be_i64(v),
    ensures
        i64_from_be(s.skip(at)) == v,
{
    lemma_i64_be_roundtrip(v);
    assert(s.skip(at).take(8) =~= s.subrange(at, at + 8));
    lemma_u64_from_be_prefix(s.skip(at));
    lemma_u64_from_be_prefix(be_i64(v));
}

/// A frame whose body starts with the big-endian bytes of `correlation_id`
/// reads back, after its size prefix, as that correlation id.
proof fn lemma_echoed_in_frame(correlation_id: i32, body: Seq<u8>)
    requires
        body.len() >= 4,
        body.take(4) == be_i32(correlation_id),
    ensures
        i32_from_be(frame(body).skip(4)) == correlation_id,
{
    let r = frame(body);
    assert(r.subrange(4, 8) =~= body.take(4));
    lemma_reads_i32(r, 4, correlation_id);
}

/// The ApiVersions response answers the request it was built for: the
/// four bytes after its size prefix read back as the request's correlation
/// id, then come error code 0 and the number of APIs advertised (4), each as
/// (key, min version, max version): Produce 0..=9, Fetch 0..=11, Metadata
/// 0..=12 and ApiVersions 0..=3, and last a throttle time of 0.
pub proof fn lemma_api_versions_response_fields(correlation_id: i32)
    ensures
        ({
            let r = frame(api_versions_body(correlation_id));
            &&& r.len() == 42
            &&& i32_from_be(r) == 38
            &&& i32_from_be(r.skip(4)) == correlation_id
            &&& i16_from_be(r.skip(8)) == 0
            &&& i32_from_be(r.skip(10)) == 4
            &&& i16_from_be(r.skip(14)) == 0 && i16_from_be(r.skip(16)) == 0 && i16_from_be(
                r.skip(18),
            ) == 9
            &&& i16_from_be(r.skip(20)) == 1 && i16_from_be(r.skip(22)) == 0 && i16_from_be(
                r.skip(24),
            ) == 11
            &&& i16_from_be(r.skip(26)) == 3 && i16_from_be(r.skip(28)) == 0 && i16_from_be(
                r.skip(30),
            ) == 12
            &&& i16_from_be(r.skip(32)) == 18 && i16_from_be(r.skip(34)) == 0 && i16_from_be(
                r.skip(36),
            ) == 3
            &&& i32_from_be(r.skip(38)) == 0
        }),
{
    let body = api_versions_body(correlation_id);
    let r = frame(body);
    let apis = advertised_apis();
    reveal_with_fuel(api_entries, 5);
    assert(apis.drop_last().drop_last().drop_last().drop_last() =~= Seq::<(i16, i16, i16)>::empty());
    let entries = be_i16(0) + be_i16(0) + be_i16(9) + be_i16(1) + be_i16(0) + be_i16(11) + be_i16(3)
        + be_i16(0) + be_i16(12) + be_i16(18) + be_i16(0) + be_i16(3);
    assert(api_entries(apis) =~= entries);
    assert(body.len() == 38);
    lemma_frame_announces_body_len(body);
    assert(r.subrange(4, 8) =~= be_i32(correlation_id));
    assert(r.subrange(8, 10) =~= be_i16(0));
    assert(r.subrange(10, 14) =~= be_i32(4));
    assert(r.subrange(14, 16) =~= be_i16(0));
    assert(r.subrange(16, 18) =~= be_i16(0));
    assert(r.subrange(18, 20) =~= be_i16(9));
    assert(r.subrange(20, 22) =~= be_i16(1));
    assert(r.subrange(22, 24) =~= be_i16(0));
    assert(r.subrange(24, 26) =~= be_i16(11));
    assert(r.subrange(26, 28) =~= be_i16(3));
    assert(r.subrange(28, 30) =~= be_i16(0));
    assert(r.subrange(30, 32) =~= be_i16(12));
    assert(r.subrange(32, 34) =~= be_i16(18));
    assert(r.subrange(34, 36) =~= be_i16(0));
    assert(r.subrange(36, 38) =~= be_i16(3));
    assert(r.subrange(38, 42) =~= be_i32(0));
    lemma_reads_i32(r, 4, correlation_id);
    lemma_reads_i16(r, 8, 0);
    lemma_reads_i32(r, 10, 4);
    lemma_reads_i16(r, 14, 0);
    lemma_reads_i16(r, 16, 0);
    lemma_reads_i16(r, 18, 9);
    lemma_reads_i16(r, 20, 1);
    lemma_reads_i16(r, 22, 0);
    lemma_reads_i16(r, 24, 11);
    lemma_reads_i16(r, 26, 3);
    lemma_reads_i16(r, 28, 0);
    lemma_reads_i16(r, 30, 12);
    lemma_reads_i16(r, 32, 18);
    lemma_reads_i16(r, 34, 0);
    lemma_reads_i16(r, 36, 3);
    lemma_reads_i32(r, 38, 0);
}

/// The Metadata response answers the request it was built for: the four
/// bytes after its size prefix read back as the request's correlation id;
/// after the throttle time (0) and the number of brokers (1) comes the
/// broker that sent it: its id, host `localhost` (length 9, then its ASCII
/// bytes), port 9092 and a null rack (-1); then cluster id
/// `pulsemq-cluster` (length 15, then its bytes), the same broker as
/// controller, and no topics.
pub proof fn lemma_metadata_response_fields(correlation_id: i32, broker_id: i32)
    ensures
        ({
            let r = frame(metadata_body(correlation_id, broker_id));
            &&& r.len() == 62
            &&& i32_from_be(r) == 58
            &&& i32_from_be(r.skip(4)) == correlation_id
            &&& i32_from_be(r.skip(8)) == 0
            &&& i32_from_be(r.skip(12)) == 1
            &&& i32_from_be(r.skip(16)) == broker_id
            &&& i16_from_be(r.skip(20)) == 9
            &&& r.subrange(22, 31) == seq![108u8, 111, 99, 97, 108, 104, 111, 115, 116]
            &&& i32_from_be(r.skip(31)) == 9092
            &&& i16_from_be(r.skip(35)) == -1
            &&& i16_from_be(r.skip(37)) == 15
            &&& r.subrange(39, 54) == seq![
                112u8, 117, 108, 115, 101, 109, 113, 45, 99, 108, 117, 115, 116, 101, 114,
            ]
            &&& i32_from_be(r.skip(54)) == broker_id
            &&& i32_from_be(r.skip(58)) == 0
        }),
{
    reveal_strlit("localhost");
    reveal_strlit("pulsemq-cluster");
    let body = metadata_body(correlation_id, broker_id);
    let r = frame(body);
    let host = ascii_bytes(advertised_host());
    let cluster = ascii_bytes(advertised_cluster_id());
    assert(host =~= seq![108u8, 111, 99, 97, 108, 104, 111, 115, 116]);
    assert(cluster =~= seq![112u8, 117, 108, 115, 101, 109, 113, 45, 99, 108, 117, 115, 116, 101, 114]);
    assert(body.len() == 58);
    lemma_frame_announces_body_len(body);
    assert(r.subrange(4, 8) =~= be_i32(correlation_id));
    assert(r.subrange(8, 12) =~= be_i32(0));
    assert(r.subrange(12, 16) =~= be_i32(1));
    assert(r.subrange(16, 20) =~= be_i32(broker_id));
    assert(r.subrange(20, 22) =~= be_i16(9));
    assert(r.subrange(22, 31) =~= host);
    assert(r.subrange(31, 35) =~= be_i32(9092));
    assert(r.subrange(35, 37) =~= be_i16(-1i16));
    assert(r.subrange(37, 39) =~= be_i16(15));
    assert(r.subrange(39, 54) =~= cluster);
    assert(r.subrange(54, 58) =~= be_i32(broker_id));
    assert(r.subrange(58, 62) =~= be_i32(0));
    lemma_reads_i32(r, 4, correlation_id);
    lemma_reads_i32(r, 8, 0);
    lemma_reads_i32(r, 12, 1);
    lemma_reads_i32(r, 16, broker_id);
    lemma_reads_i16(r, 20, 9);
    lemma_reads_i32(r, 31, 9092);
    lemma_reads_i16(r, 35, -1i16);
    lemma_reads_i16(r, 37, 15);
    lemma_reads_i32(r, 54, broker_id);
    lemma_reads_i32(r, 58, 0);
}

/// The Produce response answers the request it was built for: the four
/// bytes after its size prefix read back as the request's correlation id;
/// it names the topic (its UTF-8 length, then its bytes) and the partition
/// the records went to, with error code 0 and the base offset they were
/// appended from.
pub proof fn lemma_produce_response_fields(
    correlation_id: i32,
    topic: Seq<char>,
    partition: i32,
    base_offset: i64,
)
    requires
        utf8_bytes(topic).len() <= i16::MAX,
    ensures
        ({
            let r = frame(produce_body(correlation_id, topic, partition, base_offset));
            let n = utf8_bytes(topic).len() as int;
            &&& i32_from_be(r.skip(4)) == correlation_id
            &&& i16_from_be(r.skip(16)) == n
            &&& r.subrange(18, 18 + n) == utf8_bytes(topic)
            &&& i32_from_be(r.skip(22 + n)) == partition
            &&& i16_from_be(r.skip(26 + n)) == 0
            &&& i64_from_be(r.skip(28 + n)) == base_offset
        }),
{
    let r = frame(produce_body(correlation_id, topic, partition, base_offset));
    let t = utf8_bytes(topic);
    let n = t.len() as int;
    assert(r.subrange(4, 8) =~= be_i32(correlation_id));
    assert(r.subrange(16, 18) =~= be_i16(n as i16));
    assert(r.subrange(18, 18 + n) =~= t);
    assert(r.subrange(22 + n, 26 + n) =~= be_i32(partition));
    assert(r.subrange(26 + n, 28 + n) =~= be_i16(0));
    assert(r.subrange(28 + n, 36 + n) =~= be_i64(base_offset));
    lemma_reads_i32(r, 4, correlation_id);
    lemma_reads_i16(r, 16, n as i16);
    lemma_reads_i32(r, 22 + n, partition);
    lemma_reads_i16(r, 26 + n, 0);
    lemma_reads_i64(r, 28 + n, base_offset);
}

/// The generic error response answers the request it was built for: the
/// four bytes after its size prefix read back as the request's correlation
/// id, followed by a non-zero error code (1).
pub proof fn lemma_error_response_fields(correlation_id: i32)
    ensures
        ({
            let r = frame(empty_error_body(correlation_id));
            &&& i32_from_be(r.skip(4)) == correlation_id
            &&& i16_from_be(r.skip(8)) == 1
            &&& r.len() == 10
        }),
{
    let r = frame(empty_error_body(correlation_id));
    assert(r.subrange(4, 8) =~= be_i32(correlation_id));
    assert(r.subrange(8, 10) =~= be_i16(1));
    lemma_reads_i32(r, 4, correlation_id);
    lemma_reads_i16(r, 8, 1);
}

// ---------------------------------------------------------------------------
// Choosing the reply
// ---------------------------------------------------------------------------

/// The reply to `header` from broker `broker_id`, for every request but a
/// Produce request, which is answered once its records are appended (see
/// [`produce_reply`]): ApiVersions and Metadata requests get their
/// responses; a request for any other API gets the generic error response,
/// so that the client does not hang.
pub fn respond(header: &RequestHeader, broker_id: i32) -> (reply: Option<BytesMut>)
    ensures
        header.api_key is Produce ==> reply is None,
        header.api_key is ApiVersions ==> (reply matches Some(r) && buf_contents(r) == frame(
            api_versions_body(header.correlation_id),
        )),
        header.api_key is Metadata ==> (reply matches Some(r) && buf_contents(r) == frame(
            metadata_body(header.correlation_id, broker_id),
        )),
        !(header.api_key is Produce || header.api_key is ApiVersions
            || header.api_key is Metadata) ==> (reply matches Some(r) && buf_contents(r)
            == frame(empty_error_body(header.correlation_id))),
        reply matches Some(r) ==> i32_from_be(buf_contents(r).skip(4)) == header.correlation_id,
{
    match header.api_key {
        ApiKey::ApiVersions => Some(api_versions_response(header.correlation_id)),
        ApiKey::Metadata => Some(metadata_response(header, broker_id)),
        ApiKey::Produce => None,
        _ => Some(empty_error_response(header.correlation_id)),
    }
}

/// The reply to the Produce request `header` once its records were to be
/// appended to `topic`/`partition`: when the append succeeded, the Produce
/// response with the offset of the first record appended; when it failed,
/// the generic error response.
pub fn produce_reply(
    header: &RequestHeader,
    topic: &str,
    partition: i32,
    appended: &Result<Vec<i64>, StorageError>,
) -> (reply: BytesMut)
    requires
        utf8_bytes(topic@).len() + 64 <= isize::MAX,
        appended matches Ok(offsets) ==> offsets@.len() >= 1,
    ensures
        appended matches Ok(offsets) ==> buf_contents(reply) == frame(
            produce_body(header.correlation_id, topic@, partition, offsets@[0]),
        ),
        appended is Err ==> buf_contents(reply) == frame(empty_error_body(header.correlation_id)),
        i32_from_be(buf_contents(reply).skip(4)) == header.correlation_id,
{
    match appended {
        Ok(offsets) => produce_response(header, topic, partition, offsets[0]),
        Err(_) => empty_error_response(header.correlation_id),
    }
}

// ---------------------------------------------------------------------------
// Connections
// ---------------------------------------------------------------------------

/// Where a connection stands in reading a request: whether the size prefix
/// of the request has been read, and what size it announced.
#[derive(Debug)]
pub struct Connection {
    pending_size: Option<usize>,
}

/// What the broker does next on a connection.
#[derive(Debug)]
pub enum ConnectionStep {
    /// The peer closed the connection: stop serving it.
    Close,
    /// More bytes are needed: read from the socket again.
    ReadMore,
    /// A request header was parsed: answer it, then read again.
    Request(RequestHeader),
    /// The request header could not be parsed yet: read again.
    Unparsed,
}

/// The size of the request being read and the buffer contents after its
/// size prefix, once the prefix has been read and accepted.
pub open spec fn sized_request(pending: Option<usize>, s: Seq<u8>) -> Option<(int, Seq<u8>)> {
    match pending {
        Some(n) => Some((n as int, s)),
        None => if s.len() >= 4 && 0 <= i32_from_be(s) <= MAX_REQUEST_SIZE {
            Some((i32_from_be(s) as int, s.skip(4)))
        } else {
            None
        },
    }
}

/// A connection step seen as the result of parsing a request header.
pub open spec fn as_header_result(step: Result<ConnectionStep, ProtocolError>) -> Result<
    Option<RequestHeader>,
    ProtocolError,
> {
    match step {
        Ok(ConnectionStep::Request(h)) => Ok(Some(h)),
        Ok(_) => Ok(None),
        Err(e) => Err(e),
    }
}

/// What a connection does with the buffer contents `s` while it holds data:
/// from the pending size `pending` it answers `res` and is left with the
/// pending size `new_pending` and the buffer contents `fin`. The size prefix
/// is read first; once as many bytes as it announced are buffered, they are
/// taken out of the buffer as one request, whose header is parsed from them.
/// The rest of the request (its body) goes with it, so that the buffer then
/// holds exactly the bytes after the request.
pub open spec fn request_stepped(
    pending: Option<usize>,
    s: Seq<u8>,
    res: Result<ConnectionStep, ProtocolError>,
    new_pending: Option<usize>,
    fin: Seq<u8>,
) -> bool {
    if pending is None && s.len() < 4 {
        &&& res matches Ok(ConnectionStep::ReadMore)
        &&& fin == s
        &&& new_pending is None
    } else if pending is None && !(0 <= i32_from_be(s) <= MAX_REQUEST_SIZE) {
        &&& res matches Err(ProtocolError::InvalidSize(n))
        &&& n == i32_from_be(s)
        &&& fin == s.skip(4)
        &&& new_pending is None
    } else {
        let size = sized_request(pending, s).unwrap().0;
        let body = sized_request(pending, s).unwrap().1;
        if body.len() < size {
            &&& res matches Ok(ConnectionStep::ReadMore)
            &&& fin == body
            &&& new_pending == Some(size as usize)
        } else {
            &&& !(res matches Ok(ConnectionStep::Close))
            &&& !(res matches Ok(ConnectionStep::ReadMore))
            &&& exists|rest: Seq<u8>|
                #[trigger] request_header_parsed(body.take(size), as_header_result(res), rest)
            &&& fin == body.skip(size)
            &&& new_pending is None
        }
    }
}

/// What a connection does on a read of `bytes_read` bytes: a read of zero
/// bytes closes it and leaves everything in place; any other read goes on
/// as [`request_stepped`] says.
pub open spec fn connection_stepped(
    pending: Option<usize>,
    bytes_read: usize,
    s: Seq<u8>,
    res: Result<ConnectionStep, ProtocolError>,
    new_pending: Option<usize>,
    fin: Seq<u8>,
) -> bool {
    if bytes_read == 0 {
        &&& res matches Ok(ConnectionStep::Close)
        &&& fin == s
        &&& new_pending == pending
    } else {
        request_stepped(pending, s, res, new_pending, fin)
    }
}

impl Connection {
    /// The size announced by the size prefix already read, if any.
    pub closed spec fn pending(&self) -> Option<usize> {
        self.pending_size
    }

    /// A connection that has read nothing yet.
    pub fn new() -> (conn: Connection)
        ensures
            conn.pending() is None,
    {
        Connection { pending_size: None }
    }

    /// The size announced by the size prefix already read, if any.
    pub fn pending_size(&self) -> (size: Option<usize>)
        ensures
            size == self.pending(),
    {
        self.pending_size
    }

    /// Decides what to do after a read of `bytes_read` bytes into `buf`
    /// (which holds everything read and not yet consumed). A read of zero
    /// bytes means that the peer closed the connection; otherwise the
    /// buffer is read as [`Connection::next_request`] reads it. Errors end
    /// the connection.
    pub fn on_read(&mut self, bytes_read: usize, buf: &mut BytesMut) -> (res: Result<
        ConnectionStep,
        ProtocolError,
    >)
        ensures
            connection_stepped(
                old(self).pending(),
                bytes_read,
                buf_contents(*old(buf)),
                res,
                final(self).pending(),
                buf_contents(*final(buf)),
            ),
    {
        if bytes_read == 0 {
            return Ok(ConnectionStep::Close);
        }
        self.next_request(buf)
    }

    /// Takes the next request out of `buf`, if it is all there. The size
    /// prefix is read first; once as many bytes as it announced are
    /// buffered, they are taken out of the buffer and the request header is
    /// parsed from them, and whatever followed them stays for the next call.
    /// After a request, call this again before reading: the peer may have
    /// sent several requests at once.
    pub fn next_request(&mut self, buf: &mut BytesMut) -> (res: Result<
        ConnectionStep,
        ProtocolError,
    >)
        ensures
            request_stepped(
                old(self).pending(),
                buf_contents(*old(buf)),
                res,
                final(self).pending(),
                buf_contents(*final(buf)),
            ),
    {
        let size: usize = match self.pending_size {
            Some(n) => n,
            None => match parse_request_size(buf) {
                Err(e) => return Err(e),
                Ok(None) => return Ok(ConnectionStep::ReadMore),
                Ok(Some(n)) => n as usize,
            },
        };
        if buf_len(buf) < size {
            self.pending_size = Some(size);
            return Ok(ConnectionStep::ReadMore);
        }
        self.pending_size = None;
        let mut request = buf_split_to(buf, size);
        let ghost whole = buf_contents(request);
        let parsed = parse_request_header(&mut request);
        let ghost rest = buf_contents(request);
        let res = match parsed {
            Ok(Some(header)) => Ok(ConnectionStep::Request(header)),
            Ok(None) => Ok(ConnectionStep::Unparsed),
            Err(e) => Err(e),
        };
        assert(as_header_result(res) == parsed);
        assert(request_header_parsed(whole, as_header_result(res), rest));
        res
    }
}

/// A request frame: the size prefix, then the request header laid out as
/// the parser reads it, then the request body.
pub open spec fn request_frame(
    api_key: i16,
    api_version: i16,
    correlation_id: i32,
    client_id: Seq<u8>,
    body: Seq<u8>,
) -> Seq<u8> {
    be_i32((10 + client_id.len() + body.len()) as i32) + request_header_layout(
        api_key,
        api_version,
        correlation_id,
        client_id,
    ) + body
}

/// Where a connection stands once the first `k` bytes of the request frame
/// `f` have been read: while the size prefix is incomplete nothing is
/// consumed; after it the announced size is pending and the bytes after the
/// prefix are buffered.
pub open spec fn frame_read_state(f: Seq<u8>, k: int) -> (Option<usize>, Seq<u8>) {
    if k < 4 {
        (None, f.take(k))
    } else {
        (Some((f.len() - 4) as usize), f.subrange(4, k))
    }
}

/// The facts about a request frame that reading it rests on: its size
/// prefix reads back as the number of bytes after it, and those bytes are
/// the header followed by the body.
proof fn lemma_request_frame_layout(
    api_key: i16,
    api_version: i16,
    correlation_id: i32,
    client_id: Seq<u8>,
    body: Seq<u8>,
)
    requires
        10 + client_id.len() + body.len() <= MAX_REQUEST_SIZE,
    ensures
        ({
            let f = request_frame(api_key, api_version, correlation_id, client_id, body);
            let hdr = request_header_layout(api_key, api_version, correlation_id, client_id);
            &&& f.len() == 14 + client_id.len() + body.len()
            &&& hdr.len() == 10 + client_id.len()
            &&& f.take(4) == be_i32((10 + client_id.len() + body.len()) as i32)
            &&& i32_from_be(be_i32((10 + client_id.len() + body.len()) as i32)) == 10
                + client_id.len() + body.len()
            &&& f.subrange(4, f.len() as int) == hdr + body
        }),
{
    let f = request_frame(api_key, api_version, correlation_id, client_id, body);
    let hdr = request_header_layout(api_key, api_version, correlation_id, client_id);
    let n: int = 10 + client_id.len() as int + body.len() as int;
    lemma_i32_be_roundtrip(n as i32);
    assert(f.take(4) =~= be_i32(n as i32));
    assert(f.subrange(4, f.len() as int) =~= hdr + body);
}

/// However the bytes of a request arrive, split over any number of reads,
/// the connection asks for more until the last of them has arrived and then
/// hands over the request header, parsed field by field, with nothing left
/// in the buffer: the body goes with the request. Stated for one read: from
/// where the connection stands after `k` bytes, a read that brings the bytes
/// up to `j` either leaves it standing where `j` bytes put it, or, at the
/// end of the frame, yields the request. A new connection with an empty
/// buffer stands where 0 bytes put it.
pub proof fn lemma_request_arrives_in_pieces(
    api_key: i16,
    api_version: i16,
    correlation_id: i32,
    client_id: Seq<u8>,
    body: Seq<u8>,
    k: int,
    j: int,
    res: Result<ConnectionStep, ProtocolError>,
    new_pending: Option<usize>,
    fin: Seq<u8>,
)
    requires
        client_id.len() <= i16::MAX,
        10 + client_id.len() + body.len() <= MAX_REQUEST_SIZE,
        0 <= k < j <= request_frame(api_key, api_version, correlation_id, client_id, body).len(),
        connection_stepped(
            frame_read_state(
                request_frame(api_key, api_version, correlation_id, client_id, body),
                k,
            ).0,
            (j - k) as usize,
            frame_read_state(
                request_frame(api_key, api_version, correlation_id, client_id, body),
                k,
            ).1 + request_frame(api_key, api_version, correlation_id, client_id, body).subrange(
                k,
                j,
            ),
            res,
            new_pending,
            fin,
        ),
    ensures
        j < request_frame(api_key, api_version, correlation_id, client_id, body).len() ==> (
        res matches Ok(ConnectionStep::ReadMore) && (new_pending, fin) == frame_read_state(
            request_frame(api_key, api_version, correlation_id, client_id, body),
            j,
        )),
        j == request_frame(api_key, api_version, correlation_id, client_id, body).len() ==> (
        res matches Ok(ConnectionStep::Request(h)) && h.api_key == api_key_of(api_key)
            && h.api_version == api_version && h.correlation_id == correlation_id && h.client_id@
            == utf8_lossy(client_id) && new_pending is None && fin.len() == 0),
{
    let f = request_frame(api_key, api_version, correlation_id, client_id, body);
    let hdr = request_header_layout(api_key, api_version, correlation_id, client_id);
    let n: int = 10 + client_id.len() as int + body.len() as int;
    let st = frame_read_state(f, k);
    let s = st.1 + f.subrange(k, j);
    lemma_request_frame_layout(api_key, api_version, correlation_id, client_id, body);
    if k < 4 {
        assert(s =~= f.take(j));
        if j >= 4 {
            assert(s.take(4) =~= f.take(4));
            lemma_u32_from_be_prefix(s);
            lemma_u32_from_be_prefix(be_i32(n as i32));
            assert(i32_from_be(s) == n);
            assert(s.skip(4) =~= f.subrange(4, j));
        }
    } else {
        assert(s =~= f.subrange(4, j));
    }
    if j == f.len() {
        let rest_of_buffer = sized_request(st.0, s).unwrap().1;
        assert(rest_of_buffer =~= hdr + body);
        assert(rest_of_buffer.take(n) =~= hdr + body);
        let rest = choose|rest: Seq<u8>|
            #[trigger] request_header_parsed(rest_of_buffer.take(n), as_header_result(res), rest);
        lemma_request_header_layout(
            api_key,
            api_version,
            correlation_id,
            client_id,
            body,
            as_header_result(res),
            rest,
        );
    }
}

/// The size prefix delimits a request: when a whole request frame, body
/// included, is buffered and followed by further bytes `next`, the
/// connection hands over the request's header and leaves exactly `next` in
/// the buffer, so that the following request is read from its own first
/// byte.
pub proof fn lemma_requests_are_delimited(
    api_key: i16,
    api_version: i16,
    correlation_id: i32,
    client_id: Seq<u8>,
    body: Seq<u8>,
    next: Seq<u8>,
    res: Result<ConnectionStep, ProtocolError>,
    new_pending: Option<usize>,
    fin: Seq<u8>,
)
    requires
        client_id.len() <= i16::MAX,
        10 + client_id.len() + body.len() <= MAX_REQUEST_SIZE,
        request_stepped(
            None,
            request_frame(api_key, api_version, correlation_id, client_id, body) + next,
            res,
            new_pending,
            fin,
        ),
    ensures
        res matches Ok(ConnectionStep::Request(h)) && h.api_key == api_key_of(api_key)
            && h.api_version == api_version && h.correlation_id == correlation_id && h.client_id@
            == utf8_lossy(client_id),
        new_pending is None,
        fin == next,
{
    let f = request_frame(api_key, api_version, correlation_id, client_id, body);
    let hdr = request_header_layout(api_key, api_version, correlation_id, client_id);
    let n: int = 10 + client_id.len() as int + body.len() as int;
    let s = f + next;
    lemma_request_frame_layout(api_key, api_version, correlation_id, client_id, body);
    assert(s.take(4) =~= f.take(4));
    lemma_u32_from_be_prefix(s);
    lemma_u32_from_be_prefix(be_i32(n as i32));
    assert(i32_from_be(s) == n);
    let after_prefix = s.skip(4);
    assert(after_prefix =~= hdr + body + next);
    assert(after_prefix.take(n) =~= hdr + body);
    assert(after_prefix.skip(n) =~= next);
    let rest = choose|rest: Seq<u8>|
        #[trigger] request_header_parsed(after_prefix.take(n), as_header_result(res), rest);
    lemma_request_header_layout(
        api_key,
        api_version,
        correlation_id,
        client_id,
        body,
        as_header_result(res),
        rest,
    );
}

/// The bytes of a stream of requests sent one after the other, each given as
/// (api key, api version, correlation id, client id bytes, body bytes).
pub open spec fn request_frames(requests: Seq<(i16, i16, i32, Seq<u8>, Seq<u8>)>) -> Seq<u8>
    decreases requests.len(),
{
    if requests.len() == 0 {
        Seq::empty()
    } else {
        request_frame(
            requests[0].0,
            requests[0].1,
            requests[0].2,
            requests[0].3,
            requests[0].4,
        ) + request_frames(requests.skip(1))
    }
}

/// Where a connection stands before its `j`-th step through a buffer that
/// starts out holding `start`, each step taken as (result, pending size,
/// buffer contents after it).
pub open spec fn stream_state(
    start: Seq<u8>,
    steps: Seq<(Result<ConnectionStep, ProtocolError>, Option<usize>, Seq<u8>)>,
    j: int,
) -> (Option<usize>, Seq<u8>) {
    if j == 0 {
        (None, start)
    } else {
        (steps[j - 1].1, steps[j - 1].2)
    }
}

/// Whether the `j`-th of `steps` is what [`Connection::next_request`] does
/// from where the steps before it left the connection.
#[verifier::opaque]
pub open spec fn stream_step_taken(
    start: Seq<u8>,
    steps: Seq<(Result<ConnectionStep, ProtocolError>, Option<usize>, Seq<u8>)>,
    j: int,
) -> bool {
    request_stepped(
        stream_state(start, steps, j).0,
        stream_state(start, steps, j).1,
        steps[j].0,
        steps[j].1,
        steps[j].2,
    )
}

/// Whether each request of `requests` fits in a frame: a client id that
/// its `i16` length can hold, and a size within the limit.
pub open spec fn requests_fit(requests: Seq<(i16, i16, i32, Seq<u8>, Seq<u8>)>) -> bool {
    forall|j: int|
        0 <= j < requests.len() ==> (#[trigger] requests[j]).3.len() <= i16::MAX && 10
            + requests[j].3.len() + requests[j].4.len() <= MAX_REQUEST_SIZE
}

/// Whether step `j` handed over request `j` of `requests`, parsed field by
/// field, and left the frames of the requests after it, then `next`.
pub open spec fn request_served(
    requests: Seq<(i16, i16, i32, Seq<u8>, Seq<u8>)>,
    next: Seq<u8>,
    steps: Seq<(Result<ConnectionStep, ProtocolError>, Option<usize>, Seq<u8>)>,
    j: int,
) -> bool {
    &&& steps[j].0 matches Ok(ConnectionStep::Request(h)) && h.api_key == api_key_of(
        requests[j].0,
    ) && h.api_version == requests[j].1 && h.correlation_id == requests[j].2 && h.client_id@
        == utf8_lossy(requests[j].3)
    &&& steps[j].1 is None
    &&& steps[j].2 == request_frames(requests.skip(j + 1)) + next
}

/// A stream of requests is served in order: when a new connection's buffer
/// holds the frames of `requests` one after the other, followed by any bytes
/// `next`, taking the requests out one by one with
/// [`Connection::next_request`] yields the header of each request in turn,
/// parsed field by field, and after each step the buffer holds exactly the
/// frames of the requests still to come, followed by `next`.
pub proof fn lemma_request_stream(
    requests: Seq<(i16, i16, i32, Seq<u8>, Seq<u8>)>,
    next: Seq<u8>,
    steps: Seq<(Result<ConnectionStep, ProtocolError>, Option<usize>, Seq<u8>)>,
)
    requires
        requests_fit(requests),
        steps.len() == requests.len(),
        forall|j: int|
            0 <= j < steps.len() ==> #[trigger] stream_step_taken(
                request_frames(requests) + next,
                steps,
                j,
            ),
    ensures
        forall|j: int| 0 <= j < requests.len() ==> #[trigger] request_served(requests, next, steps, j),
{
    lemma_request_stream_upto(requests, next, steps, requests.len() as int);
}

/// The first `n` steps of [`lemma_request_stream`], by induction on `n`.
proof fn lemma_request_stream_upto(
    requests: Seq<(i16, i16, i32, Seq<u8>, Seq<u8>)>,
    next: Seq<u8>,
    steps: Seq<(Result<ConnectionStep, ProtocolError>, Option<usize>, Seq<u8>)>,
    n: int,
)
    requires
        requests_fit(requests),
        steps.len() == requests.len(),
        forall|j: int|
            0 <= j < steps.len() ==> #[trigger] stream_step_taken(
                request_frames(requests) + next,
                steps,
                j,
            ),
        0 <= n <= requests.len(),
    ensures
        forall|j: int| 0 <= j < n ==> #[trigger] request_served(requests, next, steps, j),
    decreases n,
{
    if n > 0 {
        let j = n - 1;
        lemma_request_stream_upto(requests, next, steps, j);
        let start = request_frames(requests) + next;
        if j > 0 {
            assert(request_served(requests, next, steps, j - 1));
            assert(requests.skip(j - 1 + 1) =~= requests.skip(j));
        } else {
            assert(requests.skip(0) =~= requests);
        }
        assert(stream_state(start, steps, j) == (
            None::<usize>,
            request_frames(requests.skip(j)) + next,
        ));
        assert(stream_step_taken(start, steps, j));
        reveal(stream_step_taken);
        lemma_request_stream_step(requests, next, j, steps[j].0, steps[j].1, steps[j].2);
        assert(request_served(requests, next, steps, j));
    }
}

/// One step of [`lemma_request_stream`]: from a buffer holding the frames of
/// the requests from the `j`-th on, then `next`, the `j`-th request is taken.
proof fn lemma_request_stream_step(
    requests: Seq<(i16, i16, i32, Seq<u8>, Seq<u8>)>,
    next: Seq<u8>,
    j: int,
    res: Result<ConnectionStep, ProtocolError>,
    new_pending: Option<usize>,
    fin: Seq<u8>,
)
    requires
        requests_fit(requests),
        0 <= j < requests.len(),
        request_stepped(None, request_frames(requests.skip(j)) + next, res, new_pending, fin),
    ensures
        res matches Ok(ConnectionStep::Request(h)) && h.api_key == api_key_of(requests[j].0)
            && h.api_version == requests[j].1 && h.correlation_id == requests[j].2 && h.client_id@
            == utf8_lossy(requests[j].3),
        new_pending is None,
        fin == request_frames(requests.skip(j + 1)) + next,
{
    let rest = requests.skip(j);
    let r = requests[j];
    assert(rest[0] == r);
    assert(rest.skip(1) =~= requests.skip(j + 1));
    let f = request_frame(r.0, r.1, r.2, r.3, r.4);
    let later = request_frames(requests.skip(j + 1));
    assert(request_frames(rest) == f + later);
    assert(request_frames(rest) + next =~= f + (later + next));
    lemma_requests_are_delimited(r.0, r.1, r.2, r.3, r.4, later + next, res, new_pending, fin);
}

} // verus!
