//! Kafka wire-protocol compatibility layer.
//!
//! This is a compatibility bridge for existing Kafka clients, not the core
//! identity of PulseMQ; the native protocol lives in `native`.

use crate::buffer::{
    be_i16, be_i32, lemma_i16_be_roundtrip, lemma_i32_be_roundtrip, lemma_u16_from_be_prefix,
    lemma_u32_from_be_prefix, buf_contents, buf_copy_to_bytes, buf_get_i16, buf_get_i32, buf_len, bytes_as_slice,
    i16_from_be, i32_from_be, string_from_utf8_lossy, utf8_lossy,
};
use bytes::BytesMut;
use vstd::prelude::*;

verus! {

/// Current protocol version of PulseMQ.
pub fn protocol_version() -> (v: &'static str)
    ensures
        v@ == "0.1.0-dev"@,
{
    "0.1.0-dev"
}

/// Kafka API keys (used only for compatibility).
#[derive(Debug, Clone, Copy, PartialEq, Eq, Structural)]
pub enum ApiKey {
    Produce,
    Fetch,
    ListOffsets,
    Metadata,
    LeaderAndIsr,
    StopReplica,
    UpdateMetadata,
    ControlledShutdown,
    OffsetCommit,
    OffsetFetch,
    FindCoordinator,
    JoinGroup,
    Heartbeat,
    LeaveGroup,
    SyncGroup,
    DescribeGroups,
    ListGroups,
    SaslHandshake,
    ApiVersions,
    CreateTopics,
    DeleteTopics,
    Unknown,
}

/// The API key that a Kafka request's `api_key` field names. Only the keys
/// the compatibility layer knows are recognised; every other value is `Unknown`.
pub open spec fn api_key_of(value: i16) -> ApiKey {
    if value == 0 {
        ApiKey::Produce
    } else if value == 1 {
        ApiKey::Fetch
    } else if value == 2 {
        ApiKey::ListOffsets
    } else if value == 3 {
        ApiKey::Metadata
    } else if value == 18 {
        ApiKey::ApiVersions
    } else if value == 19 {
        ApiKey::CreateTopics
    } else if value == 20 {
        ApiKey::DeleteTopics
    } else {
        ApiKey::Unknown
    }
}

impl From<i16> for ApiKey {
    fn from(value: i16) -> (key: ApiKey) {
        match value {
            0 => ApiKey::Produce,
            1 => ApiKey::Fetch,
            2 => ApiKey::ListOffsets,
            3 => ApiKey::Metadata,
            18 => ApiKey::ApiVersions,
            19 => ApiKey::CreateTopics,
            20 => ApiKey::DeleteTopics,
            _ => ApiKey::Unknown,
        }
    }
}

impl vstd::std_specs::convert::FromSpecImpl<i16> for ApiKey {
    open spec fn obeys_from_spec() -> bool {
        true
    }

    open spec fn from_spec(v: i16) -> ApiKey {
        api_key_of(v)
    }
}

/// The wire code of each Kafka API key (its `i16` representation).
pub open spec fn api_key_code(key: ApiKey) -> i16 {
    match key {
        ApiKey::Produce => 0,
        ApiKey::Fetch => 1,
        ApiKey::ListOffsets => 2,
        ApiKey::Metadata => 3,
        ApiKey::LeaderAndIsr => 4,
        ApiKey::StopReplica => 5,
        ApiKey::UpdateMetadata => 6,
        ApiKey::ControlledShutdown => 7,
        ApiKey::OffsetCommit => 8,
        ApiKey::OffsetFetch => 9,
        ApiKey::FindCoordinator => 10,
        ApiKey::JoinGroup => 11,
        ApiKey::Heartbeat => 12,
        ApiKey::LeaveGroup => 13,
        ApiKey::SyncGroup => 14,
        ApiKey::DescribeGroups => 15,
        ApiKey::ListGroups => 16,
        ApiKey::SaslHandshake => 17,
        ApiKey::ApiVersions => 18,
        ApiKey::CreateTopics => 19,
        ApiKey::DeleteTopics => 20,
        ApiKey::Unknown => -1i16,
    }
}

/// The API keys that decoding recognises.
pub open spec fn is_recognised_api_key(key: ApiKey) -> bool {
    key == ApiKey::Produce || key == ApiKey::Fetch || key == ApiKey::ListOffsets || key
        == ApiKey::Metadata || key == ApiKey::ApiVersions || key == ApiKey::CreateTopics || key
        == ApiKey::DeleteTopics || key == ApiKey::Unknown
}

impl ApiKey {
    /// The key's wire code (its `i16` representation).
    pub fn code(self) -> (c: i16)
        ensures
            c == api_key_code(self),
    {
        match self {
            ApiKey::Produce => 0,
            ApiKey::Fetch => 1,
            ApiKey::ListOffsets => 2,
            ApiKey::Metadata => 3,
            ApiKey::LeaderAndIsr => 4,
            ApiKey::StopReplica => 5,
            ApiKey::UpdateMetadata => 6,
            ApiKey::ControlledShutdown => 7,
            ApiKey::OffsetCommit => 8,
            ApiKey::OffsetFetch => 9,
            ApiKey::FindCoordinator => 10,
            ApiKey::JoinGroup => 11,
            ApiKey::Heartbeat => 12,
            ApiKey::LeaveGroup => 13,
            ApiKey::SyncGroup => 14,
            ApiKey::DescribeGroups => 15,
            ApiKey::ListGroups => 16,
            ApiKey::SaslHandshake => 17,
            ApiKey::ApiVersions => 18,
            ApiKey::CreateTopics => 19,
            ApiKey::DeleteTopics => 20,
            ApiKey::Unknown => -1,
        }
    }
}

/// A recognised API key survives the trip through its wire code; every
/// other key comes back as `Unknown`.
pub proof fn lemma_api_key_roundtrip(key: ApiKey)
    ensures
        api_key_of(api_key_code(key)) == (if is_recognised_api_key(key) {
            key
        } else {
            ApiKey::Unknown
        }),
{
}

/// The Kafka API keys the compatibility layer recognises, by wire value:
/// 0 is Produce, 1 Fetch, 2 ListOffsets, 3 Metadata, 18 ApiVersions,
/// 19 CreateTopics and 20 DeleteTopics; every other value, known to Kafka
/// or not, is `Unknown`.
pub proof fn lemma_api_key_values(v: i16)
    ensures
        (api_key_of(v) is Produce) <==> v == 0,
        (api_key_of(v) is Fetch) <==> v == 1,
        (api_key_of(v) is ListOffsets) <==> v == 2,
        (api_key_of(v) is Metadata) <==> v == 3,
        (api_key_of(v) is ApiVersions) <==> v == 18,
        (api_key_of(v) is CreateTopics) <==> v == 19,
        (api_key_of(v) is DeleteTopics) <==> v == 20,
        (api_key_of(v) is Unknown) <==> !(v == 0 || v == 1 || v == 2 || v == 3 || v == 18 || v
            == 19 || v == 20),
{
}

/// Request header (Kafka-compatible structure for the compatibility layer).
#[derive(Debug, Clone)]
pub struct RequestHeader {
    pub api_key: ApiKey,
    pub api_version: i16,
    pub correlation_id: i32,
    pub client_id: String,
}

/// Response header.
#[derive(Debug, Clone)]
pub struct ResponseHeader {
    pub correlation_id: i32,
}

/// Error codes (the subset used for compatibility responses).
#[derive(Debug, Clone, Copy, PartialEq, Eq, Structural)]
pub enum ErrorCode {
    NoError,
    OffsetOutOfRange,
    CorruptMessage,
    UnknownTopicOrPartition,
    InvalidMessageSize,
    NotLeaderForPartition,
    RequestTimedOut,
    BrokerNotAvailable,
    UnsupportedVersion,
    UnknownServerError,
}

/// The wire code of each error code (its `i16` representation).
pub open spec fn error_code_value(code: ErrorCode) -> i16 {
    match code {
        ErrorCode::NoError => 0,
        ErrorCode::OffsetOutOfRange => 1,
        ErrorCode::CorruptMessage => 2,
        ErrorCode::UnknownTopicOrPartition => 3,
        ErrorCode::InvalidMessageSize => 4,
        ErrorCode::NotLeaderForPartition => 6,
        ErrorCode::RequestTimedOut => 7,
        ErrorCode::BrokerNotAvailable => 8,
        ErrorCode::UnsupportedVersion => 35,
        ErrorCode::UnknownServerError => -1i16,
    }
}

impl ErrorCode {
    /// The error code's wire value (its `i16` representation).
    pub fn code(self) -> (c: i16)
        ensures
            c == error_code_value(self),
    {
        match self {
            ErrorCode::NoError => 0,
            ErrorCode::OffsetOutOfRange => 1,
            ErrorCode::CorruptMessage => 2,
            ErrorCode::UnknownTopicOrPartition => 3,
            ErrorCode::InvalidMessageSize => 4,
            ErrorCode::NotLeaderForPartition => 6,
            ErrorCode::RequestTimedOut => 7,
            ErrorCode::BrokerNotAvailable => 8,
            ErrorCode::UnsupportedVersion => 35,
            ErrorCode::UnknownServerError => -1,
        }
    }
}

/// Errors of the compatibility layer.
#[derive(Debug)]
pub enum ProtocolError {
    /// Not enough data to parse a request.
    Incomplete,
    /// The request size prefix is negative or too large.
    InvalidSize(i32),
    /// The client id length is negative.
    InvalidClientId,
    /// An I/O error on the connection.
    Io(std::io::Error),
}

/// Largest request size a size prefix may announce (100 MiB).
pub const MAX_REQUEST_SIZE: i32 = 104857600;

/// Parse the 4-byte length prefix of a request: `Ok(None)`, consuming
/// nothing, while fewer than four bytes are buffered; otherwise the four
/// bytes are consumed and read as a big-endian `i32`, which must lie in
/// `0..=100 MiB`.
pub fn parse_request_size(buf: &mut BytesMut) -> (res: Result<Option<i32>, ProtocolError>)
    ensures
        ({
            let s = buf_contents(*old(buf));
            if s.len() < 4 {
                &&& res matches Ok(None)
                &&& buf_contents(*final(buf)) == s
            } else {
                let size = i32_from_be(s);
                &&& buf_contents(*final(buf)) == s.skip(4)
                &&& if size < 0 || size > MAX_REQUEST_SIZE {
                    res matches Err(ProtocolError::InvalidSize(n)) && n == size
                } else {
                    res matches Ok(Some(n)) && n == size
                }
            }
        }),
{
    if buf_len(buf) < 4 {
        return Ok(None);
    }
    let size = buf_get_i32(buf);
    if size < 0 || size > MAX_REQUEST_SIZE {
        return Err(ProtocolError::InvalidSize(size));
    }
    Ok(Some(size))
}

/// What parsing a request header from the buffer contents `s` returns
/// (`res`) and leaves in the buffer (`fin`): fewer than ten bytes give
/// `Ok(None)` and are left in place; otherwise the ten fixed bytes are
/// consumed, a negative client id length is refused, a client id not yet
/// complete gives `Ok(None)`, and a complete one is consumed too. A client
/// id that is valid UTF-8 is decoded as it stands.
pub open spec fn request_header_parsed(
    s: Seq<u8>,
    res: Result<Option<RequestHeader>, ProtocolError>,
    fin: Seq<u8>,
) -> bool {
    if s.len() < 10 {
        &&& res matches Ok(None)
        &&& fin == s
    } else {
        let len = i16_from_be(s.skip(8));
        if len < 0 {
            &&& res matches Err(ProtocolError::InvalidClientId)
            &&& fin == s.skip(10)
        } else if s.len() - 10 < len {
            &&& res matches Ok(None)
            &&& fin == s.skip(10)
        } else {
            &&& res matches Ok(Some(h))
            &&& h.api_key == api_key_of(i16_from_be(s))
            &&& h.api_version == i16_from_be(s.skip(2))
            &&& h.correlation_id == i32_from_be(s.skip(4))
            &&& h.client_id@ == utf8_lossy(s.subrange(10, 10 + len))
            &&& vstd::utf8::valid_utf8(s.subrange(10, 10 + len)) ==> h.client_id@
                == vstd::utf8::decode_utf8(s.subrange(10, 10 + len))
            &&& fin == s.skip(10 + len)
        }
    }
}

/// The bytes of a request header in the layout the parser reads: api key,
/// api version and correlation id, then the client id as an `i16` length
/// and its bytes.
pub open spec fn request_header_layout(api_key: i16, api_version: i16, correlation_id: i32, client_id: Seq<u8>) -> Seq<u8> {
    be_i16(api_key) + be_i16(api_version) + be_i32(correlation_id) + be_i16(client_id.len() as i16)
        + client_id
}

/// A request header laid out as the parser reads it is parsed back field by
/// field, with its client id decoded from its bytes, and whatever follows
/// it is left in the buffer.
pub proof fn lemma_request_header_layout(
    api_key: i16,
    api_version: i16,
    correlation_id: i32,
    client_id: Seq<u8>,
    rest: Seq<u8>,
    res: Result<Option<RequestHeader>, ProtocolError>,
    fin: Seq<u8>,
)
    requires
        client_id.len() <= i16::MAX,
        request_header_parsed(
            request_header_layout(api_key, api_version, correlation_id, client_id) + rest,
            res,
            fin,
        ),
    ensures
        res matches Ok(Some(h)) && h.api_key == api_key_of(api_key) && h.api_version == api_version
            && h.correlation_id == correlation_id && h.client_id@ == utf8_lossy(client_id)
            && (vstd::utf8::valid_utf8(client_id) ==> h.client_id@ == vstd::utf8::decode_utf8(
            client_id,
        )),
        fin == rest,
{
    let s = request_header_layout(api_key, api_version, correlation_id, client_id) + rest;
    let len = client_id.len() as i16;
    lemma_i16_be_roundtrip(api_key);
    lemma_i16_be_roundtrip(api_version);
    lemma_i32_be_roundtrip(correlation_id);
    lemma_i16_be_roundtrip(len);
    assert(s.take(2) =~= be_i16(api_key));
    assert(s.skip(2).take(2) =~= be_i16(api_version));
    assert(s.skip(4).take(4) =~= be_i32(correlation_id));
    assert(s.skip(8).take(2) =~= be_i16(len));
    lemma_u16_from_be_prefix(s);
    lemma_u16_from_be_prefix(s.skip(2));
    lemma_u32_from_be_prefix(s.skip(4));
    lemma_u16_from_be_prefix(s.skip(8));
    assert(len as int == client_id.len());
    assert(s.subrange(10, 10 + client_id.len() as int) =~= client_id);
    assert(s.skip(10 + client_id.len() as int) =~= rest);
}

/// Parse a request header from the front of `buf`: api key (i16), api
/// version (i16), correlation id (i32), then a client id as an i16 length
/// and that many bytes, decoded as UTF-8 with invalid sequences replaced.
/// `Ok(None)` means that more data is needed: nothing is consumed while
/// fewer than ten bytes are buffered, while a client id that is not yet
/// complete leaves the ten fixed bytes consumed.
pub fn parse_request_header(buf: &mut BytesMut) -> (res: Result<
    Option<RequestHeader>,
    ProtocolError,
>)
    ensures
        request_header_parsed(buf_contents(*old(buf)), res, buf_contents(*final(buf))),
{
    let ghost s = buf_contents(*buf);
    if buf_len(buf) < 10 {
        return Ok(None);
    }
    let api_key = ApiKey::from(buf_get_i16(buf));
    let api_version = buf_get_i16(buf);
    assert(s.skip(2).skip(2) =~= s.skip(4));
    let correlation_id = buf_get_i32(buf);
    assert(s.skip(4).skip(4) =~= s.skip(8));
    if buf_len(buf) < 2 {
        return Ok(None);
    }
    let client_id_len = buf_get_i16(buf);
    assert(s.skip(8).skip(2) =~= s.skip(10));
    if client_id_len < 0 {
        return Err(ProtocolError::InvalidClientId);
    }
    let client_id_len = client_id_len as usize;
    if buf_len(buf) < client_id_len {
        return Ok(None);
    }
    let client_id_bytes = buf_copy_to_bytes(buf, client_id_len);
    assert(s.skip(10).skip(client_id_len as int) =~= s.skip(10 + client_id_len));
    assert(s.skip(10).take(client_id_len as int) =~= s.subrange(10, 10 + client_id_len));
    let client_id = string_from_utf8_lossy(bytes_as_slice(&client_id_bytes));
    Ok(Some(RequestHeader { api_key, api_version, correlation_id, client_id }))
}

/// The API key of a parsed request header is the one its first two bytes
/// name: a request starting with the big-endian bytes of 0, 1, 2, 3, 18, 19
/// or 20 is a Produce, Fetch, ListOffsets, Metadata, ApiVersions,
/// CreateTopics or DeleteTopics request, and one starting with any other
/// value is parsed with the key `Unknown`. The version and correlation id
/// that follow are read as they were sent.
pub proof fn lemma_parsed_api_key(
    v: i16,
    api_version: i16,
    correlation_id: i32,
    rest: Seq<u8>,
    res: Result<Option<RequestHeader>, ProtocolError>,
    fin: Seq<u8>,
)
    requires
        request_header_parsed(be_i16(v) + be_i16(api_version) + be_i32(correlation_id) + rest, res, fin),
        res is Ok && res->Ok_0 is Some,
    ensures
        ({
            let h = res->Ok_0->Some_0;
            &&& v == 0 ==> h.api_key is Produce
            &&& v == 1 ==> h.api_key is Fetch
            &&& v == 2 ==> h.api_key is ListOffsets
            &&& v == 3 ==> h.api_key is Metadata
            &&& v == 18 ==> h.api_key is ApiVersions
            &&& v == 19 ==> h.api_key is CreateTopics
            &&& v == 20 ==> h.api_key is DeleteTopics
            &&& !(v == 0 || v == 1 || v == 2 || v == 3 || v == 18 || v == 19 || v == 20)
                ==> h.api_key is Unknown
            &&& h.api_version == api_version
            &&& h.correlation_id == correlation_id
        }),
{
    let s = be_i16(v) + be_i16(api_version) + be_i32(correlation_id) + rest;
    lemma_i16_be_roundtrip(v);
    lemma_i16_be_roundtrip(api_version);
    lemma_i32_be_roundtrip(correlation_id);
    assert(s.take(2) =~= be_i16(v));
    assert(s.skip(2).take(2) =~= be_i16(api_version));
    assert(s.skip(4).take(4) =~= be_i32(correlation_id));
    lemma_u16_from_be_prefix(s);
    lemma_u16_from_be_prefix(s.skip(2));
    lemma_u32_from_be_prefix(s.skip(4));
    lemma_api_key_values(v);
}

} // verus!
