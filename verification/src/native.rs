//! PulseMQ native protocol: the primary wire protocol of PulseMQ.
//!
//! Every native frame starts with a fixed 28-byte header:
//!
//! ```text
//! magic "PULS" (4) | version u16 | api key u16 | correlation id u64
//!                  | tenant id u32 | timeout ms u32 | body length u32
//! ```
//!
//! all integers big-endian. The Kafka compatibility layer lives in
//! `protocol`.

use crate::buffer::{
    be_u16, be_u32, be_u64, buf_contents, buf_get_u16, buf_get_u32, buf_get_u64, buf_get_u8, buf_len,
    buf_put_slice, buf_put_u16, buf_put_u32, buf_put_u64, lemma_u16_be_roundtrip,
    lemma_u16_from_be_prefix, lemma_u32_be_roundtrip, lemma_u32_from_be_prefix, lemma_u64_be_roundtrip,
    lemma_u64_from_be_prefix, u16_from_be, u32_from_be, u64_from_be,
};
use bytes::BytesMut;
use vstd::prelude::*;

verus! {

/// Magic bytes that identify a PulseMQ native frame: the ASCII letters "PULS".
pub const PULSE_MAGIC: [u8; 4] = [0x50, 0x55, 0x4c, 0x53];

/// Current native protocol version.
pub const NATIVE_PROTOCOL_VERSION: u16 = 1;

/// Length of an encoded native frame header in bytes.
pub const NATIVE_HEADER_LEN: usize = 28;

/// Largest body length a native frame header may announce (64 MiB).
pub const MAX_NATIVE_BODY_LEN: u32 = 67108864;

/// The magic bytes as a sequence.
pub open spec fn pulse_magic() -> Seq<u8> {
    seq![0x50u8, 0x55u8, 0x4cu8, 0x53u8]
}

/// API keys of the native protocol.
#[derive(Debug, Clone, Copy, PartialEq, Eq, Structural)]
pub enum NativeApiKey {
    // Core
    Ping,
    Produce,
    Fetch,
    Metadata,
    // Admin
    CreateStream,
    DeleteStream,
    ListStreams,
    // Control
    Heartbeat,
    Join,
    Unknown,
}

/// The wire code of each native API key.
pub open spec fn native_api_key_code(key: NativeApiKey) -> u16 {
    match key {
        NativeApiKey::Ping => 1,
        NativeApiKey::Produce => 10,
        NativeApiKey::Fetch => 11,
        NativeApiKey::Metadata => 12,
        NativeApiKey::CreateStream => 20,
        NativeApiKey::DeleteStream => 21,
        NativeApiKey::ListStreams => 22,
        NativeApiKey::Heartbeat => 30,
        NativeApiKey::Join => 31,
        NativeApiKey::Unknown => 0,
    }
}

/// The native API key that a wire code names; unassigned codes are `Unknown`.
pub open spec fn native_api_key_of(v: u16) -> NativeApiKey {
    if v == 1 {
        NativeApiKey::Ping
    } else if v == 10 {
        NativeApiKey::Produce
    } else if v == 11 {
        NativeApiKey::Fetch
    } else if v == 12 {
        NativeApiKey::Metadata
    } else if v == 20 {
        NativeApiKey::CreateStream
    } else if v == 21 {
        NativeApiKey::DeleteStream
    } else if v == 22 {
        NativeApiKey::ListStreams
    } else if v == 30 {
        NativeApiKey::Heartbeat
    } else if v == 31 {
        NativeApiKey::Join
    } else {
        NativeApiKey::Unknown
    }
}

impl NativeApiKey {
    /// The key's wire code (its `u16` representation).
    pub fn code(self) -> (c: u16)
        ensures
            c == native_api_key_code(self),
    {
        match self {
            NativeApiKey::Ping => 1,
            NativeApiKey::Produce => 10,
            NativeApiKey::Fetch => 11,
            NativeApiKey::Metadata => 12,
            NativeApiKey::CreateStream => 20,
            NativeApiKey::DeleteStream => 21,
            NativeApiKey::ListStreams => 22,
            NativeApiKey::Heartbeat => 30,
            NativeApiKey::Join => 31,
            NativeApiKey::Unknown => 0,
        }
    }
}

impl From<u16> for NativeApiKey {
    fn from(v: u16) -> (key: NativeApiKey) {
        match v {
            1 => NativeApiKey::Ping,
            10 => NativeApiKey::Produce,
            11 => NativeApiKey::Fetch,
            12 => NativeApiKey::Metadata,
            20 => NativeApiKey::CreateStream,
            21 => NativeApiKey::DeleteStream,
            22 => NativeApiKey::ListStreams,
            30 => NativeApiKey::Heartbeat,
            31 => NativeApiKey::Join,
            _ => NativeApiKey::Unknown,
        }
    }
}

impl vstd::std_specs::convert::FromSpecImpl<u16> for NativeApiKey {
    open spec fn obeys_from_spec() -> bool {
        true
    }

    open spec fn from_spec(v: u16) -> NativeApiKey {
        native_api_key_of(v)
    }
}

/// Native request header: deliberately different from Kafka, with a wider
/// correlation id and a first-class tenant id.
#[derive(Debug, Clone)]
pub struct NativeRequestHeader {
    pub version: u16,
    pub api_key: NativeApiKey,
    pub correlation_id: u64,
    pub tenant_id: u32,
    pub timeout_ms: u32,
}

/// Native response header.
#[derive(Debug, Clone)]
pub struct NativeResponseHeader {
    pub correlation_id: u64,
    pub error_code: u16,
}

/// Errors in decoding a native frame header.
#[derive(Debug, PartialEq, Eq, Structural)]
pub enum NativeProtocolError {
    InvalidMagic,
    UnsupportedVersion(u16),
    Incomplete,
    InvalidSize(u32),
}

/// Simple ping body (for health checks).
#[derive(Debug, Clone)]
pub struct PingRequest {
    pub payload: Vec<u8>,
}

/// The 28 bytes that encode a frame header announcing a body of `body_len` bytes.
pub open spec fn encoded_frame_header(header: NativeRequestHeader, body_len: u32) -> Seq<u8> {
    pulse_magic() + be_u16(header.version) + be_u16(native_api_key_code(header.api_key)) + be_u64(
        header.correlation_id,
    ) + be_u32(header.tenant_id) + be_u32(header.timeout_ms) + be_u32(body_len)
}

/// What decoding a frame header from the buffer contents `s` returns, and
/// what the buffer holds afterwards. Fewer than 28 bytes decode to nothing
/// and are left in place; otherwise the fields are consumed in order up to
/// the first one that is refused.
pub open spec fn decoded_frame_header(s: Seq<u8>) -> (
    Result<Option<(NativeRequestHeader, u32)>, NativeProtocolError>,
    Seq<u8>,
) {
    if s.len() < 28 {
        (Ok(None), s)
    } else if s.take(4) != pulse_magic() {
        (Err(NativeProtocolError::InvalidMagic), s.skip(4))
    } else if u16_from_be(s.skip(4)) != NATIVE_PROTOCOL_VERSION {
        (Err(NativeProtocolError::UnsupportedVersion(u16_from_be(s.skip(4)))), s.skip(6))
    } else if u32_from_be(s.skip(24)) > MAX_NATIVE_BODY_LEN {
        (Err(NativeProtocolError::InvalidSize(u32_from_be(s.skip(24)))), s.skip(28))
    } else {
        (
            Ok(
                Some(
                    (
                        NativeRequestHeader {
                            version: u16_from_be(s.skip(4)),
                            api_key: native_api_key_of(u16_from_be(s.skip(6))),
                            correlation_id: u64_from_be(s.skip(8)),
                            tenant_id: u32_from_be(s.skip(16)),
                            timeout_ms: u32_from_be(s.skip(20)),
                        },
                        u32_from_be(s.skip(24)),
                    ),
                ),
            ),
            s.skip(28),
        )
    }
}

/// Encode a native frame header at the end of `buf`.
pub fn encode_frame_header(buf: &mut BytesMut, header: &NativeRequestHeader, body_len: u32)
    requires
        buf_contents(*old(buf)).len() + 28 <= isize::MAX,
    ensures
        buf_contents(*final(buf)) == buf_contents(*old(buf)) + encoded_frame_header(
            *header,
            body_len,
        ),
{
    let ghost s0 = buf_contents(*buf);
    buf_put_slice(buf, PULSE_MAGIC.as_slice());
    assert(PULSE_MAGIC@ =~= pulse_magic());
    buf_put_u16(buf, header.version);
    buf_put_u16(buf, header.api_key.code());
    buf_put_u64(buf, header.correlation_id);
    buf_put_u32(buf, header.tenant_id);
    buf_put_u32(buf, header.timeout_ms);
    buf_put_u32(buf, body_len);
    assert(buf_contents(*buf) =~= s0 + encoded_frame_header(*header, body_len));
}

/// Try to decode a native frame header from the front of `buf`. Returns
/// `Ok(None)`, consuming nothing, while fewer than 28 bytes are buffered.
pub fn decode_frame_header(buf: &mut BytesMut) -> (res: Result<
    Option<(NativeRequestHeader, u32)>,
    NativeProtocolError,
>)
    ensures
        (res, buf_contents(*final(buf))) == decoded_frame_header(buf_contents(*old(buf))),
{
    let ghost s = buf_contents(*buf);
    if buf_len(buf) < NATIVE_HEADER_LEN {
        return Ok(None);
    }
    let m0 = buf_get_u8(buf);
    let m1 = buf_get_u8(buf);
    let m2 = buf_get_u8(buf);
    let m3 = buf_get_u8(buf);
    assert(s.skip(1).skip(1).skip(1).skip(1) =~= s.skip(4));
    assert(s.skip(1)[0] == s[1] && s.skip(1).skip(1)[0] == s[2] && s.skip(1).skip(1).skip(1)[0]
        == s[3]);
    if !(m0 == PULSE_MAGIC[0] && m1 == PULSE_MAGIC[1] && m2 == PULSE_MAGIC[2] && m3
        == PULSE_MAGIC[3]) {
        assert(s.take(4) != pulse_magic()) by {
            if s.take(4) == pulse_magic() {
                assert(s.take(4)[0] == s[0] && s.take(4)[1] == s[1] && s.take(4)[2] == s[2]
                    && s.take(4)[3] == s[3]);
            }
        }
        return Err(NativeProtocolError::InvalidMagic);
    }
    assert(s.take(4) =~= pulse_magic());
    let version = buf_get_u16(buf);
    assert(s.skip(4).skip(2) =~= s.skip(6));
    if version != NATIVE_PROTOCOL_VERSION {
        return Err(NativeProtocolError::UnsupportedVersion(version));
    }
    let api_key = NativeApiKey::from(buf_get_u16(buf));
    assert(s.skip(6).skip(2) =~= s.skip(8));
    let correlation_id = buf_get_u64(buf);
    assert(s.skip(8).skip(8) =~= s.skip(16));
    let tenant_id = buf_get_u32(buf);
    assert(s.skip(16).skip(4) =~= s.skip(20));
    let timeout_ms = buf_get_u32(buf);
    assert(s.skip(20).skip(4) =~= s.skip(24));
    let body_len = buf_get_u32(buf);
    assert(s.skip(24).skip(4) =~= s.skip(28));
    if body_len > MAX_NATIVE_BODY_LEN {
        return Err(NativeProtocolError::InvalidSize(body_len));
    }
    Ok(Some((NativeRequestHeader { version, api_key, correlation_id, tenant_id, timeout_ms }, body_len)))
}

/// Every native API key survives the trip through its wire code.
pub proof fn lemma_native_api_key_roundtrip(key: NativeApiKey)
    ensures
        native_api_key_of(native_api_key_code(key)) == key,
{
}

/// Decoding what `encode_frame_header` wrote gives back exactly the header
/// and body length that were encoded, and leaves in the buffer whatever
/// followed them, for every header with the current protocol version and
/// every body length within the limit; a header with another version is
/// refused with that version, and a body length over the limit is refused
/// with that length.
pub proof fn lemma_frame_header_roundtrip(header: NativeRequestHeader, body_len: u32, rest: Seq<u8>)
    ensures
        decoded_frame_header(encoded_frame_header(header, body_len) + rest) == (if header.version
            != NATIVE_PROTOCOL_VERSION {
            (
                Err(NativeProtocolError::UnsupportedVersion(header.version)),
                (encoded_frame_header(header, body_len) + rest).skip(6),
            )
        } else if body_len > MAX_NATIVE_BODY_LEN {
            (Err(NativeProtocolError::InvalidSize(body_len)), rest)
        } else {
            (Ok(Some((header, body_len))), rest)
        }),
{
    let enc = encoded_frame_header(header, body_len);
    let e = enc + rest;
    lemma_u16_be_roundtrip(header.version);
    lemma_u16_be_roundtrip(native_api_key_code(header.api_key));
    lemma_u64_be_roundtrip(header.correlation_id);
    lemma_u32_be_roundtrip(header.tenant_id);
    lemma_u32_be_roundtrip(header.timeout_ms);
    lemma_u32_be_roundtrip(body_len);
    lemma_native_api_key_roundtrip(header.api_key);
    assert(enc.len() == 28);
    assert(e.take(4) =~= pulse_magic());
    assert(e.skip(4).take(2) =~= be_u16(header.version));
    assert(e.skip(6).take(2) =~= be_u16(native_api_key_code(header.api_key)));
    assert(e.skip(8).take(8) =~= be_u64(header.correlation_id));
    assert(e.skip(16).take(4) =~= be_u32(header.tenant_id));
    assert(e.skip(20).take(4) =~= be_u32(header.timeout_ms));
    assert(e.skip(24).take(4) =~= be_u32(body_len));
    assert(e.skip(28) =~= rest);
    lemma_u16_from_be_prefix(e.skip(4));
    lemma_u16_from_be_prefix(e.skip(6));
    lemma_u64_from_be_prefix(e.skip(8));
    lemma_u32_from_be_prefix(e.skip(16));
    lemma_u32_from_be_prefix(e.skip(20));
    lemma_u32_from_be_prefix(e.skip(24));
}

/// Human-readable name of the native protocol.
pub fn protocol_name() -> (name: &'static str)
    ensures
        name@ == "PulseMQ Native Protocol v1"@,
{
    "PulseMQ Native Protocol v1"
}

} // verus!
