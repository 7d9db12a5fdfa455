use bytes::BytesMut;
use pulsemq::native::{
    decode_frame_header, encode_frame_header, protocol_name, NativeApiKey, NativeProtocolError,
    NativeRequestHeader, MAX_NATIVE_BODY_LEN, NATIVE_PROTOCOL_VERSION, PULSE_MAGIC,
};

fn header(api_key: NativeApiKey) -> NativeRequestHeader {
    NativeRequestHeader {
        version: NATIVE_PROTOCOL_VERSION,
        api_key,
        correlation_id: 0x0102_0304_0506_0708,
        tenant_id: 42,
        timeout_ms: 30_000,
    }
}

#[test]
fn magic_is_puls() {
    assert_eq!(&PULSE_MAGIC, b"PULS");
    assert_eq!(NATIVE_PROTOCOL_VERSION, 1);
}

#[test]
fn encode_writes_the_documented_layout() {
    let mut buf = BytesMut::new();
    encode_frame_header(&mut buf, &header(NativeApiKey::Produce), 512);
    let expected: Vec<u8> = vec![
        b'P', b'U', b'L', b'S', // magic
        0, 1, // version
        0, 10, // api key: Produce
        1, 2, 3, 4, 5, 6, 7, 8, // correlation id
        0, 0, 0, 42, // tenant id
        0, 0, 0x75, 0x30, // timeout ms
        0, 0, 2, 0, // body length
    ];
    assert_eq!(&buf[..], &expected[..]);
}

#[test]
fn encode_appends_after_existing_bytes() {
    let mut buf = BytesMut::from(&b"xy"[..]);
    encode_frame_header(&mut buf, &header(NativeApiKey::Ping), 0);
    assert_eq!(buf.len(), 30);
    assert_eq!(&buf[..6], b"xyPULS");
}

#[test]
fn decode_gives_back_what_was_encoded() {
    let keys = [
        NativeApiKey::Ping,
        NativeApiKey::Produce,
        NativeApiKey::Fetch,
        NativeApiKey::Metadata,
        NativeApiKey::CreateStream,
        NativeApiKey::DeleteStream,
        NativeApiKey::ListStreams,
        NativeApiKey::Heartbeat,
        NativeApiKey::Join,
        NativeApiKey::Unknown,
    ];
    for key in keys {
        let mut buf = BytesMut::new();
        let h = header(key);
        encode_frame_header(&mut buf, &h, 1234);
        buf.extend_from_slice(b"body");
        let (decoded, body_len) = decode_frame_header(&mut buf).unwrap().unwrap();
        assert_eq!(decoded.version, h.version);
        assert_eq!(decoded.api_key, key);
        assert_eq!(decoded.correlation_id, h.correlation_id);
        assert_eq!(decoded.tenant_id, h.tenant_id);
        assert_eq!(decoded.timeout_ms, h.timeout_ms);
        assert_eq!(body_len, 1234);
        assert_eq!(&buf[..], b"body");
    }
}

#[test]
fn decode_waits_for_a_full_header() {
    let mut full = BytesMut::new();
    encode_frame_header(&mut full, &header(NativeApiKey::Fetch), 7);
    let mut buf = BytesMut::from(&full[..27]);
    assert!(matches!(decode_frame_header(&mut buf), Ok(None)));
    assert_eq!(buf.len(), 27);
    let mut empty = BytesMut::new();
    assert!(matches!(decode_frame_header(&mut empty), Ok(None)));
}

#[test]
fn decode_rejects_bad_magic() {
    let mut full = BytesMut::new();
    encode_frame_header(&mut full, &header(NativeApiKey::Fetch), 7);
    full[3] = b'X';
    let mut buf = full.clone();
    assert_eq!(decode_frame_header(&mut buf).unwrap_err(), NativeProtocolError::InvalidMagic);
    assert_eq!(buf.len(), 24);
}

#[test]
fn decode_rejects_other_versions() {
    let mut h = header(NativeApiKey::Fetch);
    h.version = 2;
    let mut buf = BytesMut::new();
    encode_frame_header(&mut buf, &h, 7);
    assert_eq!(
        decode_frame_header(&mut buf).unwrap_err(),
        NativeProtocolError::UnsupportedVersion(2)
    );
    assert_eq!(buf.len(), 22);
}

#[test]
fn decode_rejects_oversized_bodies() {
    let mut buf = BytesMut::new();
    encode_frame_header(&mut buf, &header(NativeApiKey::Fetch), MAX_NATIVE_BODY_LEN);
    assert!(decode_frame_header(&mut buf).unwrap().is_some());

    let mut buf = BytesMut::new();
    encode_frame_header(&mut buf, &header(NativeApiKey::Fetch), MAX_NATIVE_BODY_LEN + 1);
    assert_eq!(
        decode_frame_header(&mut buf).unwrap_err(),
        NativeProtocolError::InvalidSize(64 * 1024 * 1024 + 1)
    );
    assert_eq!(buf.len(), 0);
}

#[test]
fn unknown_api_codes_decode_as_unknown() {
    let mut buf = BytesMut::new();
    encode_frame_header(&mut buf, &header(NativeApiKey::Ping), 0);
    buf[6] = 0x12;
    buf[7] = 0x34;
    let (decoded, _) = decode_frame_header(&mut buf).unwrap().unwrap();
    assert_eq!(decoded.api_key, NativeApiKey::Unknown);
}

#[test]
fn api_key_codes() {
    assert_eq!(NativeApiKey::from(1), NativeApiKey::Ping);
    assert_eq!(NativeApiKey::from(10), NativeApiKey::Produce);
    assert_eq!(NativeApiKey::from(11), NativeApiKey::Fetch);
    assert_eq!(NativeApiKey::from(12), NativeApiKey::Metadata);
    assert_eq!(NativeApiKey::from(20), NativeApiKey::CreateStream);
    assert_eq!(NativeApiKey::from(21), NativeApiKey::DeleteStream);
    assert_eq!(NativeApiKey::from(22), NativeApiKey::ListStreams);
    assert_eq!(NativeApiKey::from(30), NativeApiKey::Heartbeat);
    assert_eq!(NativeApiKey::from(31), NativeApiKey::Join);
    assert_eq!(NativeApiKey::from(0), NativeApiKey::Unknown);
    assert_eq!(NativeApiKey::from(2), NativeApiKey::Unknown);
    assert_eq!(NativeApiKey::Join.code(), 31);
    assert_eq!(NativeApiKey::Unknown.code(), 0);
    assert_eq!(NativeApiKey::ListStreams.code(), 22);
}

#[test]
fn native_protocol_name() {
    assert_eq!(protocol_name(), "PulseMQ Native Protocol v1");
}

#[test]
fn frame_header_into_a_new_buffer() {
    let mut buf = pulsemq::buffer::new_buffer();
    assert_eq!(pulsemq::buffer::buffer_len(&buf), 0);
    encode_frame_header(&mut buf, &header(NativeApiKey::Ping), 3);
    assert_eq!(pulsemq::buffer::buffer_len(&buf), 28);
}
