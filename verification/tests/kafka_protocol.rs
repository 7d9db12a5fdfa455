use bytes::BytesMut;
use pulsemq::protocol::{
    parse_request_header, parse_request_size, protocol_version, ApiKey, ErrorCode, ProtocolError,
};

fn header_bytes(api_key: i16, version: i16, correlation_id: i32, client_id: &[u8]) -> Vec<u8> {
    let mut v = Vec::new();
    v.extend_from_slice(&api_key.to_be_bytes());
    v.extend_from_slice(&version.to_be_bytes());
    v.extend_from_slice(&correlation_id.to_be_bytes());
    v.extend_from_slice(&(client_id.len() as i16).to_be_bytes());
    v.extend_from_slice(client_id);
    v
}

#[test]
fn version_string() {
    assert_eq!(protocol_version(), "0.1.0-dev");
}

#[test]
fn size_needs_four_bytes() {
    let mut buf = BytesMut::from(&[0u8, 0, 1][..]);
    assert!(matches!(parse_request_size(&mut buf), Ok(None)));
    assert_eq!(buf.len(), 3);
}

#[test]
fn size_is_read_big_endian_and_consumed() {
    let mut buf = BytesMut::from(&[0u8, 0, 1, 2, 9][..]);
    assert!(matches!(parse_request_size(&mut buf), Ok(Some(258))));
    assert_eq!(&buf[..], &[9u8][..]);
}

#[test]
fn size_limits() {
    let mut buf = BytesMut::from(&(100 * 1024 * 1024i32).to_be_bytes()[..]);
    assert!(matches!(parse_request_size(&mut buf), Ok(Some(104857600))));
    let mut buf = BytesMut::from(&(100 * 1024 * 1024 + 1i32).to_be_bytes()[..]);
    assert!(matches!(parse_request_size(&mut buf), Err(ProtocolError::InvalidSize(104857601))));
    let mut buf = BytesMut::from(&(-1i32).to_be_bytes()[..]);
    assert!(matches!(parse_request_size(&mut buf), Err(ProtocolError::InvalidSize(-1))));
    assert_eq!(buf.len(), 0);
    let mut buf = BytesMut::from(&0i32.to_be_bytes()[..]);
    assert!(matches!(parse_request_size(&mut buf), Ok(Some(0))));
}

#[test]
fn header_is_parsed() {
    let mut bytes = header_bytes(18, 3, 77, b"client-1");
    bytes.extend_from_slice(b"rest");
    let mut buf = BytesMut::from(&bytes[..]);
    let h = parse_request_header(&mut buf).unwrap().unwrap();
    assert_eq!(h.api_key, ApiKey::ApiVersions);
    assert_eq!(h.api_version, 3);
    assert_eq!(h.correlation_id, 77);
    assert_eq!(h.client_id, "client-1");
    assert_eq!(&buf[..], b"rest");
}

#[test]
fn header_with_empty_client_id() {
    let mut buf = BytesMut::from(&header_bytes(3, 12, -5, b"")[..]);
    let h = parse_request_header(&mut buf).unwrap().unwrap();
    assert_eq!(h.api_key, ApiKey::Metadata);
    assert_eq!(h.correlation_id, -5);
    assert_eq!(h.client_id, "");
    assert_eq!(buf.len(), 0);
}

#[test]
fn header_needs_ten_bytes() {
    let bytes = header_bytes(0, 9, 1, b"abc");
    let mut buf = BytesMut::from(&bytes[..9]);
    assert!(matches!(parse_request_header(&mut buf), Ok(None)));
    assert_eq!(buf.len(), 9);
}

#[test]
fn header_with_incomplete_client_id_waits() {
    let bytes = header_bytes(0, 9, 1, b"abcdef");
    let mut buf = BytesMut::from(&bytes[..13]);
    assert!(matches!(parse_request_header(&mut buf), Ok(None)));
    assert_eq!(&buf[..], b"abc");
}

#[test]
fn header_with_negative_client_id_length_is_refused() {
    let mut bytes = header_bytes(0, 9, 1, b"");
    bytes[8] = 0xff;
    bytes[9] = 0xfe;
    bytes.extend_from_slice(b"zz");
    let mut buf = BytesMut::from(&bytes[..]);
    assert!(matches!(parse_request_header(&mut buf), Err(ProtocolError::InvalidClientId)));
    assert_eq!(&buf[..], b"zz");
}

#[test]
fn client_id_is_decoded_lossily() {
    let mut buf = BytesMut::from(&header_bytes(1, 0, 2, &[b'a', 0xff, b'b'])[..]);
    let h = parse_request_header(&mut buf).unwrap().unwrap();
    assert_eq!(h.client_id, "a\u{fffd}b");
    assert_eq!(h.api_key, ApiKey::Fetch);
    let mut buf = BytesMut::from(&header_bytes(1, 0, 2, "héllo".as_bytes())[..]);
    let h = parse_request_header(&mut buf).unwrap().unwrap();
    assert_eq!(h.client_id, "héllo");
}

#[test]
fn api_keys_from_codes() {
    assert_eq!(ApiKey::from(0), ApiKey::Produce);
    assert_eq!(ApiKey::from(1), ApiKey::Fetch);
    assert_eq!(ApiKey::from(2), ApiKey::ListOffsets);
    assert_eq!(ApiKey::from(3), ApiKey::Metadata);
    assert_eq!(ApiKey::from(18), ApiKey::ApiVersions);
    assert_eq!(ApiKey::from(19), ApiKey::CreateTopics);
    assert_eq!(ApiKey::from(20), ApiKey::DeleteTopics);
    assert_eq!(ApiKey::from(4), ApiKey::Unknown);
    assert_eq!(ApiKey::from(17), ApiKey::Unknown);
    assert_eq!(ApiKey::from(-1), ApiKey::Unknown);
    assert_eq!(ApiKey::from(i16::MAX), ApiKey::Unknown);
}

#[test]
fn api_key_and_error_code_values() {
    assert_eq!(ApiKey::Produce.code(), 0);
    assert_eq!(ApiKey::SaslHandshake.code(), 17);
    assert_eq!(ApiKey::DeleteTopics.code(), 20);
    assert_eq!(ApiKey::Unknown.code(), -1);
    assert_eq!(ApiKey::from(ApiKey::CreateTopics.code()), ApiKey::CreateTopics);
    assert_eq!(ApiKey::from(ApiKey::JoinGroup.code()), ApiKey::Unknown);
    assert_eq!(ErrorCode::NoError.code(), 0);
    assert_eq!(ErrorCode::NotLeaderForPartition.code(), 6);
    assert_eq!(ErrorCode::UnsupportedVersion.code(), 35);
    assert_eq!(ErrorCode::UnknownServerError.code(), -1);
}
