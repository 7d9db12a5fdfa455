use bytes::BytesMut;
use pulsemq::broker::{
    api_versions_response, empty_error_response, metadata_response, produce_record, produce_reply,
    produce_response, produce_topic, respond, Connection, ConnectionStep, PRODUCE_PARTITION,
};
use pulsemq::protocol::{ApiKey, ProtocolError, RequestHeader};
use pulsemq::storage::StorageError;

fn header(correlation_id: i32) -> RequestHeader {
    RequestHeader { api_key: ApiKey::Metadata, api_version: 0, correlation_id, client_id: String::new() }
}

fn frame_of(body: &[u8]) -> Vec<u8> {
    let mut v = (body.len() as i32).to_be_bytes().to_vec();
    v.extend_from_slice(body);
    v
}

#[test]
fn api_versions_bytes() {
    let r = api_versions_response(7);
    let mut body = Vec::new();
    body.extend_from_slice(&7i32.to_be_bytes());
    body.extend_from_slice(&0i16.to_be_bytes());
    body.extend_from_slice(&4i32.to_be_bytes());
    for (k, lo, hi) in [(0i16, 0i16, 9i16), (1, 0, 11), (3, 0, 12), (18, 0, 3)] {
        body.extend_from_slice(&k.to_be_bytes());
        body.extend_from_slice(&lo.to_be_bytes());
        body.extend_from_slice(&hi.to_be_bytes());
    }
    body.extend_from_slice(&0i32.to_be_bytes());
    assert_eq!(&r[..], &frame_of(&body)[..]);
    assert_eq!(&r[..4], &[0u8, 0, 0, 38][..]);
}

#[test]
fn metadata_bytes() {
    let r = metadata_response(&header(11), 5);
    let mut body = Vec::new();
    body.extend_from_slice(&11i32.to_be_bytes());
    body.extend_from_slice(&0i32.to_be_bytes());
    body.extend_from_slice(&1i32.to_be_bytes());
    body.extend_from_slice(&5i32.to_be_bytes());
    body.extend_from_slice(&9i16.to_be_bytes());
    body.extend_from_slice(b"localhost");
    body.extend_from_slice(&9092i32.to_be_bytes());
    body.extend_from_slice(&(-1i16).to_be_bytes());
    body.extend_from_slice(&15i16.to_be_bytes());
    body.extend_from_slice(b"pulsemq-cluster");
    body.extend_from_slice(&5i32.to_be_bytes());
    body.extend_from_slice(&0i32.to_be_bytes());
    assert_eq!(&r[..], &frame_of(&body)[..]);
}

#[test]
fn produce_bytes() {
    let r = produce_response(&header(-3), "test-topic", 0, 41);
    let mut body = Vec::new();
    body.extend_from_slice(&(-3i32).to_be_bytes());
    body.extend_from_slice(&0i32.to_be_bytes());
    body.extend_from_slice(&1i32.to_be_bytes());
    body.extend_from_slice(&10i16.to_be_bytes());
    body.extend_from_slice(b"test-topic");
    body.extend_from_slice(&1i32.to_be_bytes());
    body.extend_from_slice(&0i32.to_be_bytes());
    body.extend_from_slice(&0i16.to_be_bytes());
    body.extend_from_slice(&41i64.to_be_bytes());
    body.extend_from_slice(&(-1i64).to_be_bytes());
    body.extend_from_slice(&(-1i64).to_be_bytes());
    assert_eq!(&r[..], &frame_of(&body)[..]);
}

#[test]
fn produce_defaults() {
    assert_eq!(produce_topic(), "test-topic");
    assert_eq!(PRODUCE_PARTITION, 0);
    let rec = produce_record(1700000000000);
    assert!(rec.key.is_none());
    assert_eq!(rec.value, b"hello from PulseMQ produce".to_vec());
    assert_eq!(rec.timestamp, 1700000000000);
}

#[test]
fn empty_error_bytes() {
    let r = empty_error_response(0x01020304);
    assert_eq!(&r[..], &[0u8, 0, 0, 6, 1, 2, 3, 4, 0, 1][..]);
}

fn request(api_key: i16, correlation_id: i32, client_id: &[u8]) -> Vec<u8> {
    let mut body = Vec::new();
    body.extend_from_slice(&api_key.to_be_bytes());
    body.extend_from_slice(&0i16.to_be_bytes());
    body.extend_from_slice(&correlation_id.to_be_bytes());
    body.extend_from_slice(&(client_id.len() as i16).to_be_bytes());
    body.extend_from_slice(client_id);
    frame_of(&body)
}

#[test]
fn connection_reads_a_whole_request() {
    let mut conn = Connection::new();
    let bytes = request(18, 9, b"cli");
    let mut buf = BytesMut::from(&bytes[..]);
    match conn.on_read(bytes.len(), &mut buf) {
        Ok(ConnectionStep::Request(h)) => {
            assert_eq!(h.api_key, ApiKey::ApiVersions);
            assert_eq!(h.correlation_id, 9);
            assert_eq!(h.client_id, "cli");
        }
        other => panic!("unexpected {:?}", other),
    }
    assert_eq!(conn.pending_size(), None);
    assert_eq!(buf.len(), 0);
}

#[test]
fn connection_waits_for_the_rest_of_a_request() {
    let mut conn = Connection::new();
    let bytes = request(3, 4, b"abc");
    let mut buf = BytesMut::from(&bytes[..2]);
    assert!(matches!(conn.on_read(2, &mut buf), Ok(ConnectionStep::ReadMore)));
    assert_eq!(conn.pending_size(), None);
    buf.extend_from_slice(&bytes[2..8]);
    assert!(matches!(conn.on_read(6, &mut buf), Ok(ConnectionStep::ReadMore)));
    assert_eq!(conn.pending_size(), Some(13));
    assert_eq!(buf.len(), 4);
    buf.extend_from_slice(&bytes[8..]);
    match conn.on_read(bytes.len() - 8, &mut buf) {
        Ok(ConnectionStep::Request(h)) => {
            assert_eq!(h.api_key, ApiKey::Metadata);
            assert_eq!(h.correlation_id, 4);
        }
        other => panic!("unexpected {:?}", other),
    }
}

#[test]
fn connection_closes_on_end_of_stream() {
    let mut conn = Connection::new();
    let mut buf = BytesMut::from(&[0u8, 0][..]);
    assert!(matches!(conn.on_read(0, &mut buf), Ok(ConnectionStep::Close)));
    assert_eq!(buf.len(), 2);
}

#[test]
fn connection_refuses_bad_sizes() {
    let mut conn = Connection::new();
    let mut buf = BytesMut::from(&(-7i32).to_be_bytes()[..]);
    assert!(matches!(conn.on_read(4, &mut buf), Err(ProtocolError::InvalidSize(-7))));
}

#[test]
fn connection_reports_unparsed_headers() {
    // A size of 4 is satisfied by four bytes, which are too few for a header.
    let mut conn = Connection::new();
    let mut bytes = 4i32.to_be_bytes().to_vec();
    bytes.extend_from_slice(&[0, 1, 0, 0]);
    let mut buf = BytesMut::from(&bytes[..]);
    assert!(matches!(conn.on_read(8, &mut buf), Ok(ConnectionStep::Unparsed)));
    assert_eq!(conn.pending_size(), None);
    assert_eq!(buf.len(), 0);
}

#[test]
fn connection_refuses_negative_client_id_lengths() {
    let mut conn = Connection::new();
    let mut body = vec![0u8, 0, 0, 0, 0, 0, 0, 1];
    body.extend_from_slice(&(-2i16).to_be_bytes());
    let bytes = frame_of(&body);
    let mut buf = BytesMut::from(&bytes[..]);
    assert!(matches!(conn.on_read(bytes.len(), &mut buf), Err(ProtocolError::InvalidClientId)));
}

#[test]
fn request_split_anywhere_is_parsed() {
    let bytes = request(0, 21, b"producer");
    for cut in 1..bytes.len() {
        let mut conn = Connection::new();
        let mut buf = BytesMut::from(&bytes[..cut]);
        assert!(matches!(conn.on_read(cut, &mut buf), Ok(ConnectionStep::ReadMore)));
        buf.extend_from_slice(&bytes[cut..]);
        match conn.on_read(bytes.len() - cut, &mut buf) {
            Ok(ConnectionStep::Request(h)) => {
                assert_eq!(h.api_key, ApiKey::Produce);
                assert_eq!(h.correlation_id, 21);
                assert_eq!(h.client_id, "producer");
            }
            other => panic!("unexpected {:?} at cut {}", other, cut),
        }
        assert_eq!(buf.len(), 0);
    }
    // One byte per read.
    let mut conn = Connection::new();
    let mut buf = BytesMut::new();
    for (i, b) in bytes.iter().enumerate() {
        buf.extend_from_slice(&[*b]);
        let step = conn.on_read(1, &mut buf).unwrap();
        if i + 1 < bytes.len() {
            assert!(matches!(step, ConnectionStep::ReadMore));
        } else {
            assert!(matches!(step, ConnectionStep::Request(_)));
        }
    }
}

fn request_with_body(api_key: i16, correlation_id: i32, client_id: &[u8], body: &[u8]) -> Vec<u8> {
    let mut payload = Vec::new();
    payload.extend_from_slice(&api_key.to_be_bytes());
    payload.extend_from_slice(&0i16.to_be_bytes());
    payload.extend_from_slice(&correlation_id.to_be_bytes());
    payload.extend_from_slice(&(client_id.len() as i16).to_be_bytes());
    payload.extend_from_slice(client_id);
    payload.extend_from_slice(body);
    frame_of(&payload)
}

#[test]
fn request_bodies_are_skipped_across_reads() {
    let first = request_with_body(0, 1, b"c", &[0, 3, 0, 1]);
    let second = request(18, 9, b"c");
    let mut conn = Connection::new();
    let mut buf = BytesMut::from(&first[..]);
    match conn.on_read(first.len(), &mut buf) {
        Ok(ConnectionStep::Request(h)) => assert_eq!(h.correlation_id, 1),
        other => panic!("unexpected {:?}", other),
    }
    assert_eq!(buf.len(), 0);
    buf.extend_from_slice(&second);
    match conn.on_read(second.len(), &mut buf) {
        Ok(ConnectionStep::Request(h)) => {
            assert_eq!(h.api_key, ApiKey::ApiVersions);
            assert_eq!(h.correlation_id, 9);
        }
        other => panic!("unexpected {:?}", other),
    }
    assert_eq!(buf.len(), 0);
}

#[test]
fn requests_sent_together_are_taken_one_by_one() {
    let mut bytes = request_with_body(3, 5, b"cli", b"body bytes");
    bytes.extend_from_slice(&request(18, 6, b""));
    bytes.extend_from_slice(&[0, 0]);
    let mut conn = Connection::new();
    let mut buf = BytesMut::from(&bytes[..]);
    match conn.on_read(bytes.len(), &mut buf) {
        Ok(ConnectionStep::Request(h)) => {
            assert_eq!(h.api_key, ApiKey::Metadata);
            assert_eq!(h.correlation_id, 5);
            assert_eq!(h.client_id, "cli");
        }
        other => panic!("unexpected {:?}", other),
    }
    match conn.next_request(&mut buf) {
        Ok(ConnectionStep::Request(h)) => {
            assert_eq!(h.api_key, ApiKey::ApiVersions);
            assert_eq!(h.correlation_id, 6);
        }
        other => panic!("unexpected {:?}", other),
    }
    assert!(matches!(conn.next_request(&mut buf), Ok(ConnectionStep::ReadMore)));
    assert_eq!(&buf[..], &[0u8, 0][..]);
}

fn header_for(api_key: ApiKey, correlation_id: i32) -> RequestHeader {
    RequestHeader { api_key, api_version: 0, correlation_id, client_id: String::from("c") }
}

#[test]
fn replies_follow_the_api_key() {
    let r = respond(&header_for(ApiKey::ApiVersions, 2), 1).expect("a reply");
    assert_eq!(&r[..], &api_versions_response(2)[..]);
    let r = respond(&header_for(ApiKey::Metadata, 3), 4).expect("a reply");
    assert_eq!(&r[..], &metadata_response(&header_for(ApiKey::Metadata, 3), 4)[..]);
    assert!(respond(&header_for(ApiKey::Produce, 5), 1).is_none());
    let r = respond(&header_for(ApiKey::Fetch, 6), 1).expect("a reply");
    assert_eq!(&r[..], &[0u8, 0, 0, 6, 0, 0, 0, 6, 0, 1][..]);
    let r = respond(&header_for(ApiKey::Unknown, 7), 1).expect("a reply");
    assert_eq!(&r[..], &empty_error_response(7)[..]);
}

#[test]
fn produce_replies_follow_the_append() {
    let h = header_for(ApiKey::Produce, 8);
    let ok: Result<Vec<i64>, StorageError> = Ok(vec![12, 13]);
    let r = produce_reply(&h, "test-topic", 0, &ok);
    assert_eq!(&r[..], &produce_response(&h, "test-topic", 0, 12)[..]);
    let failed: Result<Vec<i64>, StorageError> = Err(StorageError::InvalidRecord);
    let r = produce_reply(&h, "test-topic", 0, &failed);
    assert_eq!(&r[..], &empty_error_response(8)[..]);
}

#[test]
fn a_stream_of_requests_is_served_in_order() {
    let keys = [18i16, 3, 0, 1];
    let mut bytes = Vec::new();
    for (i, key) in keys.iter().enumerate() {
        let body = vec![7u8; i * 3];
        bytes.extend_from_slice(&request_with_body(*key, 100 + i as i32, b"svc", &body));
    }
    let mut conn = Connection::new();
    let mut buf = BytesMut::from(&bytes[..]);
    let mut seen = Vec::new();
    let mut step = conn.on_read(bytes.len(), &mut buf).unwrap();
    while let ConnectionStep::Request(h) = step {
        seen.push((h.api_key, h.correlation_id));
        step = conn.next_request(&mut buf).unwrap();
    }
    assert!(matches!(step, ConnectionStep::ReadMore));
    assert_eq!(
        seen,
        vec![(ApiKey::ApiVersions, 100), (ApiKey::Metadata, 101), (ApiKey::Produce, 102), (ApiKey::Fetch, 103)]
    );
    assert_eq!(buf.len(), 0);
}
