use pulsemq::storage::{
    encode_record, partition_dir_name, segment_index_file_name, segment_log_file_name,
    storage_engine_name, LogSegment, PartitionLog, Record, StorageConfig, StorageEngine,
    StorageError,
};

fn record(key: Option<&[u8]>, value: &[u8], timestamp: i64) -> Record {
    Record { key: key.map(|k| k.to_vec()), value: value.to_vec(), timestamp }
}

#[test]
fn default_config() {
    let c = StorageConfig::default();
    assert_eq!(c.data_dir, "./data");
    assert_eq!(c.segment_max_bytes, 1024 * 1024 * 1024);
    assert_eq!(c.index_interval_bytes, 4096);
}

#[test]
fn engine_name() {
    assert_eq!(storage_engine_name(), "PulseMQ Storage Engine v0.1");
}

#[test]
fn record_layout_with_key() {
    let buf = encode_record(5, &record(Some(b"k1"), b"abc", 0x0102));
    let expected: Vec<u8> = vec![
        0, 0, 0, 0, 0, 0, 0, 5, // offset
        0, 0, 0, 0, 0, 0, 1, 2, // timestamp
        0, 0, 0, 2, b'k', b'1', // key
        0, 0, 0, 3, b'a', b'b', b'c', // value
    ];
    assert_eq!(&buf[..], &expected[..]);
}

#[test]
fn record_layout_without_key() {
    let buf = encode_record(-1, &record(None, b"", -2));
    let expected: Vec<u8> = vec![
        0xff, 0xff, 0xff, 0xff, 0xff, 0xff, 0xff, 0xff, // offset -1
        0xff, 0xff, 0xff, 0xff, 0xff, 0xff, 0xff, 0xfe, // timestamp -2
        0xff, 0xff, 0xff, 0xff, // no key
        0, 0, 0, 0, // empty value
    ];
    assert_eq!(&buf[..], &expected[..]);
}

#[test]
fn segment_file_names() {
    assert_eq!(segment_log_file_name(0), "00000000000000000000.log");
    assert_eq!(segment_index_file_name(0), "00000000000000000000.index");
    assert_eq!(segment_log_file_name(17384), "00000000000000017384.log");
    assert_eq!(segment_log_file_name(-5), "-0000000000000000005.log");
    assert_eq!(segment_log_file_name(i64::MAX), format!("{:020}.log", i64::MAX));
    assert_eq!(segment_log_file_name(i64::MIN), format!("{:020}.log", i64::MIN));
    for v in [1i64, 9, 10, 99, 100, 123456789, -10, -999] {
        assert_eq!(segment_log_file_name(v), format!("{:020}.log", v));
        assert_eq!(segment_index_file_name(v), format!("{:020}.index", v));
    }
}

#[test]
fn partition_directory_names() {
    assert_eq!(partition_dir_name("orders", 3), "orders-3");
    assert_eq!(partition_dir_name("test-topic", 0), "test-topic-0");
    assert_eq!(partition_dir_name("t", -12), "t--12");
    assert_eq!(partition_dir_name("t", i32::MIN), format!("t-{}", i32::MIN));
    assert_eq!(partition_dir_name("", 1234567890), "-1234567890");
}

#[test]
fn offsets_are_consecutive() {
    let mut seg = LogSegment::create(100, 4096);
    assert_eq!(seg.next_offset(), 100);
    assert_eq!(seg.base_offset(), 100);
    for i in 0..5i64 {
        let r = record(None, b"v", i);
        let p = seg.begin_append(&r);
        assert_eq!(p.offset, 100 + i);
        assert_eq!(&p.record_bytes[..], &encode_record(100 + i, &r)[..]);
        assert_eq!(p.record_size, 25);
        assert_eq!(p.size_prefix, [0, 0, 0, 25]);
        assert!(seg.record_written(&p).is_none());
    }
    assert_eq!(seg.next_offset(), 105);
    assert_eq!(seg.size_bytes(), 5 * 29);
}

#[test]
fn offsets_wrap_at_the_end_of_the_range() {
    let mut seg = LogSegment::create(i64::MAX, 4096);
    let p = seg.begin_append(&record(None, b"", 0));
    assert_eq!(p.offset, i64::MAX);
    assert_eq!(seg.next_offset(), i64::MIN);
}

#[test]
fn sparse_index_entry_every_interval() {
    // Each entry is 4 + 24 + 2 = 30 bytes; an index entry is due once 64 bytes accumulated.
    let mut seg = LogSegment::create(10, 64);
    let r = record(None, b"ab", 0);
    let p0 = seg.begin_append(&r);
    assert!(seg.record_written(&p0).is_none());
    let p1 = seg.begin_append(&r);
    assert!(seg.record_written(&p1).is_none());
    assert_eq!(seg.size_bytes(), 60);
    let p2 = seg.begin_append(&r);
    let entry = seg.record_written(&p2).expect("index entry due");
    // relative offset 2, position 60
    assert_eq!(entry, [0, 0, 0, 2, 0, 0, 0, 60]);
    assert_eq!(seg.size_bytes(), 60);
    seg.index_written(&p2);
    assert_eq!(seg.size_bytes(), 90);
    let p3 = seg.begin_append(&r);
    assert!(seg.record_written(&p3).is_none());
    assert_eq!(seg.size_bytes(), 120);
}

#[test]
fn zero_interval_indexes_every_record() {
    let mut seg = LogSegment::create(0, 0);
    let r = record(Some(b"k"), b"", 0);
    for i in 0..3u8 {
        let p = seg.begin_append(&r);
        let entry = seg.record_written(&p).expect("index entry due");
        assert_eq!(entry, [0, 0, 0, i, 0, 0, 0, 29 * i]);
        seg.index_written(&p);
    }
    assert_eq!(seg.size_bytes(), 87);
}

#[test]
fn partition_log_starts_empty() {
    let config = StorageConfig::default();
    let log = PartitionLog::open("orders", 2, &config);
    assert_eq!(log.topic(), "orders");
    assert_eq!(log.partition(), 2);
    assert_eq!(log.dir_name(), "orders-2");
    assert_eq!(log.log_end_offset(), 0);
    assert_eq!(log.active_segment().base_offset(), 0);
}

#[test]
fn partition_log_appends() {
    let config = StorageConfig { data_dir: "d".to_string(), segment_max_bytes: 1, index_interval_bytes: 1 };
    let mut log = PartitionLog::open("t", 0, &config);
    let p = log.begin_append(&record(None, b"x", 9));
    assert_eq!(p.offset, 0);
    let entry = log.record_written(&p).expect("index entry due");
    assert_eq!(entry, [0; 8]);
    log.index_written(&p);
    assert_eq!(log.log_end_offset(), 1);
    assert_eq!(log.active_segment().size_bytes(), 29);
}

#[test]
fn engine_opens_each_partition_once() {
    let mut engine = StorageEngine::new(StorageConfig::default());
    assert_eq!(engine.config().index_interval_bytes, 4096);
    assert_eq!(engine.partition_index("a", 0), None);
    assert!(matches!(engine.log_end_offset("a", 0), Ok(0)));
    match engine.append_target("a", 0) {
        Err(StorageError::PartitionNotFound(t, p)) => {
            assert_eq!(t, "a");
            assert_eq!(p, 0);
        }
        other => panic!("unexpected {:?}", other),
    }
    let a0 = { let log = PartitionLog::open("a", 0, engine.config()); engine.add_partition(log) };
    let a1 = { let log = PartitionLog::open("a", 1, engine.config()); engine.add_partition(log) };
    let b0 = { let log = PartitionLog::open("b", 0, engine.config()); engine.add_partition(log) };
    assert_eq!((a0, a1, b0), (0, 1, 2));
    assert_eq!(engine.partition_index("a", 1), Some(1));
    assert_eq!(engine.partition_index("b", 0), Some(2));
    assert_eq!(engine.partition_index("b", 1), None);
    assert!(matches!(engine.append_target("b", 0), Ok(2)));
    assert_eq!(engine.partition_log(1).dir_name(), "a-1");
}

#[test]
fn engine_appends_stay_in_their_partition() {
    let mut engine = StorageEngine::new(StorageConfig::default());
    let a = { let log = PartitionLog::open("a", 0, engine.config()); engine.add_partition(log) };
    let b = { let log = PartitionLog::open("b", 0, engine.config()); engine.add_partition(log) };
    let r = record(None, b"hello", 1);
    for expected in 0..3 {
        let p = engine.begin_append(a, &r);
        assert_eq!(p.offset, expected);
        assert!(engine.record_written(a, &p).is_none());
    }
    let p = engine.begin_append(b, &r);
    assert_eq!(p.offset, 0);
    assert!(engine.record_written(b, &p).is_none());
    assert!(matches!(engine.log_end_offset("a", 0), Ok(3)));
    assert!(matches!(engine.log_end_offset("b", 0), Ok(1)));
    assert!(matches!(engine.log_end_offset("c", 0), Ok(0)));
}

#[test]
fn engine_index_entries() {
    let config = StorageConfig { data_dir: "d".to_string(), segment_max_bytes: 1, index_interval_bytes: 40 };
    let mut engine = StorageEngine::new(config);
    let a = { let log = PartitionLog::open("a", 0, engine.config()); engine.add_partition(log) };
    let r = record(None, b"hello", 1);
    let p = engine.begin_append(a, &r);
    assert!(engine.record_written(a, &p).is_none());
    let p = engine.begin_append(a, &r);
    let e = engine.record_written(a, &p).expect("index entry due");
    assert_eq!(e, [0, 0, 0, 1, 0, 0, 0, 33]);
    engine.index_written(a, &p);
    assert_eq!(engine.partition_log(a).active_segment().size_bytes(), 66);
}

#[test]
fn small_records_fit() {
    assert!(pulsemq::storage::encoded_len_fits(&record(Some(b"key"), b"value", 0)));
    assert!(pulsemq::storage::encoded_len_fits(&record(None, b"", 0)));
}

#[test]
fn bytes_since_index_restarts_after_an_index_entry() {
    let mut seg = LogSegment::create(0, 50);
    let r = record(None, b"", 0);
    let p = seg.begin_append(&r);
    assert!(seg.record_written(&p).is_none());
    assert_eq!(seg.bytes_since_index(), 28);
    let p = seg.begin_append(&r);
    assert!(seg.record_written(&p).is_some());
    assert_eq!(seg.bytes_since_index(), 56);
    seg.index_written(&p);
    assert_eq!(seg.bytes_since_index(), 0);
    assert_eq!(seg.size_bytes(), 56);
}

#[test]
fn every_record_is_indexed_when_the_interval_is_small() {
    let config = StorageConfig { data_dir: "d".to_string(), segment_max_bytes: 1, index_interval_bytes: 1 };
    let mut engine = StorageEngine::new(config);
    let a = { let log = PartitionLog::open("a", 0, engine.config()); engine.add_partition(log) };
    let r = record(None, b"hello", 1);
    let mut index_file = Vec::new();
    for _ in 0..3 {
        let p = engine.begin_append(a, &r);
        let e = engine.record_written(a, &p).expect("index entry due for every record");
        index_file.extend_from_slice(&e);
        engine.index_written(a, &p);
    }
    assert_eq!(
        index_file,
        vec![0, 0, 0, 0, 0, 0, 0, 0, 0, 0, 0, 1, 0, 0, 0, 33, 0, 0, 0, 2, 0, 0, 0, 66]
    );
    assert_eq!(engine.partition_log(a).active_segment().size_bytes(), 99);
}

#[test]
fn opening_a_partition_leaves_the_others() {
    let mut engine = StorageEngine::new(StorageConfig::default());
    let a = { let log = PartitionLog::open("a", 0, engine.config()); engine.add_partition(log) };
    let r = record(None, b"x", 0);
    for _ in 0..2 {
        let p = engine.begin_append(a, &r);
        assert!(engine.record_written(a, &p).is_none());
    }
    let b = { let log = PartitionLog::open("a", 1, engine.config()); engine.add_partition(log) };
    let p = engine.begin_append(b, &r);
    assert!(engine.record_written(b, &p).is_none());
    assert!(matches!(engine.log_end_offset("a", 0), Ok(2)));
    assert!(matches!(engine.log_end_offset("a", 1), Ok(1)));
}

#[test]
fn index_entries_of_a_segment_with_a_negative_base() {
    let mut seg = LogSegment::create(-2, 1);
    let r = record(None, b"hello", 1);
    let mut index_file = Vec::new();
    for expected in -2..1 {
        let p = seg.begin_append(&r);
        assert_eq!(p.offset, expected);
        let e = seg.record_written(&p).expect("index entry due for every record");
        index_file.extend_from_slice(&e);
        seg.index_written(&p);
    }
    assert_eq!(
        index_file,
        vec![0, 0, 0, 0, 0, 0, 0, 0, 0, 0, 0, 1, 0, 0, 0, 33, 0, 0, 0, 2, 0, 0, 0, 66]
    );
}
