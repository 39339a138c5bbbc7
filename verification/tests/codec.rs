use probe_agent::crc::{
    add_crc32_checksum, compute_crc32, validate_and_extract_data, validate_crc32,
    ErrorCorrectionCode,
};
use probe_agent::dictionary::FieldRegistry;
use probe_agent::fnv::fnv1a_64;
use probe_agent::frame::{request_id_bytes, serialize_metrics_binary, deserialize_metrics_binary, MetricEntry};
use probe_agent::record::CompactMetricsRecord;
use probe_agent::value::{Value, ValueType};

#[test]
fn test_crc32_computation() {
    let data = b"test data for CRC32";
    let crc = compute_crc32(data);

    assert_eq!(crc, compute_crc32(data));
    assert_ne!(crc, compute_crc32(b"different test data"));
}

#[test]
fn test_crc32_validation() {
    let data = b"test data for validation";
    let crc = compute_crc32(data);

    assert!(validate_crc32(data, crc));
    assert!(!validate_crc32(data, crc + 1));
}

#[test]
fn test_add_and_validate_checksum() {
    let original = b"test data with checksum";
    let with_checksum = add_crc32_checksum(original);

    // Result should be 4 bytes longer
    assert_eq!(with_checksum.len(), original.len() + 4);

    // Should validate correctly
    let extracted = validate_and_extract_data(&with_checksum).unwrap();
    assert_eq!(extracted, original);

    // Corrupting the data should fail validation
    let mut corrupted = with_checksum.clone();
    corrupted[0] = corrupted[0].wrapping_add(1);
    assert!(validate_and_extract_data(&corrupted).is_err());
}

#[test]
fn test_error_correction_code() {
    let data = b"test data for error correction code";
    let ecc = ErrorCorrectionCode::new(data);

    // Should validate original data
    assert!(ecc.validate(data));

    // Serialization/deserialization should work
    let serialized = ecc.serialize();
    let deserialized = ErrorCorrectionCode::deserialize(&serialized).unwrap();

    assert_eq!(deserialized.crc32, ecc.crc32);
    assert_eq!(deserialized.data_length, ecc.data_length);

    // Modified data should fail validation
    let mut modified = data.to_vec();
    modified[0] = modified[0].wrapping_add(1);
    assert!(!ecc.validate(&modified));
}

#[test]
fn fnv1a_matches_reference_vectors() {
    assert_eq!(fnv1a_64(b""), 0xcbf2_9ce4_8422_2325);
    assert_eq!(fnv1a_64(b"a"), 0xaf63_dc4c_8601_ec8c);
    assert_eq!(fnv1a_64(b"foobar"), 0x85944171f73967e8);
}

#[test]
fn value_round_trip_all_variants() {
    let values = vec![
        Value::Null,
        Value::Bool(true),
        Value::Bool(false),
        Value::Int(0),
        Value::Int(42),
        Value::Int(-42),
        Value::Int(123456789012345),
        Value::F32Bits((2.5f32).to_bits()),
        Value::F64Bits((3.14159f64).to_bits()),
        Value::Str("Hello, world!".to_string()),
        Value::Binary(vec![1, 2, 3, 4, 5]),
        Value::Timestamp(1_700_000_000, 123),
        Value::List(vec![Value::Int(1), Value::Int(2), Value::Int(3)]),
        Value::Mapping(vec![
            ("key1".to_string(), Value::Str("value1".to_string())),
            ("key2".to_string(), Value::Int(42)),
        ]),
    ];
    for v in values {
        let bytes = v.serialize();
        assert!(!bytes.is_empty());
        let (decoded, used) = Value::decode(&bytes).unwrap();
        assert_eq!(used, bytes.len());
        assert_eq!(decoded, v);
        // re-encoding the decoded value reproduces the bytes
        assert_eq!(decoded.serialize(), bytes);
    }
}

#[test]
fn integer_width_boundaries() {
    // 127 fits the one-byte form; 128 and -129 need two bytes
    assert_eq!(Value::Int(127).serialize(), vec![2u8, 127]);
    assert_eq!(Value::Int(128).serialize()[0], 3u8);
    assert_eq!(Value::Int(-129).serialize()[0], 3u8);
    assert_eq!(Value::Int(-128).serialize(), vec![2u8, 128]);
    assert_eq!(Value::Int(32768).serialize()[0], 4u8);
    assert_eq!(Value::Int(0x8000_0000).serialize()[0], 5u8);
}

#[test]
fn string_length_prefix_boundaries() {
    let s255 = "x".repeat(255);
    let s256 = "x".repeat(256);
    assert_eq!(Value::Str(s255.clone()).serialize()[0], 8u8);
    assert_eq!(Value::Str(s256.clone()).serialize()[0], 9u8);
    let rt = Value::decode(&Value::Str(s256).serialize()).unwrap().0;
    match rt {
        Value::Str(s) => assert_eq!(s.len(), 256),
        _ => panic!("expected a string"),
    }
}

#[test]
fn long_list_truncates_to_255() {
    let items: Vec<Value> = (0..256).map(|i| Value::Int(i % 100)).collect();
    let v = Value::List(items);
    let mut buf = Vec::new();
    let truncated = v.write_to(&mut buf);
    assert!(truncated);
    assert_eq!(buf[1], 255);
    let (decoded, _) = Value::decode(&buf).unwrap();
    match decoded {
        Value::List(items) => assert_eq!(items.len(), 255),
        _ => panic!("expected a list"),
    }
    // a 255-item list is not truncated
    let ok_items: Vec<Value> = (0..255).map(|i| Value::Int(i % 100)).collect();
    let mut buf2 = Vec::new();
    assert!(!Value::List(ok_items).write_to(&mut buf2));

    // the batch carries the truncation in its metadata
    let mut batch = probe_agent::processor::TelemetryBatch {
        id: "b".to_string(),
        timestamp: 0,
        source: "agent".to_string(),
        events: vec![],
        metadata: vec![],
    };
    probe_agent::processor::record_truncation(&mut batch);
    assert_eq!(batch.metadata.len(), 1);
    assert_eq!(batch.metadata[0].0, "truncated");
    assert_eq!(batch.metadata[0].1, Value::Bool(true));
}

#[test]
fn value_type_tags_round_trip() {
    for t in 1u8..=15 {
        assert_eq!(ValueType::from_tag(t).tag(), t);
    }
    assert_eq!(ValueType::from_tag(0).tag(), 0);
    assert_eq!(ValueType::from_tag(200).tag(), 0);
}

#[test]
fn dictionary_round_trip_preserves_ids() {
    let mut dict = FieldRegistry::new();
    let cpu = dict.register_and_get_id_for_field("cpu");
    let mem = dict.register_and_get_id_for_field("mem");
    let rt = dict.register_and_get_id_for_field("rt");
    assert_eq!((cpu, mem, rt), (10, 11, 12));
    // an already registered name keeps its id
    assert_eq!(dict.register_and_get_id_for_field("mem"), 11);

    let bytes = dict.serialize();
    let restored = FieldRegistry::deserialize(&bytes).unwrap();
    assert_eq!(restored.get_id("cpu"), dict.get_id("cpu"));
    assert_eq!(restored.get_id("mem"), dict.get_id("mem"));
    assert_eq!(restored.get_id("rt"), dict.get_id("rt"));
    assert_eq!(restored.get_id("timestamp"), 1);
    assert_eq!(restored.get_id("region"), 9);
    assert_eq!(restored.get_id("unregistered"), 0);
    assert_eq!(restored.get_field_for_id(10).unwrap(), "cpu");
}

#[test]
fn dictionary_rejects_wrong_version() {
    let mut dict = FieldRegistry::new();
    dict.register_and_get_id_for_field("cpu");
    let mut bytes = dict.serialize();
    bytes[0] = 9;
    assert!(FieldRegistry::deserialize(&bytes).is_err());
}

#[test]
fn record_bitpack_scenario() {
    let mut dict = FieldRegistry::new();
    let cpu = dict.register_and_get_id_for_field("cpu") as u16;
    let mem = dict.register_and_get_id_for_field("mem") as u16;
    let rt = dict.register_and_get_id_for_field("rt") as u16;

    let mut record = CompactMetricsRecord::new(fnv1a_64(b"req-1"), 1_700_000_000_000);
    record.add_bool_field(cpu, true);
    record.add_medium_int_field(mem, 250);
    record.add_large_int_field(rt, 1023);

    assert_eq!(record.bitpacked_data.len(), 1);
    assert_eq!(record.field_mapping.len(), 3);

    let bytes = record.serialize();
    let restored = CompactMetricsRecord::deserialize(&bytes).unwrap();
    assert_eq!(restored.get_bool_field(cpu), Some(true));
    assert_eq!(restored.get_medium_int_field(mem), Some(250));
    assert_eq!(restored.get_large_int_field(rt), Some(1023));
    assert_eq!(restored.request_id_hash, record.request_id_hash);
    assert_eq!(restored.timestamp, record.timestamp);
    assert_eq!(restored.bitpacked_data, record.bitpacked_data);
    assert_eq!(restored.field_mapping, record.field_mapping);
    // round trip of the round trip is bit-exact
    assert_eq!(restored.serialize(), bytes);
}

#[test]
fn allocate_full_block_starts_fresh() {
    let mut record = CompactMetricsRecord::new(1, 2);
    let (b0, o0) = record.allocate_bits(64);
    assert_eq!((b0, o0), (0, 0));
    let (b1, o1) = record.allocate_bits(64);
    assert_eq!((b1, o1), (1, 0));
    record.add_bool_field(7, true);
    let (b2, o2) = record.allocate_bits(64);
    assert_eq!(o2, 0);
    assert!(b2 > b1);
}

#[test]
fn record_deserialize_rejects_bad_mapping() {
    let record = CompactMetricsRecord::new(1, 2);
    let mut bytes = record.serialize();
    // claim one mapping entry pointing at a block that does not exist
    let len = bytes.len();
    bytes[len - 4] = 1;
    bytes.extend_from_slice(&[0, 0, 0, 0, 63]);
    assert!(CompactMetricsRecord::deserialize(&bytes).is_err());
}

fn entry(id: &str, extra_len: usize) -> MetricEntry {
    MetricEntry {
        request_id: id.to_string(),
        timestamp_ms: 1_700_000_000_000,
        memory_mb_bits: (128.5f32).to_bits(),
        cpu_scaled: 127,
        duration_ms: 42,
        extras: vec![("blob".to_string(), Value::Binary(vec![7u8; extra_len]))],
    }
}

#[test]
fn frame_compression_boundary() {
    let dict = FieldRegistry::new();
    // one metric head is 34 bytes; the extra adds 4 bytes of framing
    let not_compressed = serialize_metrics_binary(&vec![entry("a", 986)], &dict, 6, false);
    let flags = u32::from_le_bytes(not_compressed[12..16].try_into().unwrap());
    assert_eq!(flags & 1, 0);
    assert_eq!(not_compressed.len(), 16 + 1024);

    let compressed = serialize_metrics_binary(&vec![entry("a", 987)], &dict, 6, false);
    let flags = u32::from_le_bytes(compressed[12..16].try_into().unwrap());
    assert_eq!(flags & 1, 1);
    let usize_field = u32::from_le_bytes(compressed[16..20].try_into().unwrap());
    assert_eq!(usize_field, 1025);
    let (count, payload) = deserialize_metrics_binary(&compressed).unwrap();
    assert_eq!(count, 1);
    assert_eq!(payload.len(), 1025);
}

#[test]
fn frame_small_batch_with_crc() {
    let dict = FieldRegistry::new();
    let metrics = vec![entry("m1", 40), entry("m2", 40), entry("m3", 40)];
    let frame = serialize_metrics_binary(&metrics, &dict, 6, true);
    assert_eq!(&frame[0..4], b"PRBM");
    let count = u32::from_le_bytes(frame[8..12].try_into().unwrap());
    assert_eq!(count, 3);
    let flags = u32::from_le_bytes(frame[12..16].try_into().unwrap());
    assert_eq!(flags & 1, 0);
    assert_eq!(flags & 2, 2);
    let (count, payload) = deserialize_metrics_binary(&frame).unwrap();
    assert_eq!(count, 3);
    assert_eq!(payload.len(), 3 * (34 + 43));
}

#[test]
fn frame_large_batch_compresses() {
    let dict = FieldRegistry::new();
    let metrics: Vec<MetricEntry> = (0..50).map(|i| entry(&format!("req-{}", i), 40)).collect();
    let frame = serialize_metrics_binary(&metrics, &dict, 6, true);
    let flags = u32::from_le_bytes(frame[12..16].try_into().unwrap());
    assert_eq!(flags & 1, 1);
    let (count, payload) = deserialize_metrics_binary(&frame).unwrap();
    assert_eq!(count, 50);
    assert_eq!(payload.len(), 50 * (34 + 43));
}

#[test]
fn frame_flip_any_byte_fails_crc() {
    let dict = FieldRegistry::new();
    let frame = serialize_metrics_binary(&vec![entry("m1", 8)], &dict, 6, true);
    assert!(deserialize_metrics_binary(&frame).is_ok());
    for i in 0..frame.len() {
        let mut corrupted = frame.clone();
        corrupted[i] = corrupted[i].wrapping_add(1);
        assert!(
            deserialize_metrics_binary(&corrupted).is_err(),
            "flipping byte {} must be detected",
            i
        );
    }
}

#[test]
fn request_id_bytes_uuid_and_hash() {
    let uuid = request_id_bytes("0102030            4-0506-0708-090a-0b0c0d0e0f10");
    // malformed uuid falls back to the hash form
    assert_eq!(uuid.len(), 16);
    let parsed = request_id_bytes("01020304-0506-0708-090a-0b0c0d0e0f10");
    assert_eq!(
        parsed,
        vec![1, 2, 3, 4, 5, 6, 7, 8, 9, 10, 11, 12, 13, 14, 15, 16]
    );
    let plain = request_id_bytes("0102030405060708090a0b0c0d0e0f10");
    assert_eq!(parsed, plain);
    let hashed = request_id_bytes("not-a-uuid");
    assert_eq!(&hashed[0..8], &fnv1a_64(b"not-a-uuid").to_le_bytes());
    assert_eq!(&hashed[8..16], &[0u8; 8]);
}

#[test]
fn schema_validation() {
    let mut schema = probe_agent::dictionary::Schema::new();
    schema.add_field("name".to_string(), "string".to_string(), true);
    schema.add_field("count".to_string(), "number".to_string(), false);
    schema.add_field("extra".to_string(), "any".to_string(), false);

    let good = Value::Mapping(vec![
        ("name".to_string(), Value::Str("cpu".to_string())),
        ("count".to_string(), Value::Int(3)),
        ("extra".to_string(), Value::Bool(true)),
    ]);
    assert!(schema.validate(&good).is_ok());

    let not_an_object = Value::Int(1);
    assert!(schema.validate(&not_an_object).is_err());

    let missing_required = Value::Mapping(vec![("count".to_string(), Value::Int(3))]);
    assert!(schema.validate(&missing_required).is_err());

    let wrong_kind = Value::Mapping(vec![
        ("name".to_string(), Value::Int(5)),
        ("count".to_string(), Value::Int(3)),
    ]);
    assert!(schema.validate(&wrong_kind).is_err());

    let dict = FieldRegistry::new();
    let derived = dict.create_schema();
    assert_eq!(derived.fields.len(), 9);
    assert!(derived.validate(&Value::Mapping(vec![])).is_ok());
}
