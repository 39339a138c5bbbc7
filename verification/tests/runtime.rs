use std::time::{SystemTime, UNIX_EPOCH};

use probe_agent::buffer::{append_backup_frame, parse_backup_frames, ShipTracker, TelemetryBuffer};
use probe_agent::cold_start::{ColdStartDetector, ColdStartFlag, FreezeThawDetector};
use probe_agent::collectors::CollectionFrequency;
use probe_agent::compress::{compress_data, compress_string, decompress_data, decompress_to_string, is_compression_beneficial};
use probe_agent::frame::MetricEntry;
use probe_agent::persistence::{
    decode_binary_with_crc, encode_binary_with_crc, encode_compressed_binary,
    load_compressed_binary, ExtensionState, StatePersistence,
};
use probe_agent::pool::MemoryPool;
use probe_agent::processor::{
    run_chain, EnrichProcessor, FilterField, FilterProcessor, Processor, TelemetryBatch,
    TelemetryEvent,
};
use probe_agent::scheduler::CollectorRegistry;
use probe_agent::transport::{delivered, next_retry_delay, FileTransport, HttpTransport, RetryConfig};
use probe_agent::value::Value;

fn now_ms() -> u64 {
    SystemTime::now()
        .duration_since(UNIX_EPOCH)
        .unwrap()
        .as_millis() as u64
}

#[test]
fn test_compress_decompress() {
    let original =
        b"This is a test string that should compress well because it has repeated patterns.";

    let compressed = compress_data(original, 6).unwrap();
    let decompressed = decompress_data(&compressed).unwrap();

    assert_eq!(original.to_vec(), decompressed);

    // Test with different compression levels
    let compressed_max = compress_data(original, 9).unwrap();
    let decompressed_max = decompress_data(&compressed_max).unwrap();

    assert_eq!(original.to_vec(), decompressed_max);
    assert!(
        compressed_max.len() <= compressed.len(),
        "Best compression should result in smaller or equal size"
    );
}

#[test]
fn test_string_compression() {
    let original = "This is a string test with Unicode characters: こんにちは, 你好, مرحبا";

    let compressed = compress_string(original, 6).unwrap();
    let decompressed = decompress_to_string(&compressed).unwrap();

    assert_eq!(original, decompressed);
}

#[test]
fn compression_benefit_threshold() {
    assert!(is_compression_beneficial(&[0u8; 100], &[0u8; 89]));
    assert!(!is_compression_beneficial(&[0u8; 100], &[0u8; 90]));
    assert!(!is_compression_beneficial(&[], &[]));
}

#[test]
fn mod_test_cold_start_detection() {
    let mut flag = ColdStartFlag::new();
    assert!(flag.is_cold_start(), "First call should be a cold start");
    assert!(!flag.is_cold_start(), "Second call should not be a cold start");

    flag.reset_cold_start();
    assert!(flag.is_cold_start(), "After reset should be a cold start");
}

#[test]
fn freeze_thaw_test_freeze_thaw_detection() {
    let mut detector = FreezeThawDetector::new(100);

    // Should not be frozen initially
    assert!(!detector.was_frozen());

    // Manipulate the last activity time to simulate a freeze
    detector.record_activity_at(now_ms() - 200);

    // Now should detect freeze
    assert!(detector.was_frozen());

    // Should not detect freeze again immediately
    assert!(!detector.was_frozen());
}

#[test]
fn mod_test_freeze_thaw_detection() {
    let mut detector = FreezeThawDetector::new(100);
    assert!(!detector.was_frozen());
    detector.record_activity_at(now_ms() - 200);
    assert!(detector.was_frozen());
    assert!(!detector.was_frozen());
}

#[test]
fn freeze_threshold_boundary() {
    // activity at t=0; a check at threshold+1 trips exactly once
    let mut detector = FreezeThawDetector::new_at(500, 0);
    assert!(!detector.was_frozen_at(500));
    assert!(detector.was_frozen_at(501 + 500));
    assert!(!detector.was_frozen_at(501 + 500));
}

#[test]
fn cold_or_frozen_detector() {
    let mut d = ColdStartDetector::new(1000);
    assert!(d.is_cold_or_frozen_at(10_000), "first invocation is cold");
    assert!(!d.is_cold_or_frozen_at(10_500));
    assert!(d.is_cold_or_frozen_at(12_000), "a long gap counts as frozen");
    d.reset();
    assert!(d.is_cold_or_frozen_at(12_100));
}

fn metric(id: &str) -> MetricEntry {
    MetricEntry {
        request_id: id.to_string(),
        timestamp_ms: 1,
        memory_mb_bits: 0,
        cpu_scaled: 0,
        duration_ms: 0,
        extras: vec![],
    }
}

#[test]
fn buffer_flush_threshold_and_eviction() {
    let mut buffer = TelemetryBuffer::new(3, 4);
    assert!(!buffer.add_metric(metric("a")));
    assert!(!buffer.add_metric(metric("b")));
    assert!(buffer.add_metric(metric("c")), "reaching the batch size asks for a flush");
    assert!(buffer.add_metric(metric("d")));
    // over capacity the oldest is evicted
    assert!(buffer.add_metric(metric("e")));
    assert_eq!(buffer.len(), 4);
    assert_eq!(buffer.get_metrics_count(), 5);
    let drained = buffer.flush();
    assert_eq!(drained.len(), 4);
    assert_eq!(drained[0].request_id, "b");
    assert_eq!(drained[3].request_id, "e");
    assert_eq!(buffer.len(), 0);
}

#[test]
fn scratch_file_grows_then_empties() {
    let mut tracker = ShipTracker::new();
    let frames: Vec<Vec<u8>> = (0..4).map(|i| vec![i as u8; 10 + i]).collect();

    // three failed sends spill three frames
    tracker.on_send(frames[0].clone(), false);
    tracker.on_send(frames[1].clone(), false);
    tracker.on_send(frames[2].clone(), false);
    assert_eq!(tracker.scratch.len(), 3);
    assert!(tracker.has_backup());

    // the scratch image grows by exactly one backup frame per spill
    let mut image = Vec::new();
    append_backup_frame(&mut image, &frames[0]);
    let after_one = image.len();
    append_backup_frame(&mut image, &frames[1]);
    append_backup_frame(&mut image, &frames[2]);
    assert_eq!(after_one, 4 + frames[0].len());
    assert_eq!(
        image.len(),
        3 * 4 + frames[0].len() + frames[1].len() + frames[2].len()
    );
    let parsed = parse_backup_frames(&image).unwrap();
    assert_eq!(parsed, vec![frames[0].clone(), frames[1].clone(), frames[2].clone()]);

    // on the next success the spilled frames ship first, in order
    while tracker.has_backup() {
        assert!(tracker.replay_oldest(true));
    }
    tracker.on_send(frames[3].clone(), true);
    assert_eq!(tracker.scratch.len(), 0);
    assert_eq!(tracker.delivered, frames);
}

#[test]
fn backup_parse_rejects_bad_length() {
    let mut image = Vec::new();
    append_backup_frame(&mut image, &[1, 2, 3]);
    image.extend_from_slice(&[200u8, 0, 0, 0, 1]);
    assert!(parse_backup_frames(&image).is_err());
}

#[test]
fn persistence_save_load_and_backup_recovery() {
    let mut store = StatePersistence::new();
    assert!(store.load().is_none());

    store.save(b"state-v1");
    assert_eq!(store.load().unwrap(), b"state-v1");

    store.save(b"state-v2");
    assert_eq!(store.load().unwrap(), b"state-v2");

    // corrupt the primary: the last saved state that still verifies is
    // the shadow copy of the previous save
    if let Some(p) = &mut store.primary {
        p[0] = p[0].wrapping_add(1);
    }
    assert_eq!(store.load().unwrap(), b"state-v1");
    // the recovered image was re-promoted
    assert_eq!(store.load().unwrap(), b"state-v1");

    store.clear();
    assert!(store.load().is_none());
}

#[test]
fn scheduler_groups_tick_independently() {
    let mut reg = CollectorRegistry::new();
    let a = reg
        .register("one-second".to_string(), CollectionFrequency::Interval(1000), true, 4)
        .unwrap();
    let b = reg
        .register("five-seconds".to_string(), CollectionFrequency::Interval(5000), true, 4)
        .unwrap();
    reg.initialize_all(&vec![true, true]);
    reg.add_group(1000, vec![a]);
    reg.add_group(5000, vec![b]);

    // after ten simulated seconds the fast group ticked ten times and
    // the slow one twice
    reg.advance_group(0, 10_000);
    reg.advance_group(1, 10_000);
    assert_eq!(reg.groups[0].ticks, 10);
    assert_eq!(reg.groups[1].ticks, 2);

    // a stalled fast group does not hold the slow group back
    reg.advance_group(1, 20_000);
    assert_eq!(reg.groups[0].ticks, 10);
    assert_eq!(reg.groups[1].ticks, 4);
}

#[test]
fn scheduler_shutdown_stops_collection() {
    let mut reg = CollectorRegistry::new();
    let a = reg
        .register("cpu".to_string(), CollectionFrequency::Interval(1000), true, 4)
        .unwrap();
    reg.add_group(1000, vec![a]);
    reg.advance_group(0, 3_000);
    assert_eq!(reg.groups[0].ticks, 3);
    assert_eq!(reg.due_members(0), vec![a]);

    reg.shutdown();
    assert!(reg.due_members(0).is_empty(), "no collect call begins after shutdown");
    reg.advance_group(0, 60_000);
    assert_eq!(reg.groups[0].ticks, 3, "the clock does not advance after shutdown");
}

#[test]
fn scheduler_registration_and_triggers() {
    let mut reg = CollectorRegistry::new();
    reg.register("cpu".to_string(), CollectionFrequency::OnDemand, true, 2)
        .unwrap();
    assert!(reg.register("cpu".to_string(), CollectionFrequency::OnDemand, true, 2).is_err());

    assert!(reg.trigger_on_demand("cpu").is_ok());
    assert!(reg.trigger_on_demand("cpu").is_ok());
    // the bounded channel drops the third trigger
    assert!(reg.trigger_on_demand("cpu").is_err());
    assert_eq!(reg.dropped_triggers, 1);
    assert!(reg.trigger_on_demand("unknown").is_err());

    // a failed initialization removes the collector from collection
    let mut reg2 = CollectorRegistry::new();
    let a = reg2
        .register("ok".to_string(), CollectionFrequency::Interval(1000), true, 1)
        .unwrap();
    let b = reg2
        .register("broken".to_string(), CollectionFrequency::Interval(1000), true, 1)
        .unwrap();
    reg2.initialize_all(&vec![true, false]);
    reg2.add_group(1000, vec![a, b]);
    assert_eq!(reg2.due_members(0), vec![a]);
}

#[test]
fn retry_delay_jitter_applied_before_cap() {
    let config = RetryConfig {
        max_retries: 3,
        initial_delay_ms: 100,
        max_delay_ms: 5000,
        backoff_factor_permille: 2000,
    };
    // plain doubling under the cap
    assert_eq!(next_retry_delay(100, &config, 1000), 200);
    // jitter shrinks the scaled delay below the cap, so no clamping
    assert_eq!(next_retry_delay(3000, &config, 800), 4800);
    // jitter above one, then the cap clamps
    assert_eq!(next_retry_delay(4000, &config, 1200), 5000);
}

#[test]
fn transport_builders_keep_their_settings() {
    let http = HttpTransport::new("primary", "https://collector.example/v1")
        .with_method("PUT")
        .with_compression(true);
    assert_eq!(http.method, "PUT");
    assert!(http.compression);
    assert_eq!(http.retry_config.max_retries, 3);

    let file = FileTransport::new("archive", "/tmp/telemetry")
        .with_prefix("batch")
        .with_extension("bin")
        .with_max_file_size(1000)
        .with_rotation_interval(60_000)
        .with_max_files(3)
        .with_compression(true);
    assert_eq!(file.prefix, "batch");
    assert_eq!(file.extension, "bin");
    assert!(file.should_rotate(1000, 0));
    assert!(file.should_rotate(0, 60_000));
    assert!(!file.should_rotate(999, 59_999));
    assert_eq!(file.files_to_delete(5), 2);
    assert_eq!(file.files_to_delete(3), 0);
}

#[test]
fn value_f64_bits_round_trip() {
    let x = 2.718281828459045f64;
    let v = Value::F64Bits(x.to_bits());
    let decoded = Value::decode(&v.serialize()).unwrap().0;
    match decoded {
        Value::F64Bits(bits) => assert_eq!(f64::from_bits(bits), x),
        _ => panic!("expected float bits"),
    }
}

#[test]
fn pool_allocates_until_exhausted() {
    let mut pool = MemoryPool::new(1024);
    let a = pool.allocate(10).unwrap();
    assert_eq!((a.offset(), a.size()), (0, 16));
    let b = pool.allocate(16).unwrap();
    assert_eq!((b.offset(), b.size()), (16, 16));
    assert!(pool.allocate(1024).is_err(), "exhaustion is a clean error");
    assert_eq!(pool.usage(), (32, 32));
    pool.reset();
    assert_eq!(pool.usage(), (0, 32));
    let c = pool.allocate(1024).unwrap();
    assert_eq!(c.offset(), 0);
}

#[test]
fn filter_keeps_admitted_events_in_order() {
    let event = |id: &str, source: &str| TelemetryEvent {
        id: id.to_string(),
        timestamp: 1,
        source: source.to_string(),
        resource_id: None,
        resource_name: None,
        name: "metric".to_string(),
        event_type: "gauge".to_string(),
        data: Value::Null,
        metadata: None,
    };
    let mut batch = TelemetryBatch {
        id: "b1".to_string(),
        timestamp: 2,
        source: "agent".to_string(),
        events: vec![
            event("e1", "cpu"),
            event("e2", "disk"),
            event("e3", "cpu"),
            event("e4", "net"),
        ],
        metadata: vec![],
    };
    let chain = vec![
        Processor::Filter(FilterProcessor::new(FilterField::Source, vec!["cpu".to_string(), "net".to_string()])),
        Processor::Enrich(EnrichProcessor::new(vec![("region".to_string(), "eu-west-1".to_string())])),
    ];
    run_chain(&chain, &mut batch);
    let ids: Vec<&str> = batch.events.iter().map(|e| e.id.as_str()).collect();
    assert_eq!(ids, vec!["e1", "e3", "e4"]);
    assert_eq!(batch.metadata.len(), 1);
    assert_eq!(batch.metadata[0].0, "region");
}

#[test]
fn fan_out_delivery_needs_one_success() {
    assert!(delivered(&vec![false, true, false]));
    assert!(!delivered(&vec![false, false]));
    assert!(!delivered(&vec![]));
}

#[test]
fn extension_state_counts_and_round_trips() {
    let mut state = ExtensionState::new();
    state.record_invocation(1_000, true);
    state.record_invocation(2_000, false);
    state.record_shutdown(3_000);
    assert_eq!(state.invocation_count, 2);
    assert_eq!(state.cold_start_count, 1);
    assert_eq!(state.last_invocation_ms, 2_000);
    assert_eq!(state.last_shutdown_ms, 3_000);
    let restored = ExtensionState::from_bytes(&state.to_bytes()).unwrap();
    assert_eq!(restored, state);
    assert!(ExtensionState::from_bytes(&[0u8; 31]).is_err());
}

#[test]
fn checked_binary_layout_round_trips() {
    let data = b"binary state payload with some repetition repetition repetition";
    let image = encode_binary_with_crc(data);
    assert_eq!(decode_binary_with_crc(&image).unwrap(), data);
    let mut corrupted = image.clone();
    corrupted[10] = corrupted[10].wrapping_add(1);
    assert!(decode_binary_with_crc(&corrupted).is_err());

    let packed = encode_compressed_binary(data, 6).unwrap();
    assert_eq!(load_compressed_binary(&packed).unwrap(), data);
}

#[test]
fn registry_collect_entry_points() {
    let mut reg = CollectorRegistry::new();
    let a = reg
        .register("cpu".to_string(), CollectionFrequency::PerInvocation, true, 1)
        .unwrap();
    let b = reg
        .register("mem".to_string(), CollectionFrequency::PerInvocation, false, 1)
        .unwrap();
    assert_eq!(reg.collect_all(), vec![a]);
    assert_eq!(reg.collect_from("cpu").unwrap(), a);
    assert!(reg.collect_from("mem").is_err(), "a disabled collector does not run");
    assert!(reg.collect_from("missing").is_err());
    let _ = b;
    reg.shutdown();
    assert!(reg.collect_all().is_empty());
    assert!(reg.collect_from("cpu").is_err());
}
