use reflex_sim::telemetry::{ComputeTelemetry, TelemetrySample, WindowCollector};

fn sample(queue_depth: u64) -> TelemetrySample {
    TelemetrySample {
        timestamp_us: 0,
        queue_depth,
        enqueue_rate: 1000,
        dequeue_rate: 1000,
        latency_p50_us: 100,
        latency_p95_us: 200,
        bytes_in_per_sec: 1_000_000,
        bytes_out_per_sec: 1_000_000,
        packet_size_sum: 1024 * 10,
        packet_size_sq_sum: 1024 * 1024 * 10,
        rtt_ewma_us: 50,
    }
}

#[test]
fn test_window_collector() {
    let mut wc = WindowCollector::new(200_000, 100_000);
    wc.push(0, sample(10));
    assert!(wc.should_emit(0));
    let emitted = wc.emit(0).unwrap();
    assert_eq!(emitted.queue_depth, 10);
}

#[test]
fn window_collector_emits_once_per_step() {
    let mut wc = WindowCollector::new(200_000, 100_000);
    assert!(!wc.should_emit(0));
    assert_eq!(wc.emit(0), None);
    wc.push(10, sample(1));
    assert_eq!(wc.emit(10).map(|s| s.queue_depth), Some(1));
    wc.push(50_000, sample(2));
    assert!(!wc.should_emit(60_000));
    assert_eq!(wc.emit(60_000), None);
    assert!(wc.should_emit(110_010));
    assert_eq!(wc.emit(110_010).map(|s| s.queue_depth), Some(2));
}

#[test]
fn window_collector_evicts_old_samples() {
    let mut wc = WindowCollector::new(200_000, 1);
    wc.push(0, sample(1));
    wc.push(100_000, sample(2));
    wc.push(300_001, sample(3));
    assert_eq!(wc.emit(300_001).map(|s| s.queue_depth), Some(3));
}

#[test]
fn feature_names_follow_schema_order() {
    assert_eq!(TelemetrySample::feature_names()[0], "queue_depth");
    assert_eq!(TelemetrySample::feature_names()[9], "rtt_ewma_us");
    assert_eq!(ComputeTelemetry::feature_names()[5], "worker_util");
    assert_eq!(ComputeTelemetry::feature_names()[9], "idle_worker_count");
}
