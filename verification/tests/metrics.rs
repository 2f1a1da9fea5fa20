use blaster::metrics::{MetricsCollector, UNTRACKED_LATENCY_NS};

#[test]
fn new_collector_reports_zeros() {
    let metrics = MetricsCollector::new();
    assert_eq!(metrics.count(), 0);
    assert_eq!(metrics.total_bytes(), 0);
    assert_eq!(metrics.min_ns(), 0);
    assert_eq!(metrics.max_ns(), 0);
    assert_eq!(metrics.p50_ns(), 0);
    assert_eq!(metrics.p90_ns(), 0);
    assert_eq!(metrics.p99_ns(), 0);
    assert_eq!(metrics.mean_bits(), 0);
    assert_eq!(MetricsCollector::default().count(), 0);
}

#[test]
fn percentiles_of_small_latencies_are_exact() {
    let mut metrics = MetricsCollector::new();
    for ns in 1..=1000 {
        metrics.record_latency_ns(ns);
    }
    assert_eq!(metrics.count(), 1000);
    assert_eq!(metrics.min_ns(), 1);
    assert_eq!(metrics.p50_ns(), 500);
    assert_eq!(metrics.p90_ns(), 900);
    assert_eq!(metrics.p99_ns(), 990);
    assert_eq!(metrics.max_ns(), 1000);
    assert_eq!(f64::from_bits(metrics.mean_bits()), 500.5);
}

#[test]
fn large_latencies_are_reported_by_the_top_of_their_slot() {
    let mut metrics = MetricsCollector::new();
    metrics.record_latency_ns(5_000);
    // slots are four wide from 4096 on
    assert_eq!(metrics.min_ns(), 5_000);
    assert_eq!(metrics.max_ns(), 5_003);
    assert_eq!(metrics.p50_ns(), 5_003);
    let mut odd = MetricsCollector::new();
    odd.record_latency_ns(5_001);
    assert_eq!(odd.min_ns(), 5_000);
    assert_eq!(odd.max_ns(), 5_003);
}

#[test]
fn slots_are_a_thousandth_wide_at_most() {
    for ns in [1u64, 2_047, 2_048, 4_095, 123_456_789, 59_999_999_999, 68_719_476_735] {
        let mut metrics = MetricsCollector::new();
        metrics.record_latency_ns(ns);
        assert_eq!(metrics.count(), 1);
        assert!(metrics.min_ns() <= ns && ns <= metrics.max_ns());
        assert!((metrics.max_ns() - metrics.min_ns()) * 1000 <= ns);
    }
}

#[test]
fn recording_a_floor_again_counts_in_the_same_slot() {
    let mut metrics = MetricsCollector::new();
    metrics.record_latency_ns(5_001);
    metrics.record_latency_ns(metrics.min_ns());
    assert_eq!(metrics.count(), 2);
    assert_eq!(metrics.min_ns(), 5_000);
    assert_eq!(metrics.max_ns(), 5_003);
}

#[test]
fn untracked_latencies_are_left_out() {
    let mut metrics = MetricsCollector::new();
    metrics.record_latency_ns(UNTRACKED_LATENCY_NS);
    metrics.record_latency_ns(u64::MAX);
    assert_eq!(metrics.count(), 0);
    metrics.record_latency_ns(UNTRACKED_LATENCY_NS - 1);
    assert_eq!(metrics.count(), 1);
    assert_eq!(metrics.max_ns(), UNTRACKED_LATENCY_NS - 1);
}

#[test]
fn zero_latency_counts() {
    let mut metrics = MetricsCollector::new();
    metrics.record_latency_ns(0);
    assert_eq!(metrics.count(), 1);
    assert_eq!(metrics.min_ns(), 0);
    assert_eq!(metrics.max_ns(), 0);
}

#[test]
fn latency_recorded_many_times_is_all_there_is() {
    let mut metrics = MetricsCollector::new();
    metrics.record_latency_times(777, 10);
    assert_eq!(metrics.count(), 10);
    assert_eq!(metrics.min_ns(), 777);
    assert_eq!(metrics.p99_ns(), 777);
    metrics.record_latency_times(1, 0);
    assert_eq!(metrics.count(), 10);
}

#[test]
fn reported_latencies_ascend() {
    let mut metrics = MetricsCollector::new();
    let mut ns: u64 = 1;
    for _ in 0..500 {
        ns = ns.wrapping_mul(6364136223846793005).wrapping_add(1442695040888963407) % 60_000_000_000;
        metrics.record_latency_ns(ns);
        assert!(metrics.min_ns() <= metrics.p50_ns());
        assert!(metrics.p50_ns() <= metrics.p90_ns());
        assert!(metrics.p90_ns() <= metrics.p99_ns());
        assert!(metrics.p99_ns() <= metrics.max_ns());
    }
}

#[test]
fn bytes_add_up() {
    let mut metrics = MetricsCollector::new();
    metrics.add_bytes(5);
    metrics.add_bytes(7);
    assert_eq!(metrics.total_bytes(), 12);
    assert_eq!(metrics.count(), 0);
}

#[test]
fn percentile_of_a_hundred_latencies_is_not_one_too_high() {
    let mut metrics = MetricsCollector::new();
    for ns in 1..=100 {
        metrics.record_latency_ns(ns);
    }
    assert_eq!(metrics.p50_ns(), 50);
    assert_eq!(metrics.p90_ns(), 90);
    assert_eq!(metrics.p99_ns(), 99);
    assert_eq!(metrics.max_ns(), 100);
}
