use blaster::client::{quic_result, tcp_result, AckCollector};
use blaster::messages::{ArrivalEntry, BenchmarkReport, SerdeStatsProto};
use blaster::orchestrator::{
    job_payloads, proto_to_stats, BenchmarkConfig, BenchmarkRun, BlastJob, DecodeStats, RunStep,
    SizeTierResult,
};
use blaster::serde_metrics::SerdeMetrics;

fn config(sizes: Vec<(&'static str, usize)>, zero_rtt: bool) -> BenchmarkConfig {
    BenchmarkConfig {
        grpc_addr: String::from("127.0.0.1:1"),
        quic_addr: String::from("127.0.0.1:2"),
        tcp_addr: String::from("127.0.0.1:3"),
        sizes,
        packets_per_size: 6,
        quic_streams: 2,
        zero_rtt,
    }
}

fn blast(run: &mut BenchmarkRun) {
    run.sent(
        AckCollector::new(0).finish(1, 10),
        quic_result(1, 2, 20, 3, 4, SerdeMetrics::new()),
        tcp_result(1, 5, 30, SerdeMetrics::new()),
    );
}

fn report() -> BenchmarkReport {
    let entry = |g, q, t| ArrivalEntry {
        sequence_id: 0,
        grpc_arrival_ns: g,
        quic_arrival_ns: q,
        tcp_arrival_ns: t,
        payload_size: 1,
    };
    BenchmarkReport {
        arrivals: vec![entry(1, 2, 3), entry(2, 2, 3), entry(0, 2, 3), entry(4, 3, 1), entry(1, 0, 0)],
        quic_decode_stats: Some(SerdeStatsProto {
            count: 1,
            median_ns: 2,
            min_ns: 3,
            max_ns: 4,
            mean_bits: 5,
        }),
        tcp_decode_stats: None,
    }
}

fn run_through(config: BenchmarkConfig) -> (Vec<&'static str>, Vec<SizeTierResult>) {
    let mut run = BenchmarkRun::new(config);
    let mut steps = Vec::new();
    loop {
        match run.step() {
            RunStep::WarmUp => {
                steps.push("warm-up");
                run.warmed_up();
            }
            RunStep::Blast(job) => {
                assert_eq!(job.packets, 6);
                assert_eq!(job.quic_streams, 2);
                steps.push(job.size_name);
                blast(&mut run);
            }
            RunStep::FetchReport => {
                steps.push("report");
                run.reported(&report());
            }
            RunStep::Finished => return (steps, run.finish()),
        }
    }
}

#[test]
fn each_size_is_sent_and_reported_in_order() {
    let (steps, results) = run_through(config(vec![("1KB", 1_024), ("1MB", 1_048_576)], false));
    assert_eq!(steps, vec!["1KB", "report", "1MB", "report"]);
    assert_eq!(results.len(), 2);
    assert_eq!(results[0].size_name, "1KB");
    assert_eq!(results[0].size_bytes, 1_024);
    assert_eq!(results[1].size_name, "1MB");
    assert_eq!(results[1].size_bytes, 1_048_576);
}

#[test]
fn resuming_run_warms_up_first_and_once() {
    let (steps, _) = run_through(config(vec![("1KB", 1_024), ("10KB", 10_240)], true));
    assert_eq!(steps, vec!["warm-up", "1KB", "report", "10KB", "report"]);
}

#[test]
fn run_without_sizes_is_finished() {
    let (steps, results) = run_through(config(vec![], false));
    assert!(steps.is_empty());
    assert!(results.is_empty());
}

#[test]
fn job_says_whether_to_resume() {
    let run = BenchmarkRun::new(config(vec![("1KB", 1_024)], false));
    assert!(matches!(run.step(), RunStep::Blast(job) if !job.zero_rtt && job.size_bytes == 1_024));
    let mut resuming = BenchmarkRun::new(config(vec![("1KB", 1_024)], true));
    assert!(matches!(resuming.step(), RunStep::WarmUp));
    resuming.warmed_up();
    assert!(matches!(resuming.step(), RunStep::Blast(job) if job.zero_rtt));
}

#[test]
fn result_sums_up_measurements_and_report() {
    let (_, results) = run_through(config(vec![("1KB", 1_024)], false));
    let r = &results[0];
    assert_eq!(r.grpc.metrics.total_bytes(), 1);
    assert_eq!(r.quic.elapsed_ns, 20);
    assert_eq!(r.quic.lost_packets, 3);
    assert_eq!(r.tcp.metrics.total_bytes(), 5);
    assert_eq!(r.grpc_first_count, 2);
    assert_eq!(r.quic_first_count, 1);
    assert_eq!(r.tcp_first_count, 1);
    assert_eq!(r.tie_count, 1);
    assert_eq!(
        r.quic_decode_stats,
        Some(DecodeStats { count: 1, median_ns: 2, min_ns: 3, max_ns: 4, mean_bits: 5 })
    );
    assert_eq!(r.tcp_decode_stats, None);
}

#[test]
fn reported_stats_are_taken_over() {
    let proto = SerdeStatsProto { count: 9, median_ns: 8, min_ns: 7, max_ns: 6, mean_bits: 5 };
    assert_eq!(
        proto_to_stats(&proto),
        DecodeStats { count: 9, median_ns: 8, min_ns: 7, max_ns: 6, mean_bits: 5 }
    );
}

#[test]
fn all_transports_get_the_same_packets() {
    let job = BlastJob {
        size_name: "1KB",
        size_bytes: 1_024,
        packets: 3,
        quic_streams: 1,
        zero_rtt: false,
    };
    let (grpc, quic, tcp) = job_payloads(&job);
    assert_eq!(grpc.len(), 3);
    for (i, (id, payload)) in grpc.iter().enumerate() {
        assert_eq!(*id, i as u64);
        assert_eq!(payload.len(), 1_024);
    }
    assert_ne!(grpc[0].1, grpc[1].1);
    assert_eq!(grpc, quic);
    assert_eq!(grpc, tcp);
}
