use blaster::client::{quic_result, tcp_result, AckCollector};
use blaster::messages::BlastAck;
use blaster::orchestrator::{DecodeStats, SizeTierResult};
use blaster::serde_metrics::SerdeMetrics;
use blaster::summary::{leader, summarize, summarize_transport};
use blaster::tracker::Transport;

fn result(name: &str, grpc: u64, quic: u64, tcp: u64, ties: u64, lost: u64, sent: u64) -> SizeTierResult {
    let mut collector = AckCollector::new(2);
    collector.acknowledge_at(&BlastAck { sequence_id: 0, received_at_ns: 0 }, 100);
    collector.acknowledge_at(&BlastAck { sequence_id: 1, received_at_ns: 0 }, 300);
    let mut encode = SerdeMetrics::new();
    encode.record(11);
    SizeTierResult {
        size_name: String::from(name),
        size_bytes: 1,
        grpc: collector.finish(64, 1_000),
        quic: quic_result(4, 32, 400, lost, sent, encode),
        tcp: tcp_result(2, 16, 500, SerdeMetrics::new()),
        grpc_first_count: grpc,
        quic_first_count: quic,
        tcp_first_count: tcp,
        tie_count: ties,
        quic_decode_stats: None,
        tcp_decode_stats: Some(DecodeStats { count: 1, median_ns: 1, min_ns: 1, max_ns: 1, mean_bits: 1 }),
    }
}

#[test]
fn transport_with_most_firsts_leads() {
    assert_eq!(leader(&result("x", 3, 2, 1, 0, 0, 0)), Transport::Grpc);
    assert_eq!(leader(&result("x", 1, 2, 1, 9, 0, 0)), Transport::Quic);
    assert_eq!(leader(&result("x", 1, 2, 3, 0, 0, 0)), Transport::Tcp);
}

#[test]
fn last_listed_leads_among_equals() {
    assert_eq!(leader(&result("x", 2, 2, 1, 0, 0, 0)), Transport::Quic);
    assert_eq!(leader(&result("x", 2, 1, 2, 0, 0, 0)), Transport::Tcp);
    assert_eq!(leader(&result("x", 0, 0, 0, 0, 0, 0)), Transport::Tcp);
}

#[test]
fn transport_summary_shows_the_metrics() {
    let r = result("x", 0, 0, 0, 0, 0, 0);
    let shown = summarize_transport(&r.grpc.metrics, r.grpc.elapsed_ns);
    assert_eq!(shown.min_ns, 100);
    assert_eq!(shown.p50_ns, 100);
    assert_eq!(shown.p90_ns, 300);
    assert_eq!(shown.p99_ns, 300);
    assert_eq!(shown.max_ns, 300);
    assert_eq!(f64::from_bits(shown.mean_bits), 200.0);
    assert_eq!(shown.total_bytes, 64);
    assert_eq!(shown.elapsed_ns, 1_000);
}

#[test]
fn summary_shows_every_size_and_the_totals() {
    let shown = summarize(&vec![result("a", 5, 1, 1, 1, 2, 100), result("b", 0, 3, 0, 0, 1, 50)]);
    assert_eq!(shown.tiers.len(), 2);
    assert_eq!(shown.total_lost, 3);
    assert_eq!(shown.total_sent, 150);
    let a = &shown.tiers[0];
    assert_eq!(a.size_name, "a");
    assert_eq!(a.packets, 2);
    assert_eq!(a.winner, Transport::Grpc);
    assert_eq!(a.winner_count, 5);
    assert_eq!(a.decided, 8);
    assert!(3 * a.winner_count >= a.grpc_first + a.quic_first + a.tcp_first);
    assert_eq!((a.grpc_first, a.quic_first, a.tcp_first, a.ties), (5, 1, 1, 1));
    assert_eq!((a.lost_packets, a.sent_packets), (2, 100));
    assert_eq!(a.quic.max_ns, 100);
    assert_eq!(a.tcp.max_ns, 250);
    assert_eq!(a.quic_encode.median_ns, 11);
    assert_eq!(a.tcp_encode.count, 0);
    assert_eq!(a.quic_decode, None);
    assert!(a.tcp_decode.is_some());
    assert_eq!(shown.tiers[1].winner, Transport::Quic);
    assert!(a.grpc.min_ns <= a.grpc.p50_ns && a.grpc.p99_ns <= a.grpc.max_ns);
}

#[test]
fn empty_run_has_empty_summary() {
    let shown = summarize(&vec![]);
    assert!(shown.tiers.is_empty());
    assert_eq!(shown.total_lost, 0);
    assert_eq!(shown.total_sent, 0);
}

#[test]
fn totals_do_not_overflow() {
    let shown = summarize(&vec![
        result("a", u64::MAX, u64::MAX, 0, 1, u64::MAX, u64::MAX),
        result("b", 0, 0, 0, 0, u64::MAX, 1),
    ]);
    assert_eq!(shown.total_lost, 2 * (u64::MAX as u128));
    assert_eq!(shown.total_sent, 1 << 64);
    assert_eq!(shown.tiers[0].decided, 2 * (u64::MAX as u128) + 1);
}
