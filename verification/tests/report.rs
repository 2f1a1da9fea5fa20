use blaster::messages::ArrivalEntry;
use blaster::report::{first_arrival, report_entries, tally_arrivals, ArrivalTally, FirstArrival};
use blaster::tracker::{ArrivalRecord, ArrivalTracker, Transport};

fn entry(grpc: u64, quic: u64, tcp: u64) -> ArrivalEntry {
    ArrivalEntry {
        sequence_id: 0,
        grpc_arrival_ns: grpc,
        quic_arrival_ns: quic,
        tcp_arrival_ns: tcp,
        payload_size: 1,
    }
}

#[test]
fn record_is_reported_with_zero_for_no_arrival() {
    let record = ArrivalRecord {
        grpc_arrival_ns: Some(5),
        quic_arrival_ns: None,
        tcp_arrival_ns: Some(7),
        payload_size: 11,
    };
    assert_eq!(
        report_entries(&vec![(3, record)]),
        vec![ArrivalEntry {
            sequence_id: 3,
            grpc_arrival_ns: 5,
            quic_arrival_ns: 0,
            tcp_arrival_ns: 7,
            payload_size: 11,
        }]
    );
    assert_eq!(report_entries(&vec![]), vec![]);
}

#[test]
fn earliest_transport_wins() {
    assert_eq!(first_arrival(&entry(1, 2, 3)), FirstArrival::Winner(Transport::Grpc));
    assert_eq!(first_arrival(&entry(3, 2, 4)), FirstArrival::Winner(Transport::Quic));
    assert_eq!(first_arrival(&entry(3, 2, 1)), FirstArrival::Winner(Transport::Tcp));
}

#[test]
fn absent_transport_never_wins() {
    assert_eq!(first_arrival(&entry(0, 2, 3)), FirstArrival::Winner(Transport::Quic));
    assert_eq!(first_arrival(&entry(9, 0, 0)), FirstArrival::Winner(Transport::Grpc));
    assert_eq!(first_arrival(&entry(0, 0, 3)), FirstArrival::Winner(Transport::Tcp));
    assert_eq!(first_arrival(&entry(0, 0, 0)), FirstArrival::Nobody);
}

#[test]
fn equal_earliest_moments_are_a_tie() {
    assert_eq!(first_arrival(&entry(2, 2, 3)), FirstArrival::Tie);
    assert_eq!(first_arrival(&entry(2, 2, 2)), FirstArrival::Tie);
    assert_eq!(first_arrival(&entry(0, 2, 2)), FirstArrival::Tie);
    assert_eq!(first_arrival(&entry(2, 3, 3)), FirstArrival::Winner(Transport::Grpc));
}

#[test]
fn tally_counts_each_packet_once_in_any_order() {
    let mut entries = vec![
        entry(1, 2, 3),
        entry(1, 0, 0),
        entry(5, 4, 6),
        entry(5, 5, 6),
        entry(9, 8, 7),
        entry(0, 0, 0),
    ];
    let tally = tally_arrivals(&entries);
    assert_eq!(tally, ArrivalTally { grpc_first: 2, quic_first: 1, tcp_first: 1, ties: 1 });
    entries.reverse();
    assert_eq!(tally_arrivals(&entries), tally);
    assert_eq!(
        tally_arrivals(&vec![]),
        ArrivalTally { grpc_first: 0, quic_first: 0, tcp_first: 0, ties: 0 }
    );
}

#[test]
fn report_shows_each_packet_once() {
    let mut tracker = ArrivalTracker::new();
    for id in 0..10 {
        tracker.record_at(Transport::Grpc, id, 1, 100 + id);
        tracker.record_at(Transport::Tcp, id, 1, 105);
    }
    let mut entries = report_entries(&tracker.arrivals());
    entries.sort_by_key(|e| e.sequence_id);
    assert_eq!(entries.len(), 10);
    for (i, e) in entries.iter().enumerate() {
        assert_eq!(e.sequence_id, i as u64);
        assert_eq!(e.grpc_arrival_ns, 100 + i as u64);
        assert_eq!(e.quic_arrival_ns, 0);
    }
    assert_eq!(
        tally_arrivals(&entries),
        ArrivalTally { grpc_first: 5, quic_first: 0, tcp_first: 4, ties: 1 }
    );
}
