use blaster::clock::ClockBeforeEpoch;
use blaster::messages::BlastPacket;
use blaster::tracker::{acknowledge, answer, AcceptError, ArrivalRecord, ArrivalTracker, Transport};
use blaster::wire::{encode_packet, WireError};

fn only(tracker: &ArrivalTracker) -> (u64, ArrivalRecord) {
    let arrivals = tracker.arrivals();
    assert_eq!(arrivals.len(), 1);
    arrivals[0]
}

#[test]
fn new_tracker_has_no_arrivals() {
    let tracker = ArrivalTracker::new();
    assert_eq!(tracker.arrivals(), vec![]);
    assert_eq!(tracker.quic_decode_stats().count, 0);
    assert_eq!(tracker.tcp_decode_stats().count, 0);
}

#[test]
fn first_arrival_makes_a_record() {
    let mut tracker = ArrivalTracker::new();
    tracker.record_at(Transport::Quic, 4, 100, 55);
    assert_eq!(
        only(&tracker),
        (
            4,
            ArrivalRecord {
                grpc_arrival_ns: None,
                quic_arrival_ns: Some(55),
                tcp_arrival_ns: None,
                payload_size: 100,
            }
        )
    );
}

#[test]
fn first_announced_size_stays() {
    let mut tracker = ArrivalTracker::new();
    tracker.record_at(Transport::Grpc, 4, 100, 55);
    tracker.record_at(Transport::Tcp, 4, 200, 66);
    let (_, record) = only(&tracker);
    assert_eq!(record.payload_size, 100);
    assert_eq!(record.grpc_arrival_ns, Some(55));
    assert_eq!(record.quic_arrival_ns, None);
    assert_eq!(record.tcp_arrival_ns, Some(66));
}

#[test]
fn later_arrival_replaces_earlier() {
    let mut tracker = ArrivalTracker::new();
    tracker.record_at(Transport::Grpc, 4, 100, 55);
    tracker.record_at(Transport::Grpc, 4, 100, 44);
    assert_eq!(only(&tracker).1.grpc_arrival_ns, Some(44));
}

#[test]
fn arrivals_over_different_transports_commute() {
    let mut a = ArrivalTracker::new();
    a.record_at(Transport::Grpc, 4, 100, 55);
    a.record_at(Transport::Quic, 4, 100, 66);
    let mut b = ArrivalTracker::new();
    b.record_at(Transport::Quic, 4, 100, 66);
    b.record_at(Transport::Grpc, 4, 100, 55);
    assert_eq!(only(&a), only(&b));
}

#[test]
fn arrival_touches_no_other_packet() {
    let mut tracker = ArrivalTracker::new();
    tracker.record_at(Transport::Grpc, 1, 10, 5);
    tracker.record_at(Transport::Grpc, 2, 20, 6);
    let mut arrivals = tracker.arrivals();
    arrivals.sort_by_key(|a| a.0);
    assert_eq!(arrivals.len(), 2);
    assert_eq!(arrivals[0].1.grpc_arrival_ns, Some(5));
    assert_eq!(arrivals[0].1.payload_size, 10);
    assert_eq!(arrivals[1].1.grpc_arrival_ns, Some(6));
    assert_eq!(arrivals[1].1.payload_size, 20);
}

#[test]
fn every_packet_on_record_has_arrived() {
    let mut tracker = ArrivalTracker::new();
    for i in 0..50u64 {
        let transport = match i % 3 {
            0 => Transport::Grpc,
            1 => Transport::Quic,
            _ => Transport::Tcp,
        };
        tracker.record_at(transport, i / 2, 1, i);
    }
    let arrivals = tracker.arrivals();
    assert_eq!(arrivals.len(), 25);
    for (_, r) in arrivals {
        assert!(
            r.grpc_arrival_ns.is_some() || r.quic_arrival_ns.is_some() || r.tcp_arrival_ns.is_some()
        );
    }
}

#[test]
fn recording_now_takes_the_clock() {
    let mut tracker = ArrivalTracker::new();
    assert_eq!(tracker.record(Transport::Tcp, 9, 1), Ok(()));
    match only(&tracker).1.tcp_arrival_ns {
        Some(ns) => assert!(ns > 1_577_836_800_000_000_000),
        None => panic!("no arrival"),
    }
}

#[test]
fn clear_forgets_arrivals_but_not_timings() {
    let mut tracker = ArrivalTracker::new();
    assert_eq!(tracker.accept_quic(&encode_packet(1, 2, vec![3])), Ok(()));
    tracker.clear();
    assert_eq!(tracker.arrivals(), vec![]);
    assert_eq!(tracker.quic_decode_stats().count, 1);
}

#[test]
fn sent_packet_is_recorded_under_its_number_and_size() {
    let mut tracker = ArrivalTracker::new();
    assert_eq!(tracker.accept_quic(&encode_packet(31, 2, vec![0; 600_000])), Ok(()));
    let (id, record) = only(&tracker);
    assert_eq!(id, 31);
    assert_eq!(record.payload_size, 600_000);
    assert!(record.quic_arrival_ns.is_some());
    assert_eq!(tracker.quic_decode_stats().count, 1);
    assert_eq!(tracker.accept_tcp(&encode_packet(31, 2, vec![])), Ok(()));
    assert_eq!(only(&tracker).1.payload_size, 600_000);
    assert_eq!(tracker.tcp_decode_stats().count, 1);
}

#[test]
fn message_that_is_no_packet_changes_nothing() {
    let mut tracker = ArrivalTracker::new();
    assert_eq!(
        tracker.accept_quic(&[1, 2]),
        Err(AcceptError::Wire(WireError::TooSmall { len: 2 }))
    );
    assert_eq!(
        tracker.accept_tcp(&[9; 21]),
        Err(AcceptError::Wire(WireError::InvalidHeader { flag: 9 }))
    );
    assert_eq!(tracker.arrivals(), vec![]);
    assert_eq!(tracker.quic_decode_stats().count, 0);
    assert_eq!(tracker.tcp_decode_stats().count, 0);
}

#[test]
fn grpc_packet_is_recorded_and_acknowledged() {
    let mut tracker = ArrivalTracker::new();
    let packet = BlastPacket { sequence_id: 8, timestamp_ns: 1, payload_size: 3, payload: vec![1, 2, 3] };
    assert_eq!(acknowledge(&packet, 99).sequence_id, 8);
    assert_eq!(acknowledge(&packet, 99).received_at_ns, 99);
    match tracker.accept_grpc(&packet) {
        Ok(ack) => {
            assert_eq!(ack.sequence_id, 8);
            let (id, record) = only(&tracker);
            assert_eq!(id, 8);
            assert_eq!(record.payload_size, 3);
            assert!(record.grpc_arrival_ns.is_some());
            assert!(ack.received_at_ns > 1_577_836_800_000_000_000);
        }
        Err(e) => panic!("{:?}", e),
    }
}

#[test]
fn reading_decides_whether_an_arrival_is_recorded() {
    let mut tracker = ArrivalTracker::new();
    assert_eq!(
        tracker.record_reading(Transport::Quic, 4, 100, Err(ClockBeforeEpoch)),
        Err(ClockBeforeEpoch)
    );
    assert_eq!(tracker.arrivals(), vec![]);
    assert_eq!(tracker.record_reading(Transport::Quic, 4, 100, Ok(55)), Ok(()));
    assert_eq!(only(&tracker).1.quic_arrival_ns, Some(55));
}

#[test]
fn reading_decides_whether_a_packet_is_answered() {
    let packet = BlastPacket { sequence_id: 8, timestamp_ns: 1, payload_size: 0, payload: vec![] };
    assert_eq!(answer(&packet, Ok(99)), Ok(acknowledge(&packet, 99)));
    assert_eq!(answer(&packet, Err(ClockBeforeEpoch)), Err(ClockBeforeEpoch));
}
