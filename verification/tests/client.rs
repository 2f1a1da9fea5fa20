use blaster::client::{
    count_payload_bytes, frame_packet, grpc_packet, grpc_packet_now, grpc_packet_stamped,
    quic_result, sent_metrics, tcp_packet, tcp_result, warmup_packet, AckCollector,
};
use blaster::clock::ClockBeforeEpoch;
use blaster::frame::FrameReader;
use blaster::messages::BlastAck;
use blaster::serde_metrics::SerdeMetrics;
use blaster::wire::decode_packet;

fn ack(received_at_ns: u64) -> BlastAck {
    BlastAck { sequence_id: 0, received_at_ns }
}

#[test]
fn payload_bytes_add_up() {
    assert_eq!(count_payload_bytes(&vec![]), Some(0));
    assert_eq!(count_payload_bytes(&vec![(0, vec![1; 3]), (1, vec![]), (2, vec![1; 4])]), Some(7));
}

#[test]
fn time_is_spread_evenly_over_the_packets() {
    let metrics = sent_metrics(4, 4096, 4_003);
    assert_eq!(metrics.count(), 4);
    assert_eq!(metrics.total_bytes(), 4096);
    assert_eq!(metrics.min_ns(), 1_000);
    assert_eq!(metrics.max_ns(), 1_000);
    assert_eq!(metrics.p50_ns(), 1_000);
}

#[test]
fn no_packets_give_no_latencies() {
    let metrics = sent_metrics(0, 0, 1_000_000);
    assert_eq!(metrics.count(), 0);
    assert_eq!(metrics.p99_ns(), 0);
}

#[test]
fn elapsed_time_is_cut_to_64_bits() {
    let metrics = sent_metrics(1, 0, (1u128 << 64) + 50);
    assert_eq!(metrics.max_ns(), 50);
}

#[test]
fn packet_beyond_the_tracked_time_is_not_counted() {
    assert_eq!(sent_metrics(2, 9, 2 * 0x10_0000_0000).count(), 0);
    assert_eq!(sent_metrics(2, 9, 2 * 0x10_0000_0000 - 2).count(), 2);
}

#[test]
fn results_carry_what_was_measured() {
    let mut encode = SerdeMetrics::new();
    encode.record(3);
    let quic = quic_result(2, 20, 200, 1, 7, encode);
    assert_eq!(quic.metrics.count(), 2);
    assert_eq!(quic.metrics.total_bytes(), 20);
    assert_eq!(quic.elapsed_ns, 200);
    assert_eq!(quic.lost_packets, 1);
    assert_eq!(quic.sent_packets, 7);
    assert_eq!(quic.encode_metrics.stats().max_ns, 3);
    let tcp = tcp_result(3, 30, 330, SerdeMetrics::new());
    assert_eq!(tcp.metrics.count(), 3);
    assert_eq!(tcp.metrics.max_ns(), 110);
    assert_eq!(tcp.elapsed_ns, 330);
    assert_eq!(tcp.encode_metrics.stats().count, 0);
}

#[test]
fn grpc_packet_carries_the_payload() {
    let packet = grpc_packet(5, vec![1, 2], 9);
    assert_eq!(packet.sequence_id, 5);
    assert_eq!(packet.timestamp_ns, 9);
    assert_eq!(packet.payload_size, 2);
    assert_eq!(packet.payload, vec![1, 2]);
    match grpc_packet_now(5, vec![1, 2, 3]) {
        Ok(packet) => {
            assert_eq!(packet.payload_size, 3);
            assert!(packet.timestamp_ns > 1_577_836_800_000_000_000);
        }
        Err(e) => panic!("{:?}", e),
    }
}

#[test]
fn collector_waits_for_every_acknowledgement() {
    let mut collector = AckCollector::new(3);
    assert!(!collector.acknowledge_at(&ack(100), 150));
    assert!(!collector.acknowledge_at(&ack(100), 160));
    assert!(collector.acknowledge_at(&ack(100), 170));
    let result = collector.finish(12, 34);
    assert_eq!(result.metrics.count(), 3);
    assert_eq!(result.metrics.min_ns(), 50);
    assert_eq!(result.metrics.p50_ns(), 60);
    assert_eq!(result.metrics.max_ns(), 70);
    assert_eq!(result.metrics.total_bytes(), 12);
    assert_eq!(result.elapsed_ns, 34);
}

#[test]
fn acknowledgement_from_the_future_counts_as_zero() {
    let mut collector = AckCollector::new(1);
    assert!(collector.acknowledge_at(&ack(200), 100));
    assert_eq!(collector.finish(0, 0).metrics.max_ns(), 0);
}

#[test]
fn collector_without_packets_takes_one_acknowledgement() {
    let mut collector = AckCollector::new(0);
    assert_eq!(collector.acknowledge(&ack(1)), Ok(true));
}

#[test]
fn tcp_stream_carries_the_packets() {
    let mut metrics = SerdeMetrics::new();
    let mut stream = Vec::new();
    for id in 0..5u64 {
        match tcp_packet(id, vec![id as u8; id as usize], &mut metrics) {
            Ok(frame) => stream.extend(frame),
            Err(e) => panic!("{:?}", e),
        }
    }
    assert_eq!(metrics.stats().count, 5);
    let mut reader = FrameReader::new();
    let mut rest = &stream[..];
    let mut next = 0u64;
    while rest.len() >= reader.wanted() {
        let (chunk, tail) = rest.split_at(reader.wanted());
        rest = tail;
        if let Some(message) = reader.feed(chunk.to_vec()) {
            match decode_packet(&message) {
                Ok(packet) => {
                    assert_eq!(packet.sequence_id, next);
                    assert_eq!(packet.payload, vec![next as u8; next as usize]);
                }
                Err(e) => panic!("{:?}", e),
            }
            next += 1;
        }
    }
    assert_eq!(next, 5);
    assert_eq!(reader.at_end(), Ok(()));
}

#[test]
fn warm_up_sends_one_zero_byte() {
    match warmup_packet() {
        Ok(bytes) => match decode_packet(&bytes) {
            Ok(packet) => {
                assert_eq!(packet.sequence_id, u64::MAX);
                assert_eq!(packet.payload, vec![0]);
            }
            Err(e) => panic!("{:?}", e),
        },
        Err(e) => panic!("{:?}", e),
    }
}

#[test]
fn reading_decides_whether_a_grpc_packet_comes() {
    match grpc_packet_stamped(5, vec![1, 2], Ok(9)) {
        Ok(packet) => {
            assert_eq!(packet.timestamp_ns, 9);
            assert_eq!(packet.payload, vec![1, 2]);
        }
        Err(e) => panic!("{:?}", e),
    }
    assert!(matches!(grpc_packet_stamped(5, vec![], Err(ClockBeforeEpoch)), Err(ClockBeforeEpoch)));
}

#[test]
fn reading_decides_whether_an_acknowledgement_counts() {
    let mut collector = AckCollector::new(1);
    assert_eq!(
        collector.acknowledge_reading(&ack(1), Err(ClockBeforeEpoch)),
        Err(ClockBeforeEpoch)
    );
    assert_eq!(collector.acknowledge_reading(&ack(1), Ok(31)), Ok(true));
    let metrics = collector.finish(0, 0).metrics;
    assert_eq!(metrics.count(), 1);
    assert_eq!(metrics.max_ns(), 30);
}

#[test]
fn packet_is_framed_where_there_is_one() {
    assert_eq!(frame_packet(Ok(vec![7])), Ok(vec![1, 0, 0, 0, 7]));
    assert_eq!(frame_packet(Err(ClockBeforeEpoch)), Err(ClockBeforeEpoch));
}
