use blaster::client::tcp_packet;
use blaster::frame::{frame_message, FrameReader, TruncatedMessage};
use blaster::serde_metrics::SerdeMetrics;
use blaster::tracker::{AcceptError, ArrivalTracker};
use blaster::wire::WireError;

fn frames(packets: &[(u64, usize)]) -> Vec<u8> {
    let mut metrics = SerdeMetrics::new();
    let mut stream = Vec::new();
    for (id, size) in packets {
        match tcp_packet(*id, vec![5; *size], &mut metrics) {
            Ok(frame) => stream.extend(frame),
            Err(e) => panic!("{:?}", e),
        }
    }
    stream
}

fn serve(stream: &[u8], tracker: &mut ArrivalTracker) -> (FrameReader, Result<(), AcceptError>) {
    let mut reader = FrameReader::new();
    let mut rest = stream;
    while rest.len() >= reader.wanted() {
        let (chunk, tail) = rest.split_at(reader.wanted());
        rest = tail;
        if let Err(e) = reader.take_in(chunk.to_vec(), tracker) {
            return (reader, Err(e));
        }
    }
    (reader, Ok(()))
}

fn sizes(tracker: &ArrivalTracker) -> Vec<(u64, u32)> {
    let mut sizes: Vec<(u64, u32)> =
        tracker.arrivals().iter().map(|a| (a.0, a.1.payload_size)).collect();
    sizes.sort();
    sizes
}

#[test]
fn connection_records_what_was_sent() {
    let mut tracker = ArrivalTracker::new();
    let stream = frames(&[(3, 10), (7, 600_000), (1, 0), (3, 99)]);
    let (reader, done) = serve(&stream, &mut tracker);
    assert_eq!(done, Ok(()));
    assert_eq!(reader.at_end(), Ok(()));
    assert_eq!(tracker.tcp_decode_stats().count, 4);
    // the second packet under number 3 leaves the size that was announced first
    assert_eq!(sizes(&tracker), vec![(1, 0), (3, 10), (7, 600_000)]);
    assert!(tracker.arrivals().iter().all(|a| a.1.tcp_arrival_ns.is_some()
        && a.1.grpc_arrival_ns.is_none()
        && a.1.quic_arrival_ns.is_none()));
}

#[test]
fn cut_connection_records_what_came_before() {
    let whole = frames(&[(1, 10), (2, 20)]).len();
    let stream = frames(&[(1, 10), (2, 20), (3, 30)]);
    for end in whole..stream.len() {
        let mut tracker = ArrivalTracker::new();
        let (reader, done) = serve(&stream[..end], &mut tracker);
        assert_eq!(done, Ok(()));
        assert_eq!(sizes(&tracker), vec![(1, 10), (2, 20)]);
        assert_eq!(tracker.tcp_decode_stats().count, 2);
        if end < whole + 4 {
            assert_eq!(reader.at_end(), Ok(()));
        } else {
            assert_eq!(reader.at_end(), Err(TruncatedMessage { expected: 51 }));
        }
    }
}

#[test]
fn refused_message_ends_the_records() {
    let mut stream = frames(&[(1, 10)]);
    stream.extend(frame_message(vec![9; 21]));
    stream.extend(frames(&[(2, 20)]));
    let mut tracker = ArrivalTracker::new();
    let (_, done) = serve(&stream, &mut tracker);
    assert_eq!(done, Err(AcceptError::Wire(WireError::InvalidHeader { flag: 9 })));
    assert_eq!(sizes(&tracker), vec![(1, 10)]);
    assert_eq!(tracker.tcp_decode_stats().count, 1);
}
