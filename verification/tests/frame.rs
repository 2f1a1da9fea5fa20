use blaster::frame::{frame_message, FrameReader, TruncatedMessage, LENGTH_SIZE};
use blaster::tracker::{AcceptError, ArrivalTracker};
use blaster::wire::{encode_packet, WireError};

fn read_all(stream: &[u8]) -> (Vec<Vec<u8>>, FrameReader) {
    let mut reader = FrameReader::new();
    let mut rest = stream;
    let mut messages = Vec::new();
    while rest.len() >= reader.wanted() {
        let (chunk, tail) = rest.split_at(reader.wanted());
        if let Some(message) = reader.feed(chunk.to_vec()) {
            messages.push(message);
        }
        rest = tail;
        if rest.is_empty() && reader == FrameReader::Length {
            break;
        }
    }
    (messages, reader)
}

#[test]
fn frame_puts_the_length_first() {
    assert_eq!(frame_message(vec![7, 8]), vec![2, 0, 0, 0, 7, 8]);
    assert_eq!(frame_message(Vec::new()), vec![0, 0, 0, 0]);
    assert_eq!(frame_message(vec![1; 300])[..5], [44, 1, 0, 0, 1]);
}

#[test]
fn reader_gets_what_was_framed() {
    let messages = vec![vec![1, 2, 3], vec![], vec![4; 70_000], vec![5]];
    let mut stream = Vec::new();
    for message in &messages {
        stream.extend(frame_message(message.clone()));
    }
    let (got, reader) = read_all(&stream);
    assert_eq!(got, messages);
    assert_eq!(reader.at_end(), Ok(()));
}

#[test]
fn stream_cut_inside_a_length_ends_cleanly() {
    let mut stream = frame_message(vec![1, 2, 3]);
    stream.extend([9, 0, 0]);
    let (got, reader) = read_all(&stream);
    assert_eq!(got, vec![vec![1, 2, 3]]);
    assert_eq!(reader, FrameReader::Length);
    assert_eq!(reader.wanted(), LENGTH_SIZE);
    assert_eq!(reader.at_end(), Ok(()));
}

#[test]
fn stream_cut_inside_a_message_is_truncated() {
    let mut stream = frame_message(vec![1]);
    stream.extend([9, 0, 0, 0, 1, 2]);
    let (got, reader) = read_all(&stream);
    assert_eq!(got, vec![vec![1]]);
    assert_eq!(reader, FrameReader::Body { len: 9 });
    assert_eq!(reader.at_end(), Err(TruncatedMessage { expected: 9 }));
}

#[test]
fn different_lists_have_different_streams() {
    let one = frame_message(vec![1, 2]);
    let mut two = frame_message(vec![1]);
    two.extend(frame_message(vec![2]));
    assert_ne!(one, two);
}

#[test]
fn longest_length_is_wanted_in_full() {
    let mut reader = FrameReader::new();
    assert!(reader.feed(vec![255, 255, 255, 255]).is_none());
    assert_eq!(reader.wanted(), 0xffff_ffff);
}

#[test]
fn message_read_off_tcp_is_recorded() {
    let mut tracker = ArrivalTracker::new();
    let mut reader = FrameReader::new();
    let frame = frame_message(encode_packet(12, 1, vec![0; 5]));
    assert_eq!(reader.take_in(frame[..4].to_vec(), &mut tracker), Ok(()));
    assert_eq!(tracker.arrivals().len(), 0);
    assert_eq!(reader.take_in(frame[4..].to_vec(), &mut tracker), Ok(()));
    assert_eq!(reader, FrameReader::Length);
    let arrivals = tracker.arrivals();
    assert_eq!(arrivals.len(), 1);
    assert_eq!(arrivals[0].0, 12);
    assert_eq!(arrivals[0].1.payload_size, 5);
    assert!(arrivals[0].1.tcp_arrival_ns.is_some());
    assert_eq!(tracker.tcp_decode_stats().count, 1);
    assert_eq!(tracker.quic_decode_stats().count, 0);
}

#[test]
fn message_that_is_no_packet_ends_the_connection() {
    let mut tracker = ArrivalTracker::new();
    let mut reader = FrameReader::Body { len: 3 };
    assert_eq!(
        reader.take_in(vec![1, 2, 3], &mut tracker),
        Err(AcceptError::Wire(WireError::TooSmall { len: 3 }))
    );
    assert_eq!(tracker.arrivals().len(), 0);
    assert_eq!(tracker.tcp_decode_stats().count, 0);
}
