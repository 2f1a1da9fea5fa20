use blaster::clock::ClockBeforeEpoch;
use blaster::serde_metrics::SerdeMetrics;
use blaster::wire::{
    assemble_packet, decode_packet, deserialize_packet, encode_and_serialize, encode_packet,
    encode_stamped, low_u32, WireError, COMPRESSION_THRESHOLD, HEADER_SIZE, MAX_STREAM_SIZE,
};

#[test]
fn header_is_little_endian_and_payload_follows() {
    let bytes = encode_packet(0x0102030405060708, 0x1112131415161718, vec![9, 8, 7]);
    assert_eq!(
        bytes,
        vec![
            8, 7, 6, 5, 4, 3, 2, 1, 0x18, 0x17, 0x16, 0x15, 0x14, 0x13, 0x12, 0x11, 3, 0, 0, 0, 0,
            9, 8, 7
        ]
    );
}

#[test]
fn empty_payload_is_a_bare_header() {
    let bytes = encode_packet(1, 2, Vec::new());
    assert_eq!(bytes.len(), HEADER_SIZE);
    match decode_packet(&bytes) {
        Ok(packet) => {
            assert_eq!(packet.sequence_id, 1);
            assert_eq!(packet.timestamp_ns, 2);
            assert_eq!(packet.payload_size, 0);
            assert!(!packet.compressed);
            assert!(packet.payload.is_empty());
        }
        Err(e) => panic!("{:?}", e),
    }
}

#[test]
fn payload_below_the_threshold_travels_as_is() {
    let payload: Vec<u8> = (0..COMPRESSION_THRESHOLD - 1).map(|i| (i % 251) as u8).collect();
    let bytes = encode_packet(7, 8, payload.clone());
    assert_eq!(bytes.len(), HEADER_SIZE + payload.len());
    match decode_packet(&bytes) {
        Ok(packet) => {
            assert!(!packet.compressed);
            assert_eq!(packet.payload_size as usize, payload.len());
            assert!(packet.payload == payload);
        }
        Err(e) => panic!("{:?}", e),
    }
}

#[test]
fn payload_at_the_threshold_is_compressed_and_expands_again() {
    let payload: Vec<u8> = (0..COMPRESSION_THRESHOLD).map(|i| (i / 1000 % 256) as u8).collect();
    let bytes = encode_packet(7, 8, payload.clone());
    assert!(bytes.len() < payload.len());
    match decode_packet(&bytes) {
        Ok(packet) => {
            assert!(packet.compressed);
            assert_eq!(packet.payload_size as usize, payload.len());
            assert_eq!(packet.payload[..4], bytes[16..20]);
            match lz4_flex::block::decompress_size_prepended(&packet.payload) {
                Ok(plain) => assert!(plain == payload),
                Err(_) => panic!("does not expand"),
            }
        }
        Err(e) => panic!("{:?}", e),
    }
}

#[test]
fn incompressible_payload_grows_by_little() {
    let payload = blaster::datagen::generate_payload(1_048_576);
    let bytes = encode_packet(1, 1, payload.clone());
    assert!(bytes.len() <= HEADER_SIZE + 24 + payload.len() * 110 / 100);
    assert!(bytes.len() <= MAX_STREAM_SIZE);
    match decode_packet(&bytes) {
        Ok(packet) => match lz4_flex::block::decompress_size_prepended(&packet.payload) {
            Ok(plain) => assert!(plain == payload),
            Err(_) => panic!("does not expand"),
        },
        Err(e) => panic!("{:?}", e),
    }
}

#[test]
fn short_buffers_are_refused() {
    assert!(matches!(decode_packet(&[]), Err(WireError::TooSmall { len: 0 })));
    let bytes = encode_packet(1, 2, Vec::new());
    assert!(matches!(decode_packet(&bytes[..20]), Err(WireError::TooSmall { len: 20 })));
    assert!(decode_packet(&bytes).is_ok());
}

#[test]
fn flag_other_than_zero_or_one_is_refused() {
    let mut bytes = encode_packet(1, 2, vec![5]);
    bytes[20] = 1;
    assert!(matches!(decode_packet(&bytes), Ok(p) if p.compressed));
    bytes[20] = 2;
    assert!(matches!(decode_packet(&bytes), Err(WireError::InvalidHeader { flag: 2 })));
    bytes[20] = 255;
    assert!(matches!(decode_packet(&bytes), Err(WireError::InvalidHeader { flag: 255 })));
}

#[test]
fn decoded_fields_spell_the_bytes() {
    let bytes: Vec<u8> = vec![
        1, 0, 0, 0, 0, 0, 0, 128, 255, 255, 255, 255, 255, 255, 255, 255, 0, 1, 0, 2, 1, 42,
    ];
    match decode_packet(&bytes) {
        Ok(p) => {
            assert_eq!(p.sequence_id, 0x8000000000000001);
            assert_eq!(p.timestamp_ns, u64::MAX);
            assert_eq!(p.payload_size, 0x02000100);
            assert!(p.compressed);
            assert_eq!(p.payload, vec![42]);
            let again = assemble_packet(
                p.sequence_id,
                p.timestamp_ns,
                p.payload_size as usize,
                p.compressed,
                p.payload,
            );
            assert_eq!(again, bytes);
        }
        Err(e) => panic!("{:?}", e),
    }
}

#[test]
fn different_packets_have_different_bytes() {
    let base = encode_packet(1, 2, vec![3]);
    assert_ne!(base, encode_packet(2, 2, vec![3]));
    assert_ne!(base, encode_packet(1, 3, vec![3]));
    assert_ne!(base, encode_packet(1, 2, vec![4]));
    assert_ne!(base, encode_packet(1, 2, vec![3, 0]));
}

#[test]
fn encoding_now_is_timed_and_stamped() {
    let mut metrics = SerdeMetrics::new();
    match encode_and_serialize(77, vec![1, 2, 3], &mut metrics) {
        Ok(bytes) => {
            assert_eq!(metrics.stats().count, 1);
            match deserialize_packet(&bytes, &mut metrics) {
                Ok(packet) => {
                    assert_eq!(packet.sequence_id, 77);
                    assert_eq!(packet.payload, vec![1, 2, 3]);
                    // 2020-01-01 in nanoseconds
                    assert!(packet.timestamp_ns > 1_577_836_800_000_000_000);
                }
                Err(e) => panic!("{:?}", e),
            }
            assert_eq!(metrics.stats().count, 2);
        }
        Err(e) => panic!("{:?}", e),
    }
}

#[test]
fn failed_decoding_is_not_timed() {
    let mut metrics = SerdeMetrics::new();
    assert!(deserialize_packet(&[0; 20], &mut metrics).is_err());
    assert_eq!(metrics.stats().count, 0);
}

#[test]
fn low_u32_cuts_off_the_high_bits() {
    assert_eq!(low_u32(5), 5);
    assert_eq!(low_u32(0xffff_ffff), 0xffff_ffff);
    assert_eq!(low_u32(0x1_0000_0007), 7);
}

#[test]
fn reading_decides_whether_a_packet_is_encoded() {
    assert_eq!(encode_stamped(1, vec![2], Ok(3)), Ok(encode_packet(1, 3, vec![2])));
    assert_eq!(encode_stamped(1, vec![2], Err(ClockBeforeEpoch)), Err(ClockBeforeEpoch));
}

#[test]
fn errors_are_told_in_words() {
    let mut metrics = SerdeMetrics::new();
    match deserialize_packet(&[0; 20], &mut metrics) {
        Ok(_) => panic!("no packet"),
        Err(e) => assert_eq!(e.message(), "wire buffer too small: 20 < 21"),
    }
    assert_eq!(metrics.stats().count, 0);
    assert_eq!(WireError::TooSmall { len: 0 }.message(), "wire buffer too small: 0 < 21");
    let mut bytes = [0u8; 21];
    assert!(decode_packet(&bytes).is_ok());
    bytes[20] = 107;
    match decode_packet(&bytes) {
        Ok(_) => panic!("no packet"),
        Err(e) => assert_eq!(
            e.message(),
            "invalid u8 while decoding bool, expected 0 or 1, found 107"
        ),
    }
    match bincode::deserialize::<(u64, u64, u32, bool)>(&bytes) {
        Ok(_) => panic!("no header"),
        Err(e) => assert_eq!(e.to_string(), WireError::InvalidHeader { flag: 107 }.message()),
    }
}
