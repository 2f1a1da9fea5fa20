use blaster::datagen::{generate_payload, SIZES};
use blaster::tls::{
    cert_pair, generate_self_signed, transport_settings, CongestionControl, MAX_GRPC_MESSAGE,
    MAX_UDP_PAYLOAD, PUBLIC_KEY_SIZE, SERVER_NAME,
};
use blaster::wire::{encode_packet, MAX_STREAM_SIZE};

#[test]
fn certificate_is_made_out_to_the_server() {
    match generate_self_signed() {
        Ok(pair) => {
            let mut entry = vec![0x82, SERVER_NAME.len() as u8];
            entry.extend(SERVER_NAME.as_bytes());
            assert!(pair.cert.windows(entry.len()).any(|w| w == entry));
            let public = &pair.key[pair.key.len() - PUBLIC_KEY_SIZE..];
            assert_eq!(public[0], 4);
            assert!(pair.cert.windows(public.len()).any(|w| w == public));
        }
        Err(e) => panic!("{:?}", e),
    }
}

#[test]
fn each_certificate_has_its_own_key() {
    match (generate_self_signed(), generate_self_signed()) {
        (Ok(a), Ok(b)) => assert_ne!(a.key, b.key),
        _ => panic!("no certificate"),
    }
}

#[test]
fn pair_is_what_was_made() {
    match cert_pair(Ok((vec![1], vec![2]))) {
        Ok(pair) => {
            assert_eq!(pair.cert, vec![1]);
            assert_eq!(pair.key, vec![2]);
        }
        Err(e) => panic!("{:?}", e),
    }
    match cert_pair(Err(String::from("why"))) {
        Ok(_) => panic!("a certificate"),
        Err(e) => assert_eq!(e.reason, "why"),
    }
}

#[test]
fn settings_fit_together() {
    let s = transport_settings();
    assert_eq!(s.stream_receive_window, 128 * 1024 * 1024);
    assert_eq!(s.receive_window, 256 * 1024 * 1024);
    assert_eq!(s.send_window, 128 * 1024 * 1024);
    assert_eq!(s.initial_window, 32 * 1024 * 1024);
    assert!(2 * s.keep_alive_secs < s.max_idle_timeout_secs);
    assert!(s.min_mtu <= s.initial_mtu && s.initial_mtu <= MAX_UDP_PAYLOAD);
    assert_eq!(s.max_concurrent_uni_streams, 2048);
    assert!(s.segmentation_offload);
    assert_eq!(s.congestion_control, CongestionControl::Bbr);
    assert_eq!(s.datagram_receive_buffer, None);
}

#[test]
fn every_size_fits_a_stream() {
    for (_, size) in SIZES {
        let bytes = encode_packet(0, 0, generate_payload(size));
        assert!(bytes.len() <= MAX_STREAM_SIZE);
        assert!(bytes.len() <= transport_settings().stream_receive_window as usize);
        assert!(size < MAX_GRPC_MESSAGE);
    }
}
