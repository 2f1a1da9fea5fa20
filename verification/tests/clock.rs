use blaster::clock::{low_u64, now_ns, unix_timestamp, ClockBeforeEpoch};

#[test]
fn reading_is_cut_to_64_bits() {
    assert_eq!(low_u64(5), 5);
    assert_eq!(low_u64(1 << 64), 0);
    assert_eq!(unix_timestamp(Some((3 << 64) + 9)), Ok(9));
    assert_eq!(unix_timestamp(Some(u64::MAX as u128)), Ok(u64::MAX));
}

#[test]
fn moment_before_the_epoch_is_an_error() {
    assert_eq!(unix_timestamp(None), Err(ClockBeforeEpoch));
}

#[test]
fn clock_shows_this_century() {
    match now_ns() {
        Ok(ns) => assert!(ns > 1_577_836_800_000_000_000),
        Err(e) => panic!("{:?}", e),
    }
}
