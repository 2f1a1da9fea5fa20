use blaster::streams::{count_senders, plan_streams, share_size};

fn payloads(n: u64) -> Vec<(u64, Vec<u8>)> {
    (0..n).map(|i| (i, vec![i as u8])).collect()
}

fn ids(plan: &Vec<Vec<(u64, Vec<u8>)>>) -> Vec<Vec<u64>> {
    plan.iter().map(|piece| piece.iter().map(|p| p.0).collect()).collect()
}

#[test]
fn senders_are_at_least_one_and_at_most_the_packets() {
    assert_eq!(count_senders(0, 10), 1);
    assert_eq!(count_senders(4, 10), 4);
    assert_eq!(count_senders(40, 10), 10);
    assert_eq!(count_senders(4, 0), 0);
}

#[test]
fn shares_round_up() {
    assert_eq!(share_size(10, 3), 4);
    assert_eq!(share_size(9, 3), 3);
    assert_eq!(share_size(1, 5), 1);
    assert_eq!(share_size(usize::MAX, usize::MAX), 1);
}

#[test]
fn single_sender_gets_everything() {
    assert_eq!(ids(&plan_streams(payloads(3), 1)), vec![vec![0, 1, 2]]);
    assert_eq!(ids(&plan_streams(payloads(3), 0)), vec![vec![0, 1, 2]]);
    assert_eq!(ids(&plan_streams(payloads(1), 8)), vec![vec![0]]);
    assert_eq!(ids(&plan_streams(payloads(0), 8)), vec![Vec::<u64>::new()]);
}

#[test]
fn several_senders_get_consecutive_shares() {
    assert_eq!(
        ids(&plan_streams(payloads(10), 3)),
        vec![vec![0, 1, 2, 3], vec![4, 5, 6, 7], vec![8, 9]]
    );
    assert_eq!(ids(&plan_streams(payloads(4), 2)), vec![vec![0, 1], vec![2, 3]]);
    // five senders of two packets each leave nothing for a sixth
    assert_eq!(plan_streams(payloads(9), 6).len(), 5);
}

#[test]
fn plan_keeps_every_packet_in_order() {
    for n in 0..30 {
        for requested in 0..35 {
            let plan = plan_streams(payloads(n), requested);
            let flat: Vec<(u64, Vec<u8>)> = plan.iter().flatten().cloned().collect();
            assert_eq!(flat, payloads(n));
            assert!(plan.len() <= requested.max(1));
            if n > 0 {
                assert!(plan.iter().all(|piece| !piece.is_empty()));
                assert!(plan.windows(2).all(|w| w[0].len() >= w[1].len()));
            }
        }
    }
}
