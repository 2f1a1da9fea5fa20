use blaster::serde_metrics::{SerdeMetrics, SerdeStats};

fn of(samples: &[u64]) -> SerdeStats {
    let mut metrics = SerdeMetrics::new();
    for s in samples {
        metrics.record(*s);
    }
    metrics.stats()
}

#[test]
fn no_timings_give_zeros() {
    let zeros = SerdeStats { count: 0, median_ns: 0, min_ns: 0, max_ns: 0, sum_ns: 0 };
    assert_eq!(of(&[]), zeros);
    assert_eq!(SerdeMetrics::default().stats(), zeros);
}

#[test]
fn median_is_the_upper_middle() {
    assert_eq!(
        of(&[30, 10, 20]),
        SerdeStats { count: 3, median_ns: 20, min_ns: 10, max_ns: 30, sum_ns: 60 }
    );
    assert_eq!(
        of(&[40, 10, 30, 20]),
        SerdeStats { count: 4, median_ns: 30, min_ns: 10, max_ns: 40, sum_ns: 100 }
    );
    assert_eq!(
        of(&[7]),
        SerdeStats { count: 1, median_ns: 7, min_ns: 7, max_ns: 7, sum_ns: 7 }
    );
}

#[test]
fn order_of_timings_does_not_matter() {
    assert_eq!(of(&[5, 1, 9, 1]), of(&[1, 1, 5, 9]));
    assert_ne!(of(&[5, 1, 9, 1]), of(&[5, 1, 9, 2]));
}

#[test]
fn stats_are_ordered_and_recorded() {
    let samples = [4u64, 4, 100, 3, 77];
    let stats = of(&samples);
    assert!(stats.min_ns <= stats.median_ns && stats.median_ns <= stats.max_ns);
    assert!(samples.contains(&stats.min_ns));
    assert!(samples.contains(&stats.median_ns));
    assert!(samples.contains(&stats.max_ns));
    assert!(stats.min_ns as u128 * 5 <= stats.sum_ns && stats.sum_ns <= stats.max_ns as u128 * 5);
}

#[test]
fn huge_timings_do_not_overflow_the_sum() {
    assert_eq!(of(&[u64::MAX, u64::MAX]).sum_ns, 2 * (u64::MAX as u128));
}

#[test]
fn appended_timings_come_along() {
    let mut a = SerdeMetrics::new();
    a.record(1);
    let mut b = SerdeMetrics::new();
    b.record(3);
    b.record(2);
    a.append(b);
    assert_eq!(a.stats(), of(&[1, 2, 3]));
}
