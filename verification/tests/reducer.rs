use peer_stats::durations_error_with_ci;
use peer_stats::durations_mean;
use peer_stats::durations_std_dev;
use peer_stats::span::from_nanos;
use peer_stats::span::to_nanos;
use peer_stats::span::MAX_NANOS;
use std::time::Duration;

#[test]
fn correct_durations_mean() {
    let durations = vec![
        Duration::from_secs(1),
        Duration::from_secs(3),
        Duration::from_secs(5),
    ];
    assert_eq!(durations_mean(&durations).unwrap(), Duration::from_secs(3));
}

#[test]
fn correct_durations_std_dev() {
    let durations = vec![
        Duration::from_secs(1),
        Duration::from_secs(3),
        Duration::from_secs(5),
    ];
    let epsilon = 0.01;
    let std_dev = durations_std_dev(&durations).unwrap().as_secs_f64();
    assert!((std_dev - 1.63).abs() < epsilon);
}

#[test]
fn mean_of_nothing_is_absent() {
    let durations: Vec<Duration> = Vec::new();
    assert_eq!(durations_mean(&durations), None);
    assert_eq!(durations_std_dev(&durations), None);
    assert_eq!(durations_error_with_ci(&durations), None);
}

#[test]
fn mean_is_sum_over_count() {
    let durations = vec![
        Duration::from_millis(100),
        Duration::from_millis(250),
    ];
    assert_eq!(durations_mean(&durations), Some(Duration::from_millis(175)));
    let uneven = vec![
        Duration::from_secs(1),
        Duration::from_secs(2),
        Duration::from_secs(4),
        Duration::from_secs(9),
    ];
    assert_eq!(durations_mean(&uneven), Some(Duration::from_secs(4)));
}

#[test]
fn mean_rounds_down_to_a_nanosecond() {
    let durations = vec![Duration::from_nanos(1), Duration::from_nanos(2)];
    assert_eq!(durations_mean(&durations), Some(Duration::from_nanos(1)));
}

#[test]
fn mean_of_the_longest_durations_does_not_overflow() {
    let durations = vec![Duration::MAX, Duration::MAX, Duration::MAX];
    assert_eq!(durations_mean(&durations), Some(Duration::MAX));
    let mixed = vec![Duration::ZERO, Duration::MAX];
    assert_eq!(
        durations_mean(&mixed),
        Some(Duration::new(9_223_372_036_854_775_807, 999_999_999))
    );
}

#[test]
fn std_dev_is_the_population_deviation() {
    let durations = vec![
        Duration::from_secs(1),
        Duration::from_secs(3),
        Duration::from_secs(5),
    ];
    // sqrt(8/3) s, not the sample-corrected sqrt(8/2) s = 2 s.
    assert_eq!(
        durations_std_dev(&durations),
        Some(Duration::new(1, 632_993_161))
    );
    let seconds = durations_std_dev(&durations).unwrap().as_secs_f64();
    assert!((seconds - 1.633).abs() < 0.01);
}

#[test]
fn std_dev_of_more_samples() {
    let durations = vec![
        Duration::from_secs(1),
        Duration::from_secs(2),
        Duration::from_secs(4),
        Duration::from_secs(9),
    ];
    assert_eq!(
        durations_std_dev(&durations),
        Some(Duration::new(3, 82_207_001))
    );
    let pair = vec![Duration::from_nanos(0), Duration::from_nanos(10)];
    assert_eq!(durations_std_dev(&pair), Some(Duration::from_nanos(5)));
}

#[test]
fn std_dev_of_the_widest_spread_does_not_overflow() {
    let durations = vec![Duration::ZERO, Duration::MAX];
    assert_eq!(
        durations_std_dev(&durations),
        Some(Duration::new(9_223_372_036_854_775_807, 999_999_999))
    );
    let three = vec![Duration::MAX, Duration::MAX, Duration::ZERO];
    assert_eq!(
        to_nanos(&durations_std_dev(&three).unwrap()),
        8_695_878_550_221_854_808_233_047_870
    );
}

#[test]
fn error_is_z_times_deviation_over_root_of_count() {
    let durations = vec![
        Duration::from_secs(1),
        Duration::from_secs(3),
        Duration::from_secs(5),
    ];
    let error = durations_error_with_ci(&durations).unwrap();
    assert_eq!(error, Duration::new(1, 847_905_720));
    let std_dev = durations_std_dev(&durations).unwrap().as_secs_f64();
    let expected = 1.96 * std_dev / 3f64.sqrt();
    assert!((error.as_secs_f64() - expected).abs() < 0.000_001);
}

#[test]
fn error_of_more_samples() {
    let durations = vec![
        Duration::from_secs(1),
        Duration::from_secs(2),
        Duration::from_secs(4),
        Duration::from_secs(9),
    ];
    assert_eq!(
        durations_error_with_ci(&durations),
        Some(Duration::new(3, 20_562_860))
    );
    let pair = vec![Duration::from_millis(100), Duration::from_millis(250)];
    assert_eq!(
        durations_error_with_ci(&pair),
        Some(Duration::from_nanos(103_944_696))
    );
    let tiny = vec![Duration::from_nanos(0), Duration::from_nanos(10)];
    assert_eq!(durations_error_with_ci(&tiny), Some(Duration::from_nanos(6)));
}

#[test]
fn error_of_the_widest_spread_does_not_overflow() {
    let durations = vec![Duration::ZERO, Duration::MAX];
    assert_eq!(
        to_nanos(&durations_error_with_ci(&durations).unwrap()),
        12_782_941_468_826_126_568_102_580_368
    );
    let three = vec![Duration::MAX, Duration::MAX, Duration::ZERO];
    assert_eq!(
        to_nanos(&durations_error_with_ci(&three).unwrap()),
        9_840_312_930_749_325_782_698_569_452
    );
}

#[test]
fn single_sample_has_zero_deviation_and_a_defined_error() {
    let durations = vec![Duration::from_secs(2)];
    assert_eq!(durations_mean(&durations), Some(Duration::from_secs(2)));
    assert_eq!(durations_std_dev(&durations), Some(Duration::ZERO));
    assert_eq!(durations_error_with_ci(&durations), Some(Duration::ZERO));
}

#[test]
fn error_is_computed_for_small_windows() {
    let durations = vec![Duration::from_secs(3), Duration::from_secs(5)];
    assert!(durations_error_with_ci(&durations).is_some());
}

#[test]
fn nanosecond_counts_round_trip() {
    assert_eq!(to_nanos(&Duration::new(3, 7)), 3_000_000_007);
    assert_eq!(from_nanos(3_000_000_007), Duration::new(3, 7));
    assert_eq!(to_nanos(&Duration::MAX), MAX_NANOS);
    assert_eq!(from_nanos(MAX_NANOS), Duration::MAX);
    assert_eq!(from_nanos(0), Duration::ZERO);
}
