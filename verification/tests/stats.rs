use peer_stats::report::entry_line;
use peer_stats::report::ping_line;
use peer_stats::report::render_report;
use peer_stats::report::section;
use peer_stats::report::transmission_line;
use peer_stats::durations_error_with_ci;
use peer_stats::durations_mean;
use peer_stats::durations_std_dev;
use peer_stats::Stats;
use std::time::Duration;

#[test]
fn new_stats_hold_no_samples() {
    let stats = Stats::new(3, "self".to_string());
    assert_eq!(stats.window_size(), 3);
    assert_eq!(stats.peer_id(), "self");
    assert_eq!(stats.ping_window(&"A".to_string()), None);
    assert_eq!(stats.transmission_window(&"A".to_string()), None);
    assert_eq!(
        stats.to_report(),
        "\"self\"\nPing mean for each peer:\nTransmission rate mean by peer:\n"
    );
}

#[test]
fn window_holds_the_last_three_of_four_pings() {
    let mut stats = Stats::new(3, "self".to_string());
    for secs in [1u64, 3, 5, 7] {
        stats.record_ping("A".to_string(), Duration::from_secs(secs));
    }
    let window = stats.ping_window(&"A".to_string()).unwrap();
    assert_eq!(
        window,
        vec![
            Duration::from_secs(3),
            Duration::from_secs(5),
            Duration::from_secs(7),
        ]
    );
    assert_eq!(durations_mean(&window), Some(Duration::from_secs(5)));
    let kept = vec![
        Duration::from_secs(3),
        Duration::from_secs(5),
        Duration::from_secs(7),
    ];
    let deviation = durations_std_dev(&kept).unwrap().as_secs_f64();
    let error = durations_error_with_ci(&window).unwrap();
    assert!((error.as_secs_f64() - 1.96 * deviation / 3f64.sqrt()).abs() < 0.000_001);
    let report = stats.to_report();
    assert_eq!(
        report,
        format!(
            "\"self\"\nPing mean for each peer:\n\"A\" {:?}±{:?}\nTransmission rate mean by peer:\n",
            Duration::from_secs(5),
            error
        )
    );
    assert_eq!(
        report,
        "\"self\"\nPing mean for each peer:\n\"A\" 5s±1.84790572s\nTransmission rate mean by peer:\n"
    );
}

#[test]
fn pings_and_transmissions_are_kept_apart() {
    let mut stats = Stats::new(2, "me".to_string());
    stats.record_ping("A".to_string(), Duration::from_millis(10));
    stats.record_transmission("A".to_string(), Duration::from_nanos(40));
    stats.record_transmission("A".to_string(), Duration::from_nanos(60));
    stats.record_transmission("A".to_string(), Duration::from_nanos(80));
    assert_eq!(
        stats.ping_window(&"A".to_string()),
        Some(vec![Duration::from_millis(10)])
    );
    assert_eq!(
        stats.transmission_window(&"A".to_string()),
        Some(vec![Duration::from_nanos(60), Duration::from_nanos(80)])
    );
    assert_eq!(
        stats.to_report(),
        "\"me\"\nPing mean for each peer:\n\"A\" 10ms±0ns\nTransmission rate mean by peer:\n\"A\" 70ns±13ns per byte\n"
    );
}

#[test]
fn report_has_a_line_for_every_peer() {
    let mut stats = Stats::new(4, "self".to_string());
    for i in 0..20u64 {
        stats.record_ping(format!("p{}", i), Duration::from_secs(i + 1));
    }
    let report = stats.to_report();
    let lines: Vec<&str> = report.lines().collect();
    assert_eq!(lines.len(), 23);
    assert_eq!(lines[0], "\"self\"");
    assert_eq!(lines[1], "Ping mean for each peer:");
    assert_eq!(lines[22], "Transmission rate mean by peer:");
    for i in 0..20u64 {
        let line = format!("\"p{}\" {:?}±0ns", i, Duration::from_secs(i + 1));
        assert_eq!(lines[2..22].iter().filter(|l| **l == line).count(), 1);
    }
}

#[test]
fn peer_without_samples_gets_the_no_data_line() {
    let empty: Vec<Duration> = Vec::new();
    assert_eq!(
        ping_line(&"B".to_string(), &empty),
        "No ping data for peer \"B\"\n"
    );
    assert_eq!(
        transmission_line(&"B".to_string(), &empty),
        "No transmission data for peer \"B\"\n"
    );
}

#[test]
fn peer_with_one_sample_gets_a_numeric_line() {
    let one = vec![Duration::from_secs(2)];
    assert_eq!(ping_line(&"B".to_string(), &one), "\"B\" 2s±0ns\n");
    assert_eq!(
        transmission_line(&"B".to_string(), &one),
        "\"B\" 2s±0ns per byte\n"
    );
}

#[test]
fn peer_names_are_quoted_and_escaped() {
    let one = vec![Duration::from_millis(1500)];
    assert_eq!(
        ping_line(&"a \"b\"\n".to_string(), &one),
        "\"a \\\"b\\\"\\n\" 1.5s±0ns\n"
    );
}

#[test]
fn entry_line_takes_its_texts_from_the_caller() {
    let samples = vec![Duration::from_secs(1), Duration::from_secs(3)];
    assert_eq!(
        entry_line(&"X".to_string(), &samples, "nothing for ", " each"),
        "\"X\" 2s±1.385929291s each\n"
    );
    let empty: Vec<Duration> = Vec::new();
    assert_eq!(
        entry_line(&"X".to_string(), &empty, "nothing for ", " each"),
        "nothing for \"X\"\n"
    );
}

#[test]
fn section_keeps_the_order_of_its_entries() {
    let entries = vec![
        ("B".to_string(), vec![Duration::from_secs(1)]),
        ("A".to_string(), Vec::new()),
        ("C".to_string(), vec![Duration::from_secs(3)]),
    ];
    assert_eq!(
        section(&entries, "none: ", ""),
        "\"B\" 1s±0ns\nnone: \"A\"\n\"C\" 3s±0ns\n"
    );
    let nothing: Vec<(String, Vec<Duration>)> = Vec::new();
    assert_eq!(section(&nothing, "none: ", ""), "");
}

#[test]
fn report_is_rendered_from_listed_windows() {
    let pings = vec![
        ("A".to_string(), vec![Duration::from_secs(3), Duration::from_secs(5), Duration::from_secs(7)]),
        ("B".to_string(), Vec::new()),
    ];
    let rates = vec![("A".to_string(), vec![Duration::from_micros(2)])];
    assert_eq!(
        render_report(&"self".to_string(), &pings, &rates),
        "\"self\"\nPing mean for each peer:\n\"A\" 5s±1.84790572s\nNo ping data for peer \"B\"\nTransmission rate mean by peer:\n\"A\" 2µs±0ns per byte\n"
    );
}

#[test]
fn stores_can_be_read_through_the_stats() {
    let mut stats = Stats::new(2, "self".to_string());
    stats.record_ping("A".to_string(), Duration::from_secs(1));
    stats.record_transmission("B".to_string(), Duration::from_nanos(2));
    assert_eq!(stats.ping_store().window_size(), 2);
    assert_eq!(stats.transmission_store().window_size(), 2);
    assert_eq!(
        stats.ping_store().snapshot(),
        vec![("A".to_string(), vec![Duration::from_secs(1)])]
    );
    assert_eq!(
        stats.transmission_store().snapshot(),
        vec![("B".to_string(), vec![Duration::from_nanos(2)])]
    );
    assert_eq!(stats.ping_store().window(&"B".to_string()), None);
}

#[test]
fn known_ping_peer_without_samples_has_a_line_of_its_own() {
    let mut stats = Stats::new(3, "self".to_string());
    stats.track_ping("A".to_string());
    assert_eq!(stats.ping_window(&"A".to_string()), Some(Vec::new()));
    assert_eq!(
        stats.to_report(),
        "\"self\"\nPing mean for each peer:\nNo ping data for peer \"A\"\nTransmission rate mean by peer:\n"
    );
}

#[test]
fn known_transmission_peer_without_samples_has_a_line_of_its_own() {
    let mut stats = Stats::new(3, "self".to_string());
    stats.track_transmission("B".to_string());
    assert_eq!(stats.transmission_window(&"B".to_string()), Some(Vec::new()));
    let report = stats.to_report();
    assert_eq!(
        report,
        "\"self\"\nPing mean for each peer:\nTransmission rate mean by peer:\nNo transmission data for peer \"B\"\n"
    );
    assert!(!report.contains('±'));
    assert!(!report.contains("per byte"));
}

#[test]
fn tracking_keeps_the_samples_of_a_peer_that_has_some() {
    let mut stats = Stats::new(3, "self".to_string());
    stats.record_ping("A".to_string(), Duration::from_secs(1));
    stats.track_ping("A".to_string());
    assert_eq!(
        stats.ping_window(&"A".to_string()),
        Some(vec![Duration::from_secs(1)])
    );
    stats.track_ping("B".to_string());
    stats.record_ping("B".to_string(), Duration::from_secs(2));
    assert_eq!(
        stats.ping_window(&"B".to_string()),
        Some(vec![Duration::from_secs(2)])
    );
}

#[test]
fn every_report_line_ends_with_a_line_break() {
    let mut stats = Stats::new(2, "self".to_string());
    stats.track_ping("quiet".to_string());
    stats.record_ping("loud".to_string(), Duration::from_millis(5));
    stats.track_transmission("quiet".to_string());
    let report = stats.to_report();
    assert!(report.ends_with('\n'));
    let mut lines: Vec<&str> = report.lines().collect();
    assert_eq!(lines.len(), 6);
    assert_eq!(lines[0], "\"self\"");
    assert_eq!(lines[1], "Ping mean for each peer:");
    assert_eq!(lines[4], "Transmission rate mean by peer:");
    assert_eq!(lines[5], "No transmission data for peer \"quiet\"");
    let pings = &mut lines[2..4];
    pings.sort();
    assert_eq!(pings[0], "\"loud\" 5ms±0ns");
    assert_eq!(pings[1], "No ping data for peer \"quiet\"");
}
