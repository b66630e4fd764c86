use ec2_monitor::eta::SAMPLING_INTERVAL_MINUTES;
use ec2_monitor::{
    calculate_median_eta, format_duration, parse_eta_to_minutes, EtaEstimate, MonitorError,
    TimeStep,
};

fn sample(step: u64, total_step: u64, step_increase: Option<u64>) -> TimeStep {
    TimeStep { step, time: "1.0".to_string(), total_step, step_increase }
}

#[test]
fn duration_of_1500_minutes() {
    assert_eq!(format_duration(1500, 1), "1d 1h 0m");
}

#[test]
fn duration_of_90_minutes() {
    assert_eq!(format_duration(90, 1), "1h 30m");
}

#[test]
fn duration_of_45_minutes() {
    assert_eq!(format_duration(45, 1), "45m");
}

#[test]
fn duration_of_one_day_omits_hours() {
    assert_eq!(format_duration(1440, 1), "1d 0m");
}

#[test]
fn duration_rounds_half_minutes_up() {
    // 90.5 minutes
    assert_eq!(format_duration(181, 2), "1h 31m");
    // 0.4 minutes
    assert_eq!(format_duration(2, 5), "0m");
    // 119.5 minutes: the rounded minutes past the whole hour reach 60
    assert_eq!(format_duration(239, 2), "1h 60m");
}

#[test]
fn duration_of_zero_minutes() {
    assert_eq!(format_duration(0, 1), "0m");
}

#[test]
fn median_of_odd_history() {
    assert_eq!(calculate_median_eta(&[30, 45, 60]), Some("45m".to_string()));
}

#[test]
fn median_of_even_history_is_mean_of_middle() {
    assert_eq!(calculate_median_eta(&[30, 90]), Some("1h 0m".to_string()));
}

#[test]
fn median_of_empty_history_is_not_available() {
    assert_eq!(calculate_median_eta(&[]), None);
}

#[test]
fn median_sorts_its_input() {
    assert_eq!(calculate_median_eta(&[60, 30, 45]), Some("45m".to_string()));
    assert_eq!(calculate_median_eta(&[3000, 10, 20, 1]), Some("15m".to_string()));
}

#[test]
fn median_of_even_history_with_half_minute() {
    // mean of 30 and 31 is 30.5, which rounds to 31
    assert_eq!(calculate_median_eta(&[31, 30]), Some("31m".to_string()));
}

#[test]
fn parse_rejects_sentinels() {
    assert_eq!(parse_eta_to_minutes("Complete"), None);
    assert_eq!(parse_eta_to_minutes("Stalled"), None);
    assert_eq!(parse_eta_to_minutes("Calculating..."), None);
}

#[test]
fn parse_sums_day_hour_minute_words() {
    assert_eq!(parse_eta_to_minutes("2d 5h 30m"), Some(2 * 1440 + 5 * 60 + 30));
    assert_eq!(parse_eta_to_minutes("45m"), Some(45));
    assert_eq!(parse_eta_to_minutes("3h 15m"), Some(195));
    assert_eq!(parse_eta_to_minutes("  1h\t15m \n"), Some(75));
}

#[test]
fn parse_skips_unrecognised_words() {
    assert_eq!(parse_eta_to_minutes("about 5m left"), Some(5));
    assert_eq!(parse_eta_to_minutes("xd 2h"), Some(120));
    assert_eq!(parse_eta_to_minutes("soon"), Some(0));
    assert_eq!(parse_eta_to_minutes(""), Some(0));
}

#[test]
fn parse_of_zero_total_is_zero() {
    assert_eq!(parse_eta_to_minutes("0m"), Some(0));
    assert_eq!(parse_eta_to_minutes("0d 0h 0m"), Some(0));
}

#[test]
fn parse_saturates_huge_totals() {
    assert_eq!(parse_eta_to_minutes("99999999999999999999999d"), Some(u64::MAX));
}

#[test]
fn round_trip_recovers_minutes() {
    for &(num, den) in &[(1u128, 1u64), (45, 1), (90, 1), (1440, 1), (1500, 1), (181, 2), (17000 * 6, 7), (1, 2), (0, 1), (6, 13), (2, 5)] {
        let text = format_duration(num, den);
        let back = parse_eta_to_minutes(&text).expect("a duration text reads back");
        let exact = num as f64 / den as f64;
        assert!((back as f64 - exact).abs() <= 0.5, "{} -> {} -> {}", exact, text, back);
    }
}

#[test]
fn round_trip_of_median_of_zero() {
    let text = calculate_median_eta(&[0]).unwrap();
    assert_eq!(text, "0m");
    assert_eq!(parse_eta_to_minutes(&text), Some(0));
}

#[test]
fn first_observation_is_calculating() {
    let ts = sample(100, 18_000, None);
    assert_eq!(ts.estimate(SAMPLING_INTERVAL_MINUTES), EtaEstimate::Calculating);
    assert_eq!(ts.calculate_eta(), None);
    assert_eq!(ts.estimate(6).label(), "Calculating...");
}

#[test]
fn zero_delta_is_stalled() {
    let ts = sample(100, 18_000, Some(0));
    assert_eq!(ts.estimate(6), EtaEstimate::Stalled);
    assert_eq!(ts.calculate_eta(), Some("Stalled".to_string()));
}

#[test]
fn zero_delta_with_no_steps_left_is_stalled() {
    let ts = sample(18_000, 18_000, Some(0));
    assert_eq!(ts.calculate_eta(), Some("Stalled".to_string()));
}

#[test]
fn no_remaining_steps_is_complete() {
    let ts = sample(18_000, 18_000, Some(50));
    assert_eq!(ts.estimate(6), EtaEstimate::Complete);
    assert_eq!(ts.calculate_eta(), Some("Complete".to_string()));
    let past = sample(24_500, 24_000, Some(3));
    assert_eq!(past.calculate_eta(), Some("Complete".to_string()));
}

#[test]
fn estimate_from_rate() {
    // 17000 steps left at 100 steps per 6 minutes: 1020 minutes
    let ts = sample(1_000, 18_000, Some(100));
    assert_eq!(
        ts.estimate(6),
        EtaEstimate::Remaining { numerator: 17_000 * 6, denominator: 100 }
    );
    assert_eq!(ts.calculate_eta(), Some("17h 0m".to_string()));
    // the same delta over a 12 minute interval takes twice as long
    assert_eq!(ts.estimate(12).label(), "1d 10h 0m");
}

#[test]
fn estimate_with_fractional_minutes() {
    // 23999 steps left at 7 steps per 6 minutes: 20570.57 minutes
    let ts = sample(1, 24_000, Some(7));
    assert_eq!(ts.calculate_eta(), Some("14d 6h 51m".to_string()));
}

#[test]
fn sample_from_progress_record() {
    let ts = TimeStep::new("case_a_12ms", "TimeStep  1234: Time  12.5").unwrap();
    assert_eq!(ts.step, 1234);
    assert_eq!(ts.time, "12.5");
    assert_eq!(ts.total_step, 18_000);
    assert_eq!(ts.step_increase, None);
}

#[test]
fn sample_total_by_wind_speed() {
    assert_eq!(TimeStep::new("run_2ms", "TimeStep 5: Time 0.1").unwrap().total_step, 24_000);
    assert_eq!(TimeStep::new("run_7ms", "TimeStep 5: Time 0.1").unwrap().total_step, 18_000);
    assert_eq!(TimeStep::new("run_17ms", "TimeStep 5: Time 0.1").unwrap().total_step, 18_000);
    assert_eq!(TimeStep::new("2ms", "TimeStep 5: Time 0.1").unwrap().total_step, 24_000);
}

#[test]
fn sample_uses_last_token_of_label() {
    // an earlier known token does not count: only the last one does
    match TimeStep::new("run_2ms_big", "TimeStep 5: Time 0.1") {
        Err(MonitorError::InvalidWindSpeed { speed }) => assert_eq!(speed, "big"),
        other => panic!("unexpected {:?}", other),
    }
}

#[test]
fn unknown_wind_speed_is_rejected() {
    match TimeStep::new("run_5ms", "TimeStep 5: Time 0.1") {
        Err(MonitorError::InvalidWindSpeed { speed }) => assert_eq!(speed, "5ms"),
        other => panic!("unexpected {:?}", other),
    }
    match TimeStep::new("run_", "TimeStep 5: Time 0.1") {
        Err(MonitorError::InvalidWindSpeed { speed }) => assert_eq!(speed, ""),
        other => panic!("unexpected {:?}", other),
    }
}

#[test]
fn category_is_checked_before_the_record() {
    match TimeStep::new("run_9ms", "garbage") {
        Err(MonitorError::InvalidWindSpeed { speed }) => assert_eq!(speed, "9ms"),
        other => panic!("unexpected {:?}", other),
    }
}

#[test]
fn record_without_colon_is_rejected() {
    assert!(matches!(
        TimeStep::new("run_2ms", "TimeStep 5 Time 0.1"),
        Err(MonitorError::TimestepParsing { .. })
    ));
}

#[test]
fn non_numeric_step_is_rejected() {
    match TimeStep::new("run_2ms", "TimeStep abc: Time 0.1") {
        Err(MonitorError::ParseInt { text }) => assert_eq!(text, "abc"),
        other => panic!("unexpected {:?}", other),
    }
    match TimeStep::new("run_2ms", "Step: Time 0.1") {
        Err(MonitorError::ParseInt { text }) => assert_eq!(text, ""),
        other => panic!("unexpected {:?}", other),
    }
    match TimeStep::new("run_2ms", "TimeStep 99999999999999999999: Time 0.1") {
        Err(MonitorError::ParseInt { text }) => assert_eq!(text, "99999999999999999999"),
        other => panic!("unexpected {:?}", other),
    }
}

#[test]
fn non_numeric_time_is_rejected() {
    match TimeStep::new("run_2ms", "TimeStep 5: Time 1.2.3") {
        Err(MonitorError::ParseFloat { text }) => assert_eq!(text, "1.2.3"),
        other => panic!("unexpected {:?}", other),
    }
    match TimeStep::new("run_2ms", "TimeStep 5: Ti") {
        Err(MonitorError::ParseFloat { text }) => assert_eq!(text, ""),
        other => panic!("unexpected {:?}", other),
    }
}

#[test]
fn time_accepts_float_forms() {
    for t in ["1", "+1.5", "-2.", ".5", "1e3", "1.5E-7", "inf", "-Infinity", "NaN"] {
        let line = format!("TimeStep 5: Time {}", t);
        let ts = TimeStep::new("run_2ms", &line).unwrap();
        assert_eq!(ts.time, t);
        assert!(t.parse::<f64>().is_ok());
    }
    for t in ["e5", ".", "1e", "+", "in", "1e+", "0x10"] {
        let line = format!("TimeStep 5: Time {}", t);
        assert!(TimeStep::new("run_2ms", &line).is_err(), "{}", t);
        assert!(t.parse::<f64>().is_err());
    }
}

#[test]
fn step_accepts_plus_sign() {
    assert_eq!(TimeStep::new("run_2ms", "TimeStep +42: Time 1").unwrap().step, 42);
}

#[test]
fn error_messages() {
    assert_eq!(
        MonitorError::SshCommandFailed { code: -1, stderr: "boom".to_string() }.message(),
        "SSH command failed with exit code -1: boom"
    );
    assert_eq!(
        MonitorError::SshCommandFailed { code: 127, stderr: "not found".to_string() }.message(),
        "SSH command failed with exit code 127: not found"
    );
    assert_eq!(
        MonitorError::InvalidWindSpeed { speed: "5ms".to_string() }.message(),
        "Invalid wind speed: 5ms. Valid speeds are 2m/s, 7m/s, 12m/s, or 17m/s"
    );
    assert_eq!(MonitorError::NoPublicIp.message(), "No public IP available for instance");
    assert_eq!(MonitorError::AuthenticationFailed.message(), "SSH authentication failed");
    assert_eq!(MonitorError::AwsSdk("x".to_string()).message(), "AWS SDK error: x");
    assert_eq!(MonitorError::SshConnection("x".to_string()).message(), "SSH connection error: x");
    assert_eq!(MonitorError::Io("x".to_string()).message(), "IO error: x");
    assert_eq!(MonitorError::Env("x".to_string()).message(), "Environment variable error: x");
    assert_eq!(
        MonitorError::ParseInt { text: "a".to_string() }.message(),
        "Parse int error: invalid integer 'a'"
    );
    assert_eq!(
        MonitorError::ParseFloat { text: "b".to_string() }.message(),
        "Parse float error: invalid number 'b'"
    );
    assert_eq!(
        MonitorError::KeyFileNotFound { path: "/k".to_string() }.message(),
        "SSH key file not found: /k"
    );
    assert_eq!(
        MonitorError::TimestepParsing { reason: "r".to_string() }.message(),
        "Timestep parsing failed: r"
    );
    assert_eq!(MonitorError::TaskJoin("j".to_string()).message(), "Task join error: j");
    assert_eq!(
        MonitorError::TmuxLaunchFailed { reason: "t".to_string() }.message(),
        "Tmux session launch failed: t"
    );
}
