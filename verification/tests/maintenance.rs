use peering_diag::report::maintenance::{format_count, human_bytes, DbStats, DbStatsJson, PurgeAction, PurgeRequest};

#[test]
fn test_human_bytes_bytes() {
    assert_eq!(human_bytes(0), "0 B");
    assert_eq!(human_bytes(999), "999 B");
}

#[test]
fn test_human_bytes_kilobytes() {
    assert_eq!(human_bytes(1_000), "1.0 KB");
    assert_eq!(human_bytes(1_500), "1.5 KB");
    assert_eq!(human_bytes(999_999), "1000.0 KB");
}

#[test]
fn test_human_bytes_megabytes() {
    assert_eq!(human_bytes(1_000_000), "1.0 MB");
    assert_eq!(human_bytes(2_500_000), "2.5 MB");
}

#[test]
fn human_bytes_rounds_to_nearest_tenth() {
    assert_eq!(human_bytes(1_049), "1.0 KB");
    assert_eq!(human_bytes(1_051), "1.1 KB");
    assert_eq!(human_bytes(1_250), "1.2 KB");
    assert_eq!(human_bytes(123_456_789), "123.5 MB");
}

#[test]
fn format_count_groups_thousands() {
    assert_eq!(format_count(0), "0");
    assert_eq!(format_count(999), "999");
    assert_eq!(format_count(1_234), "1 234");
    assert_eq!(format_count(1_234_567), "1 234 567");
    assert_eq!(format_count(-123_456), "- 123 456");
}

#[test]
fn purge_request_is_clamped() {
    let r = PurgeRequest { older_than_days: Some(0), keep_last: Some(5) };
    assert_eq!(r.action(), PurgeAction::OlderThan(1));
    let r = PurgeRequest { older_than_days: Some(10_000), keep_last: None };
    assert_eq!(r.action(), PurgeAction::OlderThan(3650));
    let r = PurgeRequest { older_than_days: None, keep_last: Some(0) };
    assert_eq!(r.action(), PurgeAction::KeepLast(1));
    let r = PurgeRequest { older_than_days: None, keep_last: Some(50_000) };
    assert_eq!(r.action(), PurgeAction::KeepLast(10_000));
    let r = PurgeRequest { older_than_days: None, keep_last: None };
    assert_eq!(r.action(), PurgeAction::Nothing);
}

#[test]
fn stats_json_adds_human_size() {
    let s = DbStats {
        run_count: 3,
        hop_count: 40,
        speedtest_count: 2,
        watch_series_count: 1,
        oldest_run: Some("2024-01-01".to_string()),
        newest_run: None,
        db_size_bytes: 2_500_000,
    };
    let j = DbStatsJson::from_stats(s);
    assert_eq!(j.human_size, "2.5 MB");
    assert_eq!(j.run_count, 3);
    assert_eq!(j.oldest_run.as_deref(), Some("2024-01-01"));
}

#[test]
fn human_bytes_rounds_as_float_formatting_does() {
    assert_eq!(human_bytes(1_050), "1.1 KB");
    assert_eq!(human_bytes(1_250), "1.2 KB");
    assert_eq!(human_bytes(1_150), format!("{:.1} KB", 1_150u64 as f64 / 1_000.0));
    let mut samples: Vec<u64> = (1_000..20_000).step_by(50).collect();
    samples.extend((1_000_000..40_000_000).step_by(50_000));
    samples.extend([999_950, 999_999, 1_234_567_890, 123_456_789_012_345, 9_007_199_254_740_993, u64::MAX, u64::MAX - 1_000]);
    for b in samples {
        let expected = if b >= 1_000_000 {
            format!("{:.1} MB", b as f64 / 1_000_000.0)
        } else {
            format!("{:.1} KB", b as f64 / 1_000.0)
        };
        assert_eq!(human_bytes(b), expected, "bytes = {}", b);
    }
}
