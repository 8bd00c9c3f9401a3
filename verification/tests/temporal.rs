use peering_diag::report::temporal::{count_by_hour, peak_groups, HourCount, span_minutes, timestamp_readable};

#[test]
fn runs_are_counted_per_hour() {
    let counts = count_by_hour(&vec![(3, true), (3, false), (23, true)]);
    assert_eq!(counts.len(), 24);
    assert_eq!(counts[3], HourCount { total: 2, bad: 1 });
    assert_eq!(counts[23], HourCount { total: 1, bad: 1 });
    assert_eq!(counts[0], HourCount { total: 0, bad: 0 });
}

fn counts_with(peaks: &[(usize, usize, usize)]) -> Vec<HourCount> {
    let mut c = vec![HourCount { total: 0, bad: 0 }; 24];
    for &(h, total, bad) in peaks {
        c[h] = HourCount { total, bad };
    }
    c
}

#[test]
fn consecutive_peak_hours_form_ranges() {
    let c = counts_with(&[(1, 2, 2), (2, 3, 2), (5, 10, 9), (6, 2, 1), (22, 4, 4), (23, 4, 3), (0, 2, 2)]);
    let groups = peak_groups(&c);
    let view: Vec<(Vec<u8>, usize, usize)> =
        groups.iter().map(|g| (g.hours.clone(), g.bad_count, g.total_count)).collect();
    assert_eq!(
        view,
        vec![(vec![22, 23, 0, 1, 2], 13, 15), (vec![5], 9, 10)]
    );
}

#[test]
fn peak_range_runs_across_midnight() {
    let c = counts_with(&[(23, 2, 2), (0, 2, 2), (12, 2, 0)]);
    let groups = peak_groups(&c);
    assert_eq!(groups.len(), 1);
    assert_eq!(groups[0].hours, vec![23, 0]);
    assert_eq!((groups[0].bad_count, groups[0].total_count), (4, 4));
    let all: Vec<(usize, usize, usize)> = (0..24).map(|h| (h, 2, 2)).collect();
    let groups = peak_groups(&counts_with(&all));
    assert_eq!(groups.len(), 1);
    assert_eq!(groups[0].hours, (0..24u8).collect::<Vec<u8>>());
    assert_eq!(groups[0].total_count, 48);
}

#[test]
fn ties_keep_the_order_of_the_day() {
    let c = counts_with(&[(4, 2, 2), (10, 2, 2)]);
    let groups = peak_groups(&c);
    assert_eq!(groups[0].hours, vec![4]);
    assert_eq!(groups[1].hours, vec![10]);
    assert!(peak_groups(&counts_with(&[(4, 1, 1)])).is_empty());
}

#[test]
fn span_between_two_timestamps_in_minutes() {
    assert_eq!(span_minutes("2025-01-15T14:32:00+01:00", "2025-01-15T16:02:00+01:00"), 90);
    assert_eq!(span_minutes("2025-01-16T00:00:00Z", "2025-01-15T00:00:00Z"), 1440);
    assert_eq!(span_minutes("2025-01-15T00:00:00Z", "2025-02-15T00:00:00Z"), 43829);
    assert_eq!(span_minutes("2024-01-01T00:00:00Z", "2025-01-01T00:00:00Z"), 525960);
}

#[test]
fn short_or_odd_timestamps_count_as_zero_fields() {
    assert_eq!(span_minutes("2025-01-15", "2025-01-15T00:10:00Z"), 2025 * 525960 + 43829 + 15 * 1440 + 10);
    assert_eq!(span_minutes("xxxx-yy-zzTaa:bbxxxx", "0000-00-00T00:00:00"), 0);
    assert!(timestamp_readable("2025-01-15T14:32:00Z"));
    assert!(timestamp_readable("é"));
    assert!(!timestamp_readable("ééééééééé"));
}
