use peering_diag::report::history::{
    bar, extract_from_json, format_hour_range, hour_from_ts, parse_hop_filter, payload_status, verdict_from_json, HistoryQuery,
    HopFilter, HopQuery,
};
use peering_diag::report::history::{verdict_and_finding_of, verdict_of, FindingView, PayloadView};

#[test]
fn test_hour_from_ts_standard() {
    assert_eq!(hour_from_ts("2024-01-15T14:30:00Z"), 14);
    assert_eq!(hour_from_ts("2024-01-15T00:00:00Z"), 0);
    assert_eq!(hour_from_ts("2024-01-15T23:59:59Z"), 23);
}

#[test]
fn test_hour_from_ts_malformed_returns_zero() {
    assert_eq!(hour_from_ts(""), 0);
    assert_eq!(hour_from_ts("no-separator"), 0);
    assert_eq!(hour_from_ts("2024-01-15Txx:00:00Z"), 0);
}

#[test]
fn test_extract_healthy_no_findings() {
    let json = r#"{"verdict":{"status":"Healthy"},"findings":[]}"#;
    let (verdict, finding) = extract_from_json(json);
    assert_eq!(verdict, "Healthy");
    assert_eq!(finding, "—");
}

#[test]
fn test_extract_faulty_with_critical_finding() {
    let json = r#"{
        "verdict": {"status": "Faulty"},
        "findings": [
            {"severity": "Info", "description": "info"},
            {"severity": "Critical", "description": "Haute perte de paquets"}
        ]
    }"#;
    let (verdict, finding) = extract_from_json(json);
    assert_eq!(verdict, "Faulty");
    assert_eq!(finding, "Haute perte de paquets");
}

#[test]
fn test_extract_picks_first_critical_or_warning() {
    let json = r#"{
        "verdict": {"status": "Degraded"},
        "findings": [
            {"severity": "Warning", "description": "Premier warning"},
            {"severity": "Critical", "description": "Critical après"}
        ]
    }"#;
    let (verdict, finding) = extract_from_json(json);
    assert_eq!(verdict, "Degraded");
    assert_eq!(finding, "Premier warning");
}

#[test]
fn test_extract_ignores_info_findings() {
    let json = r#"{
        "verdict": {"status": "Healthy"},
        "findings": [{"severity": "Info", "description": "info only"}]
    }"#;
    let (_, finding) = extract_from_json(json);
    assert_eq!(finding, "—");
}

#[test]
fn test_extract_invalid_json_returns_defaults() {
    let (verdict, finding) = extract_from_json("not json at all");
    assert_eq!(verdict, "?");
    assert_eq!(finding, "—");
}

#[test]
fn hour_after_first_t_only() {
    assert_eq!(hour_from_ts("xT07"), 7);
    assert_eq!(hour_from_ts("T9"), 0);
    assert_eq!(hour_from_ts("T+5:00"), 5);
}

#[test]
fn verdict_is_one_of_three_or_unknown() {
    assert_eq!(verdict_from_json(r#"{"verdict":{"status":"Faulty"}}"#), "Faulty");
    assert_eq!(verdict_from_json(r#"{"verdict":{"status":"Weird"}}"#), "?");
    assert_eq!(verdict_from_json("{"), "?");
}

#[test]
fn history_limit_is_clamped() {
    let q = HistoryQuery { target: None, last: None, since: None };
    assert_eq!(q.limit(), 50);
    let q = HistoryQuery { target: None, last: Some(0), since: None };
    assert_eq!(q.limit(), 1);
    let q = HopQuery { target: None, last: Some(20_000) };
    assert_eq!(q.limit(), 10_000);
}

#[test]
fn hop_filter_reads_as_numbers() {
    assert!(matches!(parse_hop_filter("AS3356"), HopFilter::Asn(3356)));
    assert!(matches!(parse_hop_filter("as174"), HopFilter::Asn(174)));
    assert!(matches!(parse_hop_filter("6939"), HopFilter::Asn(6939)));
    match parse_hop_filter("10.0.0.1") {
        HopFilter::Ip(s) => assert_eq!(s, "10.0.0.1"),
        _ => panic!("expected an IP"),
    }
}

#[test]
fn hour_ranges_are_formatted() {
    assert_eq!(format_hour_range(&[]), "");
    assert_eq!(format_hour_range(&[7]), "07h UTC");
    assert_eq!(format_hour_range(&[18, 19, 20]), "18h–21h UTC");
    assert_eq!(format_hour_range(&[22, 23]), "22h–00h UTC");
}

#[test]
fn bars_have_at_most_four_blocks() {
    assert_eq!(bar(0, 0), "");
    assert_eq!(bar(5, 10), "██");
    assert_eq!(bar(10, 10), "████");
    assert_eq!(bar(30, 10), "████");
}

#[test]
fn payload_status_reads_the_verdict() {
    assert_eq!(payload_status(r#"{"verdict":{"status":"Degraded"},"findings":[]}"#), Some("Degraded".to_string()));
    assert_eq!(payload_status(r#"{"verdict":{"status":"Whatever"}}"#), Some("Whatever".to_string()));
    assert_eq!(payload_status(r#"{"findings":[]}"#), None);
    assert_eq!(payload_status("not json"), None);
}

#[test]
fn hour_from_ts_applies_the_utc_offset() {
    assert_eq!(hour_from_ts("2024-01-15T14:30:00+02:00"), 12);
    assert_eq!(hour_from_ts("2024-01-15T01:00:00+02:00"), 23);
    assert_eq!(hour_from_ts("2024-01-15T22:45:00-05:30"), 4);
    assert_eq!(hour_from_ts("2024-01-15T10:15:00.123+05:30"), 4);
}

#[test]
fn hour_from_ts_stays_within_the_day() {
    assert_eq!(hour_from_ts("2024-01-15T99:00:00Z"), 0);
    assert_eq!(hour_from_ts("2024-01-15T24:00:00Z"), 0);
}

#[test]
fn verdict_and_key_finding_of_a_parsed_payload() {
    let f = |sev: Option<&str>, d: Option<&str>| FindingView {
        severity: sev.map(|s| s.to_string()),
        description: d.map(|s| s.to_string()),
    };
    let p = Some(PayloadView {
        status: Some("Degraded".to_string()),
        findings: Some(vec![f(Some("Info"), Some("i")), f(Some("Warning"), Some("w")), f(Some("Critical"), Some("c"))]),
    });
    assert_eq!(verdict_and_finding_of(&p), ("Degraded".to_string(), "w".to_string()));
    assert_eq!(verdict_of(&p), "Degraded");
    let p = Some(PayloadView { status: Some("Odd".to_string()), findings: None });
    assert_eq!(verdict_and_finding_of(&p), ("Odd".to_string(), "—".to_string()));
    assert_eq!(verdict_of(&p), "?");
    assert_eq!(verdict_and_finding_of(&None), ("?".to_string(), "—".to_string()));
    assert_eq!(verdict_of(&None), "?");
}
