use peering_diag::report::display::{category_label, wrap_text};
use peering_diag::report::verdict::{
    decide_forward_verdict, decide_return_verdict, find_peering_segment, key_finding_index, VerdictCause,
};
use peering_diag::report::watch::{interval_seconds, WatchLoop, WatchStats, WatchStep};
use peering_diag::types::{Finding, FindingCategory, Severity, VerdictStatus};

fn finding(severity: Severity, category: FindingCategory, description: &str) -> Finding {
    Finding {
        severity,
        category,
        description: description.to_string(),
        evidence: String::new(),
        action: None,
    }
}

#[test]
fn text_is_wrapped_between_words() {
    assert_eq!(wrap_text("aaa bbb ccc", 7), vec!["aaa bbb", "ccc"]);
    assert_eq!(wrap_text("  one   two  ", 80), vec!["one two"]);
    assert_eq!(wrap_text("averyveryverylongword x", 5), vec!["averyveryverylongword", "x"]);
    assert!(wrap_text("   ", 10).is_empty());
}

#[test]
fn categories_have_tags() {
    assert_eq!(category_label(FindingCategory::PacketLoss), "PERTE");
    assert_eq!(category_label(FindingCategory::PhysicalLatency), "INFO");
}

#[test]
fn forward_verdict_priorities() {
    let fs = vec![
        finding(Severity::Critical, FindingCategory::PacketLoss, "perte"),
        finding(Severity::Warning, FindingCategory::PeeringCongestion, "AS1 → AS2"),
    ];
    assert_eq!(decide_forward_verdict(&fs), (VerdictStatus::Faulty, VerdictCause::Peering));
    let fs = vec![finding(Severity::Warning, FindingCategory::HighLatency, "lat")];
    assert_eq!(decide_forward_verdict(&fs), (VerdictStatus::Degraded, VerdictCause::Latency));
    let fs = vec![finding(Severity::Info, FindingCategory::HighLatency, "lat")];
    assert_eq!(decide_forward_verdict(&fs), (VerdictStatus::Healthy, VerdictCause::Nothing));
}

#[test]
fn return_verdict_priorities() {
    let fs = vec![
        finding(Severity::Critical, FindingCategory::Jitter, "j"),
        finding(Severity::Warning, FindingCategory::HighLatency, "l"),
    ];
    assert_eq!(decide_return_verdict(&fs), (VerdictStatus::Faulty, VerdictCause::Other));
    let fs = vec![finding(Severity::Warning, FindingCategory::Bufferbloat, "b")];
    assert_eq!(decide_return_verdict(&fs), (VerdictStatus::Degraded, VerdictCause::Other));
}

#[test]
fn peering_segment_and_key_finding() {
    let fs = vec![
        finding(Severity::Warning, FindingCategory::PeeringCongestion, "w"),
        finding(Severity::Critical, FindingCategory::PeeringCongestion, "AS1 → AS2"),
    ];
    assert_eq!(find_peering_segment(&fs), " (AS1 → AS2)");
    assert_eq!(find_peering_segment(&fs[..1]), "");
    assert_eq!(key_finding_index(&fs), Some(1));
    assert_eq!(key_finding_index(&fs[..1]), Some(0));
    assert_eq!(key_finding_index(&[]), None);
}

#[test]
fn watch_tally_and_loop() {
    let mut s = WatchStats::new();
    s.record(VerdictStatus::Healthy);
    s.record(VerdictStatus::Faulty);
    s.record(VerdictStatus::Healthy);
    assert_eq!(s.summary(), "2 sain · 0 dégradé · 1 faulty");
    let mut w = WatchLoop::new(2);
    assert_eq!(w.on_tick(false), WatchStep::Run { run: 1 });
    assert!(w.continues(false));
    assert_eq!(w.on_tick(false), WatchStep::Run { run: 2 });
    assert!(!w.continues(false));
    let mut w = WatchLoop::new(0);
    assert_eq!(w.on_tick(true), WatchStep::Stop);
    assert_eq!(interval_seconds(15), 900);
}
