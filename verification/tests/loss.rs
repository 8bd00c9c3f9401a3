use peering_diag::report::loss::{loss_findings, LossFindings, LossyHop};
use peering_diag::types::{AsInfo, Hop, Severity};

fn hop(ttl: u8, sent: u32, received: u32, asn: Option<u32>) -> Hop {
    let mut h = Hop::new(ttl);
    h.sent = sent;
    h.received = received;
    h.rtt_samples = vec![1_000_000; received as usize];
    h.as_info = asn.map(|a| AsInfo { asn: a, name: format!("AS-{}", a), country: None, prefix: None });
    h
}

#[test]
fn loss_carried_over_the_path_is_real_and_reported_once() {
    let hops = vec![hop(1, 10, 10, None), hop(2, 10, 8, None), hop(3, 10, 8, None), hop(4, 10, 8, None)];
    assert_eq!(
        loss_findings(&hops),
        LossFindings {
            target: Some(Severity::Critical),
            hop: Some(LossyHop { index: 1, severity: Severity::Critical, at_as_change: false, prev_as_index: None }),
        }
    );
}

#[test]
fn loss_at_an_as_change_and_exact_thresholds() {
    let hops = vec![hop(1, 100, 100, Some(1)), hop(2, 100, 97, Some(2)), hop(3, 100, 96, None), hop(4, 100, 98, None)];
    let r = loss_findings(&hops);
    assert_eq!(r.target, Some(Severity::Warning));
    assert_eq!(
        r.hop,
        Some(LossyHop { index: 1, severity: Severity::Warning, at_as_change: true, prev_as_index: Some(0) })
    );
    let isolated = vec![hop(1, 10, 5, None), hop(2, 10, 10, None), hop(3, 10, 10, None)];
    assert_eq!(loss_findings(&isolated).hop, None);
    let exactly_one_percent = vec![hop(1, 100, 99, None), hop(2, 100, 99, None), hop(3, 100, 99, None), hop(4, 100, 100, None)];
    assert_eq!(loss_findings(&exactly_one_percent).hop, None);
    let mut limited = hop(3, 10, 5, None);
    limited.suspected_icmp_ratelimit = true;
    assert_eq!(loss_findings(&vec![hop(1, 10, 10, None), limited]).target, None);
}

#[test]
fn two_lossy_hops_before_a_clean_target_are_not_a_real_loss() {
    let hops = vec![hop(1, 100, 90, None), hop(2, 100, 90, None), hop(3, 100, 100, None)];
    assert_eq!(loss_findings(&hops), LossFindings { target: None, hop: None });
}
