use peering_diag::mtr::tcp_probe::{
    classify_connect_error, detect_ecmp_imbalance, flow_ports, flow_stats_from_probes, ConnectErrorKind, FlowStats,
    TcpOutcome, TcpProbeResult,
};

const MS: f64 = 1_000_000.0;

fn flow(src_port: u16, sent: u32, reached: u32, rtts: &[f64]) -> FlowStats {
    FlowStats {
        src_port,
        sent,
        reached,
        rtts_ns: rtts.iter().map(|v| (v * MS) as u64).collect(),
        outcome: TcpOutcome::Open,
    }
}

fn loss_pct(f: &FlowStats) -> f64 {
    let (num, den) = f.loss_fraction();
    num as f64 / den as f64
}

fn median_ms(f: &FlowStats) -> Option<f64> {
    f.median_rtt_twice_ns().map(|t| t as f64 / 2.0 / MS)
}

#[test]
fn loss_pct_basic() {
    let f = flow(33434, 5, 4, &[10.0, 11.0, 12.0, 13.0]);
    assert!((loss_pct(&f) - 20.0).abs() < 0.01);
}

#[test]
fn median_odd_and_even() {
    let f_odd = flow(1, 3, 3, &[30.0, 10.0, 20.0]);
    assert_eq!(median_ms(&f_odd), Some(20.0));
    let f_even = flow(2, 4, 4, &[10.0, 20.0, 30.0, 40.0]);
    assert_eq!(median_ms(&f_even), Some(25.0));
}

#[test]
fn imbalance_flags_high_rtt_flow() {
    let flows = vec![
        flow(33434, 5, 5, &[90.0, 91.0, 89.0, 90.0, 92.0]),
        flow(33435, 5, 5, &[88.0, 90.0, 91.0, 89.0, 90.0]),
        flow(33436, 5, 5, &[92.0, 91.0, 90.0, 93.0, 91.0]),
        flow(33437, 5, 5, &[250.0, 248.0, 252.0, 249.0, 251.0]),
    ];
    let imb = detect_ecmp_imbalance(&flows);
    assert!(imb.is_imbalanced());
    assert_eq!(imb.degraded_flows, 1);
    assert_eq!(imb.details[0].0, 33437);
}

#[test]
fn imbalance_flags_lossy_flow() {
    let flows = vec![flow(33434, 5, 5, &[90.0, 90.0, 90.0, 90.0, 90.0]), flow(33435, 5, 1, &[90.0])];
    let imb = detect_ecmp_imbalance(&flows);
    assert_eq!(imb.degraded_flows, 1);
    assert_eq!(imb.details[0].0, 33435);
}

#[test]
fn no_imbalance_when_all_similar() {
    let flows = vec![
        flow(33434, 5, 5, &[90.0, 91.0, 89.0, 90.0, 92.0]),
        flow(33435, 5, 5, &[88.0, 90.0, 91.0, 89.0, 90.0]),
    ];
    let imb = detect_ecmp_imbalance(&flows);
    assert!(!imb.is_imbalanced());
    assert_eq!(imb.degraded_flows, 0);
}

#[test]
fn baseline_is_lowest_median() {
    let flows = vec![flow(1, 3, 3, &[30.0, 10.0, 20.0]), flow(2, 2, 2, &[8.0, 12.0])];
    let imb = detect_ecmp_imbalance(&flows);
    assert_eq!(imb.baseline_twice_ns, Some(20_000_000));
    assert_eq!(imb.total_flows, 2);
}

#[test]
fn connect_errors_are_classified() {
    assert_eq!(
        classify_connect_error(ConnectErrorKind::ConnectionRefused, None, 5),
        (TcpOutcome::Closed, Some(5))
    );
    assert_eq!(classify_connect_error(ConnectErrorKind::TimedOut, None, 5), (TcpOutcome::Timeout, None));
    assert_eq!(classify_connect_error(ConnectErrorKind::Other, Some(113), 5), (TcpOutcome::Unreachable, None));
    assert_eq!(classify_connect_error(ConnectErrorKind::Other, Some(1), 5), (TcpOutcome::Timeout, None));
}

#[test]
fn flow_ports_start_at_base() {
    assert_eq!(flow_ports(3), vec![33434, 33435, 33436]);
}

#[test]
fn flow_stats_count_reached_probes() {
    let probes = vec![
        Some(TcpProbeResult { outcome: TcpOutcome::Open, rtt: Some(7), src_port: 1 }),
        None,
        Some(TcpProbeResult { outcome: TcpOutcome::Timeout, rtt: None, src_port: 1 }),
        Some(TcpProbeResult { outcome: TcpOutcome::Closed, rtt: Some(9), src_port: 1 }),
    ];
    let f = flow_stats_from_probes(1, 4, &probes);
    assert_eq!(f.reached, 2);
    assert_eq!(f.rtts_ns, vec![7, 9]);
    assert_eq!(f.outcome, TcpOutcome::Closed);
    assert_eq!(f.min_rtt_ns(), Some(7));
    assert_eq!(f.max_rtt_ns(), Some(9));
    assert!(probes[0].unwrap().reached_target());
    assert!(!probes[2].unwrap().reached_target());
}
