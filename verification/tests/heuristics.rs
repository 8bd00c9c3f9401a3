use peering_diag::mtr::heuristics::{
    find_degradation, find_degradation_point, flag_icmp_ratelimiting, is_bufferbloated, DegradationType,
};
use peering_diag::types::Hop;

const MS: u64 = 1_000_000;

fn make_hop(ttl: u8, sent: u32, received: u32) -> Hop {
    let mut h = Hop::new(ttl);
    h.sent = sent;
    h.received = received;
    for i in 0..received {
        h.rtt_samples.push((10 + i as u64) * MS);
    }
    h
}

fn make_hop_with_rtt(ttl: u8, sent: u32, received: u32, rtt_ms: u64) -> Hop {
    let mut h = Hop::new(ttl);
    h.sent = sent;
    h.received = received;
    for _ in 0..received {
        h.rtt_samples.push(rtt_ms * MS);
    }
    h
}

#[test]
fn test_icmp_ratelimit_detection() {
    let mut hops = vec![make_hop(1, 100, 100), make_hop(2, 100, 50), make_hop(3, 100, 100)];
    flag_icmp_ratelimiting(&mut hops);
    assert!(hops[1].suspected_icmp_ratelimit);
    assert!(!hops[0].suspected_icmp_ratelimit);
    assert!(!hops[2].suspected_icmp_ratelimit);
}

#[test]
fn test_train_of_ratelimited_hops() {
    let mut hops = vec![
        make_hop(1, 100, 100),
        make_hop(2, 100, 20),
        make_hop(3, 100, 20),
        make_hop(4, 100, 20),
        make_hop(5, 100, 100),
    ];
    flag_icmp_ratelimiting(&mut hops);
    assert!(hops[1].suspected_icmp_ratelimit);
    assert!(hops[2].suspected_icmp_ratelimit);
    assert!(hops[3].suspected_icmp_ratelimit);
    assert!(!hops[4].suspected_icmp_ratelimit);
}

#[test]
fn test_real_loss_at_end() {
    let mut hops = vec![make_hop(1, 100, 100), make_hop(2, 100, 90), make_hop(3, 100, 90)];
    flag_icmp_ratelimiting(&mut hops);
    assert!(!hops[1].suspected_icmp_ratelimit);
}

#[test]
fn test_latency_jump_not_congestion() {
    let hops = vec![
        make_hop_with_rtt(1, 100, 100, 2),
        make_hop_with_rtt(2, 100, 100, 10),
        make_hop_with_rtt(3, 100, 100, 90),
        make_hop_with_rtt(4, 100, 100, 92),
    ];
    let degradation = find_degradation(&hops).expect("should detect a degradation");
    assert_eq!(degradation.degradation_type, DegradationType::LatencyJump);
}

#[test]
fn test_congestion_detected() {
    let mut hops = vec![
        make_hop_with_rtt(1, 100, 100, 2),
        make_hop_with_rtt(2, 100, 100, 10),
        make_hop_with_rtt(3, 100, 80, 90),
        make_hop_with_rtt(4, 100, 80, 92),
    ];
    flag_icmp_ratelimiting(&mut hops);
    let degradation = find_degradation(&hops).expect("should detect");
    assert_eq!(degradation.degradation_type, DegradationType::Congestion);
}

#[test]
fn test_empty_slice_no_panic() {
    let mut hops: Vec<Hop> = vec![];
    flag_icmp_ratelimiting(&mut hops);
    assert!(find_degradation(&hops).is_none());
}

#[test]
fn test_single_hop_no_degradation() {
    let hops = vec![make_hop_with_rtt(1, 100, 100, 10)];
    assert!(find_degradation(&hops).is_none());
}

#[test]
fn test_stable_path_no_degradation() {
    let hops = vec![
        make_hop_with_rtt(1, 100, 100, 5),
        make_hop_with_rtt(2, 100, 100, 8),
        make_hop_with_rtt(3, 100, 100, 12),
        make_hop_with_rtt(4, 100, 100, 15),
    ];
    assert!(find_degradation(&hops).is_none());
}

#[test]
fn test_pure_packet_loss_without_rtt_jump() {
    let mut hops = vec![
        make_hop_with_rtt(1, 100, 100, 10),
        make_hop_with_rtt(2, 100, 100, 12),
        make_hop_with_rtt(3, 100, 50, 13),
        make_hop_with_rtt(4, 100, 50, 14),
        make_hop_with_rtt(5, 100, 50, 15),
    ];
    flag_icmp_ratelimiting(&mut hops);
    let d = find_degradation(&hops).expect("doit détecter une dégradation");
    assert_eq!(d.degradation_type, DegradationType::PacketLoss);
}

#[test]
fn test_is_bufferbloated_true() {
    let mut h = Hop::new(1);
    h.sent = 10;
    h.received = 10;
    h.rtt_samples.push(20 * MS);
    h.rtt_samples.push(200 * MS);
    assert!(is_bufferbloated(&h));
}

#[test]
fn test_is_bufferbloated_false_rtt_too_low() {
    let mut h = Hop::new(1);
    h.sent = 10;
    h.received = 10;
    h.rtt_samples.push(MS);
    h.rtt_samples.push(200 * MS);
    assert!(!is_bufferbloated(&h));
}

#[test]
fn test_is_bufferbloated_false_small_jump() {
    let mut h = Hop::new(1);
    h.sent = 10;
    h.received = 10;
    h.rtt_samples.push(20 * MS);
    h.rtt_samples.push(50 * MS);
    assert!(!is_bufferbloated(&h));
}

#[test]
fn test_find_degradation_skips_timeout_hops() {
    let mut hops = vec![
        make_hop_with_rtt(1, 100, 100, 10),
        make_hop(2, 100, 0),
        make_hop_with_rtt(3, 100, 100, 90),
        make_hop_with_rtt(4, 100, 100, 92),
    ];
    flag_icmp_ratelimiting(&mut hops);
    let d = find_degradation(&hops).expect("doit détecter un bond de latence");
    assert_eq!(d.degradation_type, DegradationType::LatencyJump);
    assert_eq!(d.hop_index, 2);
}

#[test]
fn flagging_twice_changes_nothing() {
    let mut hops = vec![make_hop(1, 100, 100), make_hop(2, 100, 50), make_hop(3, 100, 100)];
    flag_icmp_ratelimiting(&mut hops);
    let first: Vec<bool> = hops.iter().map(|h| h.suspected_icmp_ratelimit).collect();
    flag_icmp_ratelimiting(&mut hops);
    let second: Vec<bool> = hops.iter().map(|h| h.suspected_icmp_ratelimit).collect();
    assert_eq!(first, second);
}

#[test]
fn degradation_point_is_index_of_degradation() {
    let hops = vec![
        make_hop_with_rtt(1, 100, 100, 2),
        make_hop_with_rtt(2, 100, 100, 10),
        make_hop_with_rtt(3, 100, 100, 90),
    ];
    assert_eq!(find_degradation_point(&hops), Some(2));
    let d = find_degradation(&hops).unwrap();
    assert_eq!(d.rtt_jump_ns, 80 * MS as i128);
}

#[test]
fn no_flag_on_the_last_hop() {
    let mut hops = vec![make_hop(1, 100, 100), make_hop(2, 100, 10)];
    flag_icmp_ratelimiting(&mut hops);
    assert!(!hops[1].suspected_icmp_ratelimit);
}
