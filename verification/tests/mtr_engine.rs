use peering_diag::mtr::engine::{probe_sequence, unique_primary_ips, MtrAggregate, ProbeObservation};
use peering_diag::types::{Hop, IpAddress};

fn obs(ip: Option<u32>, rtt: Option<u64>, reached: bool) -> ProbeObservation {
    ProbeObservation { responder: ip.map(IpAddress::V4), rtt, reached_target: reached }
}

#[test]
fn rounds_shrink_to_the_target() {
    let mut a = MtrAggregate::new(5);
    assert_eq!(a.round_ttls(), vec![1, 2, 3, 4, 5]);
    a.record(1, obs(Some(1), Some(100), false));
    a.record(3, obs(Some(9), Some(300), true));
    assert_eq!(a.max_useful_ttl, 3);
    assert_eq!(a.round_ttls(), vec![1, 2, 3]);
    a.record(2, obs(None, None, false));
    a.record(5, obs(Some(9), Some(400), true));
    assert_eq!(a.max_useful_ttl, 3);
}

#[test]
fn hops_list_ips_by_decreasing_count() {
    let mut a = MtrAggregate::new(3);
    a.record(1, obs(Some(1), Some(10), false));
    a.record(2, obs(Some(20), Some(20), false));
    a.record(2, obs(Some(21), Some(21), false));
    a.record(2, obs(Some(21), None, false));
    a.record(2, obs(None, None, false));
    let hops = a.finish();
    assert_eq!(hops.len(), 2);
    assert_eq!(hops[0].ttl, 1);
    assert_eq!(hops[1].ttl, 2);
    assert_eq!(hops[1].sent, 4);
    assert_eq!(hops[1].received, 3);
    assert_eq!(hops[1].rtt_samples, vec![20, 21]);
    assert_eq!(hops[1].ips_seen, vec![IpAddress::V4(21), IpAddress::V4(20)]);
    assert_eq!(hops[1].primary_ip, Some(IpAddress::V4(21)));
}

#[test]
fn unprobed_and_useless_ttls_are_dropped() {
    let mut a = MtrAggregate::new(4);
    a.record(2, obs(Some(2), Some(1), true));
    a.record(4, obs(Some(2), Some(1), false));
    let hops = a.finish();
    assert_eq!(hops.len(), 1);
    assert_eq!(hops[0].ttl, 2);
}

#[test]
fn sequence_numbers_wrap_at_16_bits() {
    assert_eq!(probe_sequence(3, 2), 3002);
    assert_eq!(probe_sequence(70, 0), (70_000 % 65_536) as u16);
}

#[test]
fn primary_ips_are_deduplicated_in_order() {
    let mut h1 = Hop::new(1);
    h1.primary_ip = Some(IpAddress::V4(5));
    let h2 = Hop::new(2);
    let mut h3 = Hop::new(3);
    h3.primary_ip = Some(IpAddress::V4(6));
    let mut h4 = Hop::new(4);
    h4.primary_ip = Some(IpAddress::V4(5));
    assert_eq!(unique_primary_ips(&[h1, h2, h3, h4]), vec![IpAddress::V4(5), IpAddress::V4(6)]);
}
