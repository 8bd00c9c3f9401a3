use peering_diag::lg::globalping::{merge_raw_hops, RawHop};
use peering_diag::types::IpAddress;
use std::collections::BTreeMap;

fn hop(host: Option<&str>, ip: Option<IpAddress>, timings: Vec<u32>) -> RawHop<u32> {
    RawHop { host: host.map(|h| h.to_string()), ip, timings }
}

#[test]
fn round_lands_on_ttls_from_one() {
    let mut per_ttl: BTreeMap<u8, RawHop<u32>> = BTreeMap::new();
    merge_raw_hops(
        &mut per_ttl,
        vec![hop(Some("a"), None, vec![1]), hop(None, None, vec![]), hop(None, Some(IpAddress::V4(7)), vec![3, 4])],
    );
    let keys: Vec<u8> = per_ttl.keys().cloned().collect();
    assert_eq!(keys, vec![1, 2, 3]);
    assert_eq!(per_ttl[&1].host.as_deref(), Some("a"));
    assert_eq!(per_ttl[&1].timings, vec![1]);
    assert!(per_ttl[&2].timings.is_empty());
    assert_eq!(per_ttl[&3].ip, Some(IpAddress::V4(7)));
    assert_eq!(per_ttl[&3].timings, vec![3, 4]);
}

#[test]
fn later_rounds_keep_first_names_and_append_timings() {
    let mut per_ttl: BTreeMap<u8, RawHop<u32>> = BTreeMap::new();
    merge_raw_hops(&mut per_ttl, vec![hop(None, Some(IpAddress::V4(1)), vec![10]), hop(Some("r2"), None, vec![20])]);
    merge_raw_hops(
        &mut per_ttl,
        vec![
            hop(Some("r1"), Some(IpAddress::V4(9)), vec![11, 12]),
            hop(Some("other"), Some(IpAddress::V4(2)), vec![]),
            hop(None, None, vec![30]),
        ],
    );
    assert_eq!(per_ttl.len(), 3);
    assert_eq!(per_ttl[&1].host.as_deref(), Some("r1"));
    assert_eq!(per_ttl[&1].ip, Some(IpAddress::V4(1)));
    assert_eq!(per_ttl[&1].timings, vec![10, 11, 12]);
    assert_eq!(per_ttl[&2].host.as_deref(), Some("r2"));
    assert_eq!(per_ttl[&2].ip, Some(IpAddress::V4(2)));
    assert_eq!(per_ttl[&2].timings, vec![20]);
    assert_eq!(per_ttl[&3].timings, vec![30]);
}

#[test]
fn ttl_wraps_after_255_hops() {
    let mut per_ttl: BTreeMap<u8, RawHop<u32>> = BTreeMap::new();
    let round: Vec<RawHop<u32>> = (0..257u32).map(|i| hop(None, None, vec![i])).collect();
    merge_raw_hops(&mut per_ttl, round);
    assert_eq!(per_ttl.len(), 256);
    assert_eq!(per_ttl[&0].timings, vec![255]);
    assert_eq!(per_ttl[&1].timings, vec![0, 256]);
    assert_eq!(per_ttl[&255].timings, vec![254]);
}
