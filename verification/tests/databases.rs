use peering_diag::lg::db::{auto_servers, lg_db, servers_for_asn, QueryMethod};
use peering_diag::speedtest::tier1_db::{get_endpoints_for_asn, get_endpoints_index, get_known_endpoints, MeasureMethod};

#[test]
fn servers_for_asn_keeps_base_order() {
    let he = servers_for_asn(6939);
    assert_eq!(he.len(), 2);
    assert_eq!(he[0].node, "Frankfurt / Amsterdam / London");
    assert_eq!(he[1].node, "New York / Los Angeles");
    assert!(servers_for_asn(64512).is_empty());
    assert!(servers_for_asn(174).iter().all(|s| s.asn == 174));
}

#[test]
fn no_server_is_queried_automatically() {
    assert!(auto_servers().is_empty());
    assert!(lg_db().iter().all(|s| matches!(s.method, QueryMethod::Manual { .. })));
    assert_eq!(lg_db().len(), 13);
}

#[test]
fn labels_and_ranks() {
    assert_eq!(MeasureMethod::SpeedtestDirect.label(), "direct");
    assert_eq!(MeasureMethod::SpeedtestGeo.label(), "géo");
    assert_eq!(MeasureMethod::SpeedtestDirect.reliability_rank(), 1);
    assert_eq!(MeasureMethod::Proxy.reliability_rank(), 6);
}

#[test]
fn endpoints_for_asn_are_sorted_by_reliability() {
    let cogent = get_endpoints_for_asn(174);
    assert_eq!(cogent.len(), 2);
    assert_eq!(cogent[0].method, MeasureMethod::SpeedtestTier1Db);
    assert_eq!(cogent[1].method, MeasureMethod::Iperf3);
    let tata = get_endpoints_for_asn(6453);
    assert_eq!(tata[0].method, MeasureMethod::Iperf3);
    assert_eq!(tata[1].method, MeasureMethod::HttpDownload);
    let he = get_endpoints_for_asn(6939);
    let locations: Vec<&str> = he.iter().map(|e| e.location).collect();
    assert_eq!(locations, vec!["Fremont, US", "New York, US", "Paris, FR"]);
    assert!(get_endpoints_for_asn(1).is_empty());
}

#[test]
fn index_matches_per_asn_lookup() {
    let index = get_endpoints_index();
    let all = get_known_endpoints();
    assert_eq!(all.len(), 21);
    for e in &all {
        let listed = index.get(&e.asn).expect("every ASN of the base is indexed");
        let direct = get_endpoints_for_asn(e.asn);
        assert_eq!(listed.len(), direct.len());
        for (a, b) in listed.iter().zip(direct.iter()) {
            assert_eq!(a.endpoint, b.endpoint);
            assert_eq!(a.method, b.method);
        }
    }
    assert!(index.get(&1).is_none());
}

#[test]
fn every_endpoint_has_the_form_of_its_method() {
    for e in get_known_endpoints() {
        match e.method {
            MeasureMethod::SpeedtestTier1Db => assert!(e.endpoint.parse::<u32>().is_ok(), "{}", e.endpoint),
            MeasureMethod::Iperf3 => {
                let (host, port) = e.endpoint.rsplit_once(':').expect("host:port");
                assert!(!host.is_empty());
                assert!(port.parse::<u16>().is_ok());
            }
            MeasureMethod::HttpDownload => {
                assert!(e.endpoint.starts_with("http://") || e.endpoint.starts_with("https://"))
            }
            other => panic!("unexpected method {:?}", other),
        }
    }
}

#[test]
fn per_asn_lists_are_a_stable_sort_and_the_index_covers_the_base_once() {
    let all = get_known_endpoints();
    let index = get_endpoints_index();
    let mut covered = 0;
    for (asn, list) in &index {
        let mut expected: Vec<_> = all.iter().filter(|e| e.asn == *asn).copied().collect();
        expected.sort_by_key(|e| e.method.reliability_rank());
        let got: Vec<(&str, u8)> = get_endpoints_for_asn(*asn).iter().map(|e| (e.endpoint, e.method.reliability_rank())).collect();
        let want: Vec<(&str, u8)> = expected.iter().map(|e| (e.endpoint, e.method.reliability_rank())).collect();
        assert_eq!(got, want);
        assert_eq!(list.len(), want.len());
        covered += list.len();
    }
    assert_eq!(covered, all.len());
}
