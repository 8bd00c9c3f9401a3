use peering_diag::lg::db::servers_for_asn;
use peering_diag::lg::engine::{
    destination_asn, lg_entries, location_candidates, manual_url, path_asns, target_country, ProbeLocation,
};
use peering_diag::types::{AsInfo, Hop};

fn hop_as(ttl: u8, asn: Option<u32>, country: Option<&str>) -> Hop {
    let mut h = Hop::new(ttl);
    h.as_info = asn.map(|a| AsInfo {
        asn: a,
        name: format!("NAME{}", a),
        country: country.map(|c| c.to_string()),
        prefix: None,
    });
    h
}

#[test]
fn as_path_is_deduplicated() {
    let hops = vec![hop_as(1, Some(3215), Some("FR")), hop_as(2, None, None), hop_as(3, Some(174), None), hop_as(4, Some(3215), None)];
    let path = path_asns(&hops);
    assert_eq!(path, vec![(3215, "NAME3215".to_string()), (174, "NAME174".to_string())]);
    assert_eq!(destination_asn(&path), Some(174));
    assert_eq!(destination_asn(&Vec::new()), None);
}

#[test]
fn country_of_last_as_that_has_one() {
    let hops = vec![hop_as(1, Some(1), Some("FR")), hop_as(2, Some(2), None)];
    assert_eq!(target_country(&hops), "FR");
    assert_eq!(target_country(&[hop_as(1, None, None)]), "US");
}

#[test]
fn probe_locations_in_order() {
    let locs = location_candidates(Some(174), Some("Paris"), "fr");
    assert_eq!(locs.len(), 3);
    assert!(matches!(locs[0], ProbeLocation::Asn(174)));
    assert!(matches!(&locs[1], ProbeLocation::City(c) if c == "Paris"));
    assert!(matches!(&locs[2], ProbeLocation::Country(c) if c == "FR"));
    let locs = location_candidates(None, None, "us");
    assert_eq!(locs.len(), 1);
}

#[test]
fn looking_glasses_with_reference_tier1() {
    let path = vec![(174, "Cogent".to_string()), (64512, "Private".to_string())];
    let entries = lg_entries(&path);
    assert_eq!(entries.len(), 2);
    assert_eq!(entries[0].asn, 174);
    assert!(!entries[0].is_reference);
    assert_eq!(entries[1].asn, 6939);
    assert!(entries[1].is_reference);
    assert_eq!(entries[1].label(), "AS6939 · Hurricane Electric (Tier-1 de référence)");
    assert_eq!(entries[0].label(), "AS174 · Cogent");
    let path = vec![(6939, "HE".to_string())];
    let entries = lg_entries(&path);
    assert_eq!(entries.len(), 1);
    assert!(!entries[0].is_reference);
}

#[test]
fn manual_url_of_a_server() {
    let cogent = servers_for_asn(174);
    assert_eq!(manual_url(&cogent[0], "1.2.3.4"), "http://lg.cogentco.com/");
}
