use peering_diag::geo::{detect_city_from_hops, detect_geo_detour, detect_geo_hint, detect_return_detour, hostname_has_code};
use peering_diag::types::Hop;

fn hop_named(ttl: u8, name: Option<&str>) -> Hop {
    let mut h = Hop::new(ttl);
    h.hostname = name.map(|s| s.to_string());
    h
}

fn hosts(names: &[&str]) -> Vec<Option<String>> {
    names.iter().map(|n| Some(n.to_string())).collect()
}

#[test]
fn codes_match_whole_labels_only() {
    assert!(hostname_has_code("ae1.fra2.example.net", "fra2"));
    assert!(hostname_has_code("be-fra-01", "fra"));
    assert!(hostname_has_code("x_ams_y", "ams"));
    assert!(!hostname_has_code("infra.example.net", "fra"));
    assert!(!hostname_has_code("france-telecom", "fra"));
    assert!(hostname_has_code("", ""));
}

#[test]
fn city_is_taken_from_the_last_named_hop() {
    let hops = vec![
        hop_named(1, Some("core1.PAR.example")),
        hop_named(2, Some("unknown.example")),
        hop_named(3, None),
    ];
    assert_eq!(detect_city_from_hops(&hops).as_deref(), Some("Paris"));
    let hops = vec![hop_named(1, Some("xe-0.lax1")), hop_named(2, Some("edge.nyc3"))];
    assert_eq!(detect_city_from_hops(&hops).as_deref(), Some("New York"));
    assert_eq!(detect_city_from_hops(&[]), None);
}

#[test]
fn keyword_order_decides_the_city() {
    // "njy" comes before "nyc" in the list.
    let hops = vec![hop_named(1, Some("njy-nyc.example"))];
    assert_eq!(detect_city_from_hops(&hops).as_deref(), Some("Newark"));
    let hops = vec![hop_named(1, Some("ae-ldn.example"))];
    assert_eq!(detect_geo_hint(&hops).as_deref(), Some("London"));
    assert_eq!(detect_city_from_hops(&hops), None);
}

#[test]
fn forward_detour_is_found() {
    let h = hosts(&["paris-1", "fra-2", "paris-3"]);
    assert_eq!(
        detect_geo_detour(&h),
        Some(("Paris".to_string(), "Frankfurt".to_string(), "Paris".to_string()))
    );
    let h = hosts(&["paris-1", "paris-2", "fra-3"]);
    assert_eq!(detect_geo_detour(&h), None);
}

#[test]
fn detours_need_whole_codes_on_both_paths() {
    let h = hosts(&["paris-1", "infra-2", "paris-3"]);
    assert_eq!(detect_geo_detour(&h), None);
    assert_eq!(detect_return_detour(&h), None);
    let h = hosts(&["ae1.paris.example.net", "core1.infra.example.net", "be2.paris.example.net"]);
    assert_eq!(detect_geo_detour(&h), None);
    let h = hosts(&["paris-1", "core.ams_2", "paris-3"]);
    assert_eq!(detect_geo_detour(&h), Some(("Paris".to_string(), "Amsterdam".to_string(), "Paris".to_string())));
    let h = hosts(&["paris-1", "x.fra.y", "paris-3"]);
    assert!(detect_return_detour(&h).is_some());
}
