use peering_diag::types::IpAddress;
use peering_diag::web::geo::geo_skipped;

fn v4(a: u8, b: u8, c: u8, d: u8) -> Option<IpAddress> {
    Some(IpAddress::V4(u32::from_be_bytes([a, b, c, d])))
}

#[test]
fn private_and_local_addresses_are_not_geolocated() {
    assert!(geo_skipped(None));
    assert!(geo_skipped(v4(10, 1, 2, 3)));
    assert!(geo_skipped(v4(172, 16, 0, 1)));
    assert!(geo_skipped(v4(172, 31, 255, 255)));
    assert!(geo_skipped(v4(192, 168, 1, 1)));
    assert!(geo_skipped(v4(127, 0, 0, 1)));
    assert!(geo_skipped(v4(169, 254, 3, 4)));
    assert!(geo_skipped(v4(255, 255, 255, 255)));
    assert!(geo_skipped(Some(IpAddress::V6(1))));
    assert!(geo_skipped(Some(IpAddress::V6(0))));
}

#[test]
fn public_addresses_are_geolocated() {
    assert!(!geo_skipped(v4(8, 8, 8, 8)));
    assert!(!geo_skipped(v4(172, 32, 0, 1)));
    assert!(!geo_skipped(v4(100, 64, 0, 1)));
    assert!(!geo_skipped(v4(192, 0, 2, 1)));
    assert!(!geo_skipped(Some(IpAddress::V6(0x2001_4860_4860_0000_0000_0000_0000_8888))));
}
