use peering_diag::asn::{is_private_or_special, parse_cymru_response, plan_bulk_lookup, IpInfoResponse};
use peering_diag::types::IpAddress;

fn info(org: Option<&str>, country: Option<&str>) -> IpInfoResponse {
    IpInfoResponse { org: org.map(|s| s.to_string()), country: country.map(|s| s.to_string()) }
}

#[test]
fn ipinfo_org_gives_the_as() {
    let a = info(Some("AS24940 Hetzner Online GmbH"), Some("DE")).into_as_info().unwrap();
    assert_eq!(a.asn, 24940);
    assert_eq!(a.name, "Hetzner Online GmbH");
    assert_eq!(a.country.as_deref(), Some("DE"));
    assert_eq!(a.prefix, None);
}

#[test]
fn ipinfo_without_as_gives_nothing() {
    assert!(info(None, Some("DE")).into_as_info().is_none());
    assert!(info(Some("Hetzner"), None).into_as_info().is_none());
    assert!(info(Some("ASxyz name"), None).into_as_info().is_none());
    let a = info(Some("AS13335"), None).into_as_info().unwrap();
    assert_eq!(a.asn, 13335);
    assert_eq!(a.name, "");
    let a = info(Some("AS1  padded name  "), None).into_as_info().unwrap();
    assert_eq!(a.name, "padded name");
}

fn v4(a: u8, b: u8, c: u8, d: u8) -> IpAddress {
    IpAddress::V4(u32::from_be_bytes([a, b, c, d]))
}

#[test]
fn special_addresses_are_not_looked_up() {
    assert!(is_private_or_special(&v4(10, 1, 2, 3)));
    assert!(is_private_or_special(&v4(172, 16, 0, 1)));
    assert!(!is_private_or_special(&v4(172, 32, 0, 1)));
    assert!(is_private_or_special(&v4(192, 168, 1, 1)));
    assert!(is_private_or_special(&v4(127, 0, 0, 1)));
    assert!(is_private_or_special(&v4(169, 254, 9, 9)));
    assert!(is_private_or_special(&v4(255, 255, 255, 255)));
    assert!(is_private_or_special(&v4(203, 0, 113, 7)));
    assert!(is_private_or_special(&v4(0, 0, 0, 0)));
    assert!(is_private_or_special(&v4(100, 64, 0, 1)));
    assert!(!is_private_or_special(&v4(100, 128, 0, 1)));
    assert!(!is_private_or_special(&v4(8, 8, 8, 8)));
    assert!(is_private_or_special(&IpAddress::V6(1)));
    assert!(is_private_or_special(&IpAddress::V6(0xff02 << 112)));
    assert!(!is_private_or_special(&IpAddress::V6(0x2001 << 112)));
}

#[test]
fn cymru_answer_is_read_line_by_line() {
    let answer = "Bulk mode; whois.cymru.com [2024-01-01]\n\
AS      | IP               | BGP Prefix          | CC | Registry | Allocated  | AS Name\n\
1299    | 62.115.0.1       | 62.115.0.0/16       | SE | ripencc  | 1999-01-01 | ARELION-AS, SE\r\n\
NA      | 10.0.0.1         | NA                  |    |          |            | NA\n\
15169   | 8.8.8.8          | NA                  | NA | arin     | 2000-03-30 | GOOGLE, US\n\
short | line\n";
    let recs = parse_cymru_response(answer);
    assert_eq!(recs.len(), 2);
    assert_eq!(recs[0].ip_text, "62.115.0.1");
    assert_eq!(recs[0].info.asn, 1299);
    assert_eq!(recs[0].info.name, "ARELION-AS, SE");
    assert_eq!(recs[0].info.country.as_deref(), Some("SE"));
    assert_eq!(recs[0].info.prefix.as_deref(), Some("62.115.0.0/16"));
    assert_eq!(recs[1].info.asn, 15169);
    assert_eq!(recs[1].info.country, None);
    assert_eq!(recs[1].info.prefix, None);
}

#[test]
fn bulk_lookup_answers_special_addresses_without_a_query() {
    let ips = vec![IpAddress::V4(0x0a000001), IpAddress::V4(0x08080808), IpAddress::V4(0xc0a80101), IpAddress::V4(0x01010101)];
    let plan = plan_bulk_lookup(&ips);
    assert_eq!(plan.answered_none, vec![IpAddress::V4(0x0a000001), IpAddress::V4(0xc0a80101)]);
    assert_eq!(plan.to_look_up, vec![IpAddress::V4(0x08080808), IpAddress::V4(0x01010101)]);
}
