use peering_diag::mtr::probe::{build_icmp_echo_request, icmp_checksum, parse_icmp_response, ProbeReply};

#[test]
fn test_checksum_known_value() {
    let mut p = vec![8u8, 0, 0, 0, 0, 1, 0, 1];
    let c = icmp_checksum(&p);
    p[2] = (c >> 8) as u8;
    p[3] = (c & 0xff) as u8;
    assert_eq!(icmp_checksum(&p), 0);
}

#[test]
fn test_build_echo_request_format() {
    let p = build_icmp_echo_request(0x1234, 0x5678, 32);
    assert_eq!(p.len(), 8 + 32);
    assert_eq!(p[0], 8);
    assert_eq!(p[1], 0);
    assert_eq!(u16::from_be_bytes([p[4], p[5]]), 0x1234);
    assert_eq!(u16::from_be_bytes([p[6], p[7]]), 0x5678);
}

#[test]
fn checksum_of_known_header() {
    // 0x0800 + 0x0001 + 0x0001 = 0x0802, complemented: 0xf7fd.
    assert_eq!(icmp_checksum(&[8, 0, 0, 0, 0, 1, 0, 1]), 0xf7fd);
    // An odd length pads the last byte with zero.
    assert_eq!(icmp_checksum(&[0x01]), !0x0100u16);
    assert_eq!(icmp_checksum(&[]), 0xffff);
}

#[test]
fn built_request_checks_to_zero() {
    let p = build_icmp_echo_request(7, 9, 56);
    assert_eq!(icmp_checksum(&p), 0);
    assert!(p[8..].iter().enumerate().all(|(i, b)| *b == (i % 256) as u8));
}

fn ipv4_header() -> Vec<u8> {
    let mut h = vec![0u8; 20];
    h[0] = 0x45;
    h
}

#[test]
fn parses_echo_reply() {
    let mut d = ipv4_header();
    d.extend_from_slice(&[0, 0, 0, 0, 0x12, 0x34, 0x56, 0x78]);
    assert_eq!(parse_icmp_response(&d, 0x1234, 0x5678), Some(ProbeReply::EchoReply));
    assert_eq!(parse_icmp_response(&d, 0x1234, 0x5679), Some(ProbeReply::NotForUs));
}

#[test]
fn parses_time_exceeded_with_inner_packet() {
    let mut d = ipv4_header();
    d.extend_from_slice(&[11, 0, 0, 0, 0, 0, 0, 0]);
    d.extend_from_slice(&ipv4_header());
    d.extend_from_slice(&[8, 0, 0, 0, 0xab, 0xcd, 0x00, 0x01]);
    assert_eq!(parse_icmp_response(&d, 0xabcd, 1), Some(ProbeReply::TimeExceeded));
    assert_eq!(parse_icmp_response(&d, 0xabce, 1), Some(ProbeReply::NotForUs));
}

#[test]
fn too_short_packet_is_rejected() {
    assert_eq!(parse_icmp_response(&[0x45, 0, 0], 1, 1), None);
}

#[test]
fn bare_icmp_echo_reply_of_forty_bytes_is_found_at_offset_zero() {
    let mut d: Vec<u8> = vec![0, 0, 0, 0, 0x12, 0x34, 0x56, 0x78];
    d.extend(0u8..32);
    assert_eq!(parse_icmp_response(&d, 0x1234, 0x5678), Some(ProbeReply::EchoReply));
    assert_eq!(parse_icmp_response(&d, 0x1234, 0x5679), Some(ProbeReply::NotForUs));
}

#[test]
fn checksum_written_at_an_even_offset_verifies() {
    let mut d: Vec<u8> = vec![0x45, 0x10, 0x00, 0x3c, 0x1c, 0x46, 0x00, 0x00, 0x40, 0x06, 0xac, 0x10, 0x0a, 0x63, 0x0b];
    let c = icmp_checksum(&d);
    d[6] = (c >> 8) as u8;
    d[7] = (c & 0xff) as u8;
    assert_eq!(icmp_checksum(&d), 0);
}
