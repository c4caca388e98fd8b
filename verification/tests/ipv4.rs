use magnum_tcp::error::MagnumError;
use magnum_tcp::ipv4::{build_packet, checksum, format_ip, parse_ip, Ipv4Packet, IPV4_MIN_HEADER_LEN, PROTO_ICMP, PROTO_TCP};

fn valid_ipv4_header(protocol: u8, payload_len: u16) -> Vec<u8> {
    let total_len = (IPV4_MIN_HEADER_LEN as u16) + payload_len;
    let mut hdr = vec![
        0x45, 0x00,
        (total_len >> 8) as u8, total_len as u8,
        0x00, 0x01,
        0x40, 0x00,
        0x40, protocol,
        0x00, 0x00,
        192, 168, 1, 1,
        10, 0, 0, 1,
    ];
    let csum = checksum(&hdr);
    hdr[10] = (csum >> 8) as u8;
    hdr[11] = csum as u8;
    hdr
}

#[test]
fn parses_valid_header() {
    let mut pkt = valid_ipv4_header(PROTO_TCP, 4);
    pkt.extend_from_slice(&[0xDE, 0xAD, 0xBE, 0xEF]);
    let parsed = Ipv4Packet::parse(&pkt).unwrap();
    assert_eq!(parsed.header.protocol, PROTO_TCP);
    assert_eq!(parsed.header.src, [192, 168, 1, 1]);
    assert_eq!(parsed.header.dst, [10, 0, 0, 1]);
    assert_eq!(parsed.payload, &[0xDE, 0xAD, 0xBE, 0xEF]);
}

#[test]
fn rejects_bad_checksum() {
    let mut pkt = valid_ipv4_header(PROTO_TCP, 0);
    pkt[10] ^= 0xFF;
    assert!(matches!(
        Ipv4Packet::parse(&pkt),
        Err(MagnumError::Ipv4ChecksumMismatch { .. })
    ));
}

#[test]
fn rejects_too_short() {
    let pkt = [0u8; 10];
    assert!(matches!(
        Ipv4Packet::parse(&pkt),
        Err(MagnumError::Ipv4HeaderTooShort { .. })
    ));
}

#[test]
fn rejects_small_ihl() {
    let mut pkt = valid_ipv4_header(PROTO_TCP, 0);
    pkt[0] = (pkt[0] & 0xF0) | 0x03;
    assert!(matches!(
        Ipv4Packet::parse(&pkt),
        Err(MagnumError::Ipv4IhlTooSmall(3))
    ));
}

#[test]
fn checksum_of_valid_header_is_zero() {
    let pkt = valid_ipv4_header(PROTO_ICMP, 0);
    assert_eq!(checksum(&pkt), 0);
}

#[test]
fn checksum_known_value() {
    let data: &[u8] = &[0x45, 0x00, 0x00, 0x3c, 0x1c, 0x46, 0x40, 0x00,
                         0x40, 0x06, 0x00, 0x00, 0xac, 0x10, 0x0a, 0x63,
                         0xac, 0x10, 0x0a, 0x0c];
    let csum = checksum(data);
    assert_eq!(checksum(&{
        let mut v = data.to_vec();
        v[10] = (csum >> 8) as u8;
        v[11] = csum as u8;
        v
    }), 0);
}

// ── building, addresses, refusals ─────────────────────────────────────────

#[test]
fn checksum_exact_values() {
    let header: &[u8] = &[
        0x45, 0x00, 0x00, 0x3c, 0x1c, 0x46, 0x40, 0x00, 0x40, 0x06, 0x00, 0x00, 0xac, 0x10, 0x0a,
        0x63, 0xac, 0x10, 0x0a, 0x0c,
    ];
    assert_eq!(checksum(header), 0xB1E6);
    assert_eq!(checksum(&[]), 0xFFFF);
    assert_eq!(checksum(&[0xFF, 0xFF]), 0);
    assert_eq!(checksum(&[0x12]), !0x1200);
    assert_eq!(checksum(&[0xFF, 0xFF, 0x00, 0x01]), !0x0001);
}

#[test]
fn built_packet_has_exact_bytes() {
    let pkt = build_packet([192, 168, 100, 2], [10, 0, 0, 1], PROTO_TCP, &[0xDE, 0xAD]);
    let mut expected = vec![
        0x45, 0, 0, 22, 0, 0, 0x40, 0, 64, 6, 0, 0, 192, 168, 100, 2, 10, 0, 0, 1,
    ];
    let csum = checksum(&expected);
    expected[10] = (csum >> 8) as u8;
    expected[11] = csum as u8;
    expected.extend_from_slice(&[0xDE, 0xAD]);
    assert_eq!(pkt, expected);
}

#[test]
fn built_packet_is_parsed_back_without_its_padding() {
    let mut pkt = build_packet([1, 2, 3, 4], [5, 6, 7, 8], PROTO_ICMP, b"payload");
    pkt.extend_from_slice(&[0; 9]);
    let parsed = Ipv4Packet::parse(&pkt).unwrap();
    assert_eq!(parsed.header.src, [1, 2, 3, 4]);
    assert_eq!(parsed.header.dst, [5, 6, 7, 8]);
    assert_eq!(parsed.header.protocol, PROTO_ICMP);
    assert_eq!(parsed.header.ihl, 5);
    assert_eq!(parsed.header.total_len, 27);
    assert_eq!(parsed.header.ttl, 64);
    assert_eq!(parsed.header.flags, 2);
    assert_eq!(parsed.header.frag_offset, 0);
    assert_eq!(parsed.payload, b"payload");
}

fn reseal(pkt: &mut [u8], header_len: usize) {
    pkt[10] = 0;
    pkt[11] = 0;
    let csum = checksum(&pkt[..header_len]);
    pkt[10] = (csum >> 8) as u8;
    pkt[11] = csum as u8;
}

#[test]
fn header_fields_are_taken_apart() {
    let mut pkt = valid_ipv4_header(17, 0);
    pkt[1] = 0xB8;
    pkt[6] = 0xA5;
    pkt[7] = 0x5A;
    reseal(&mut pkt, 20);
    let parsed = Ipv4Packet::parse(&pkt).unwrap();
    assert_eq!(parsed.header.dscp, 46);
    assert_eq!(parsed.header.id, 1);
    assert_eq!(parsed.header.flags, 5);
    assert_eq!(parsed.header.frag_offset, 0x055A);
}

#[test]
fn rejects_total_length_beyond_the_buffer() {
    let mut pkt = valid_ipv4_header(PROTO_TCP, 1);
    assert!(matches!(
        Ipv4Packet::parse(&pkt),
        Err(MagnumError::Ipv4TruncatedPacket { total_len: 21, buf_len: 20 })
    ));
    pkt.push(0);
    assert!(Ipv4Packet::parse(&pkt).is_ok());
}

#[test]
fn rejects_total_length_below_the_header() {
    let mut pkt = valid_ipv4_header(PROTO_TCP, 0);
    pkt[3] = 19;
    reseal(&mut pkt, 20);
    assert!(matches!(
        Ipv4Packet::parse(&pkt),
        Err(MagnumError::Ipv4TotalLenTooSmall { total_len: 19, header_len: 20 })
    ));
}

#[test]
fn options_count_as_header() {
    let mut pkt = valid_ipv4_header(PROTO_TCP, 0);
    pkt[0] = 0x46;
    assert!(matches!(
        Ipv4Packet::parse(&pkt),
        Err(MagnumError::Ipv4HeaderTooShort { got: 20, need: 24 })
    ));
    pkt.extend_from_slice(&[1, 1, 1, 0, 0xAB]);
    pkt[3] = 25;
    reseal(&mut pkt, 24);
    let parsed = Ipv4Packet::parse(&pkt).unwrap();
    assert_eq!(parsed.payload, &[0xAB]);
}

#[test]
fn addresses_as_text() {
    assert_eq!(format_ip(&[192, 168, 100, 2]), "192.168.100.2");
    assert_eq!(format_ip(&[0, 255, 10, 9]), "0.255.10.9");
    assert_eq!(parse_ip("192.168.100.2").unwrap(), [192, 168, 100, 2]);
    assert_eq!(parse_ip("+1.02.003.0").unwrap(), [1, 2, 3, 0]);
}

#[test]
fn every_octet_survives_as_text() {
    for n in 0..=255u8 {
        let addr = [n, 255 - n, n / 2, 7];
        assert_eq!(parse_ip(&format_ip(&addr)).unwrap(), addr);
    }
}

#[test]
fn wrong_addresses_are_refused_with_their_text() {
    for text in [
        "", "1.2.3", "1.2.3.4.5", "1.2.3.256", "1.2.3.", "1.2.3.x", "1.2.3.-1", "1.2.3.+", " 1.2.3.4",
        "1.2.3.99999999999999999999", "١.2.3.4",
    ] {
        match parse_ip(text) {
            Err(MagnumError::InvalidIp(refused)) => assert_eq!(refused, text),
            other => panic!("{text:?} gave {other:?}"),
        }
    }
}
