use magnum_tcp::error::MagnumError;
use magnum_tcp::ethernet::{EthernetFrame, ETHERNET_HEADER_LEN, ETHERTYPE_IPV4};

fn make_frame(ethertype: u16, payload: &[u8]) -> Vec<u8> {
    let mut frame = vec![0u8; ETHERNET_HEADER_LEN + payload.len()];
    frame[12] = (ethertype >> 8) as u8;
    frame[13] = ethertype as u8;
    frame[ETHERNET_HEADER_LEN..].copy_from_slice(payload);
    frame
}

#[test]
fn accepts_ipv4() {
    let frame = make_frame(ETHERTYPE_IPV4, &[0xDE, 0xAD]);
    let parsed = EthernetFrame::parse(&frame).unwrap();
    assert_eq!(parsed.ethertype, ETHERTYPE_IPV4);
    assert_eq!(parsed.payload, &[0xDE, 0xAD]);
}

#[test]
fn drops_arp() {
    let frame = make_frame(0x0806, &[]);
    assert!(matches!(
        EthernetFrame::parse(&frame),
        Err(MagnumError::NonIpv4EtherType(0x0806))
    ));
}

#[test]
fn drops_ipv6() {
    let frame = make_frame(0x86DD, &[]);
    assert!(matches!(
        EthernetFrame::parse(&frame),
        Err(MagnumError::NonIpv4EtherType(0x86DD))
    ));
}

#[test]
fn too_short() {
    let frame = [0u8; 10];
    assert!(matches!(
        EthernetFrame::parse(&frame),
        Err(MagnumError::EthernetFrameTooShort { .. })
    ));
}

#[test]
fn built_frame_is_parsed_back() {
    let dst = [1, 2, 3, 4, 5, 6];
    let src = [0xA, 0xB, 0xC, 0xD, 0xE, 0xF];
    let frame = EthernetFrame::build(dst, src, b"ip packet");
    assert_eq!(&frame[..14], &[1, 2, 3, 4, 5, 6, 0xA, 0xB, 0xC, 0xD, 0xE, 0xF, 8, 0]);
    let parsed = EthernetFrame::parse(&frame).unwrap();
    assert_eq!(parsed.dst_mac, dst);
    assert_eq!(parsed.src_mac, src);
    assert_eq!(parsed.payload, b"ip packet");
}

#[test]
fn frame_needs_its_whole_header() {
    assert!(matches!(
        EthernetFrame::parse(&[0; 13]),
        Err(MagnumError::EthernetFrameTooShort { got: 13, need: 14 })
    ));
    assert!(EthernetFrame::parse(&make_frame(ETHERTYPE_IPV4, &[])).unwrap().payload.is_empty());
}
