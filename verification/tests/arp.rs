use magnum_tcp::arp::{build_arp_reply_frame, parse_arp_request, ARP_FRAME_LEN};
use magnum_tcp::ethernet::ETHERNET_HEADER_LEN;

const HTYPE_ETHERNET: [u8; 2] = [0x00, 0x01];
const PTYPE_IPV4: [u8; 2] = [0x08, 0x00];
const HLEN_MAC: u8 = 6;
const PLEN_IP: u8 = 4;
const OPER_REQUEST: [u8; 2] = [0x00, 0x01];
const OPER_REPLY: [u8; 2] = [0x00, 0x02];
const ETHERTYPE_ARP: [u8; 2] = [0x08, 0x06];

fn make_arp_request_frame(
    sender_mac: [u8; 6],
    sender_ip: [u8; 4],
    target_ip: [u8; 4],
) -> Vec<u8> {
    let mut frame = vec![0u8; ARP_FRAME_LEN];
    frame[12..14].copy_from_slice(&ETHERTYPE_ARP);
    let arp = &mut frame[ETHERNET_HEADER_LEN..];
    arp[0..2].copy_from_slice(&HTYPE_ETHERNET);
    arp[2..4].copy_from_slice(&PTYPE_IPV4);
    arp[4] = HLEN_MAC;
    arp[5] = PLEN_IP;
    arp[6..8].copy_from_slice(&OPER_REQUEST);
    arp[8..14].copy_from_slice(&sender_mac);
    arp[14..18].copy_from_slice(&sender_ip);
    arp[24..28].copy_from_slice(&target_ip);
    frame
}

#[test]
fn parse_valid_arp_request() {
    let mac = [0xaa, 0xbb, 0xcc, 0xdd, 0xee, 0xff];
    let sender_ip = [10, 0, 0, 1];
    let target_ip = [192, 168, 100, 2];
    let frame = make_arp_request_frame(mac, sender_ip, target_ip);
    let req = parse_arp_request(&frame).unwrap();
    assert_eq!(req.sender_mac, mac);
    assert_eq!(req.sender_ip, sender_ip);
    assert_eq!(req.target_ip, target_ip);
}

#[test]
fn reject_arp_reply_as_not_request() {
    let mut frame = make_arp_request_frame([0u8; 6], [0u8; 4], [0u8; 4]);
    frame[ETHERNET_HEADER_LEN + 6..ETHERNET_HEADER_LEN + 8].copy_from_slice(&OPER_REPLY);
    assert!(parse_arp_request(&frame).is_none());
}

#[test]
fn arp_reply_frame_has_correct_fields() {
    let our_mac = [0x0a, 0xb1, 0xe9, 0x00, 0x00, 0x01];
    let our_ip = [192, 168, 100, 2];
    let req_mac = [0xaa, 0xbb, 0xcc, 0xdd, 0xee, 0xff];
    let req_ip = [10, 0, 0, 1];

    let reply = build_arp_reply_frame(our_mac, our_ip, req_mac, req_ip);

    assert_eq!(reply.len(), ARP_FRAME_LEN);
    assert_eq!(&reply[0..6], &req_mac);
    assert_eq!(&reply[6..12], &our_mac);
    assert_eq!(&reply[12..14], &ETHERTYPE_ARP);

    let arp = &reply[ETHERNET_HEADER_LEN..];
    assert_eq!(&arp[6..8], &OPER_REPLY);
    assert_eq!(&arp[8..14], &our_mac);
    assert_eq!(&arp[14..18], &our_ip);
    assert_eq!(&arp[18..24], &req_mac);
    assert_eq!(&arp[24..28], &req_ip);
}

#[test]
fn other_hardware_or_protocols_are_no_requests() {
    let good = make_arp_request_frame([1; 6], [2; 4], [3; 4]);
    for at in [14, 15, 16, 17, 18, 19, 20, 21] {
        let mut frame = good.clone();
        frame[at] ^= 0x40;
        assert!(parse_arp_request(&frame).is_none(), "byte {at}");
    }
    assert!(parse_arp_request(&good[..41]).is_none());
    assert!(parse_arp_request(&good).is_some());
}
