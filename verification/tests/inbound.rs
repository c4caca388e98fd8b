use magnum_tcp::error::MagnumError;
use magnum_tcp::ethernet::EthernetFrame;
use magnum_tcp::inbound::{frame_outbound, inspect_frame, inspect_packet, packet_outbound, Inbound};
use magnum_tcp::ipv4::build_packet;
use magnum_tcp::tcp::header::{SegmentBuilder, TcpFlags};
use magnum_tcp::tcp::task::OutboundMsg;

const OUR_IP: [u8; 4] = [192, 168, 100, 2];
const OUR_MAC: [u8; 6] = [0x0a, 0xb1, 0xe9, 0, 0, 1];
const THEIR_IP: [u8; 4] = [192, 168, 100, 1];
const THEIR_MAC: [u8; 6] = [9, 8, 7, 6, 5, 4];

fn who_has(target: [u8; 4]) -> Vec<u8> {
    let mut frame = vec![0xFF; 6];
    frame.extend_from_slice(&THEIR_MAC);
    frame.extend_from_slice(&[8, 6, 0, 1, 8, 0, 6, 4, 0, 1]);
    frame.extend_from_slice(&THEIR_MAC);
    frame.extend_from_slice(&THEIR_IP);
    frame.extend_from_slice(&[0; 6]);
    frame.extend_from_slice(&target);
    frame
}

fn message(tcp_bytes: Vec<u8>) -> OutboundMsg {
    OutboundMsg {
        src_ip: THEIR_IP,
        dst_ip: OUR_IP,
        tcp_bytes,
        ether_src: THEIR_MAC,
        ether_dst: OUR_MAC,
    }
}

#[test]
fn request_for_our_address_is_answered() {
    let reply = match inspect_frame(&who_has(OUR_IP), OUR_IP, OUR_MAC) {
        Inbound::ArpReply(reply) => reply,
        _ => panic!("no reply"),
    };
    let mut expected = THEIR_MAC.to_vec();
    expected.extend_from_slice(&OUR_MAC);
    expected.extend_from_slice(&[8, 6, 0, 1, 8, 0, 6, 4, 0, 2]);
    expected.extend_from_slice(&OUR_MAC);
    expected.extend_from_slice(&OUR_IP);
    expected.extend_from_slice(&THEIR_MAC);
    expected.extend_from_slice(&THEIR_IP);
    assert_eq!(reply, expected);
    assert!(matches!(inspect_frame(&reply, THEIR_IP, THEIR_MAC), Inbound::ArpIgnored));
}

#[test]
fn request_for_another_address_is_ignored() {
    assert!(matches!(
        inspect_frame(&who_has([192, 168, 100, 3]), OUR_IP, OUR_MAC),
        Inbound::ArpIgnored
    ));
}

#[test]
fn outgoing_frame_is_understood_by_the_other_end() {
    let bytes = SegmentBuilder::new(THEIR_IP, OUR_IP, 1234, 80)
        .seq(5)
        .ack(6)
        .flags(TcpFlags { ack: true, psh: true, ..TcpFlags::default() })
        .payload(b"hello")
        .build();
    let framed = frame_outbound(&message(bytes));
    match inspect_frame(&framed, OUR_IP, OUR_MAC) {
        Inbound::Tcp { src, dst, dst_mac, src_mac, segment } => {
            assert_eq!((src, dst), (THEIR_IP, OUR_IP));
            assert_eq!((dst_mac, src_mac), (OUR_MAC, THEIR_MAC));
            assert_eq!((segment.header.src_port, segment.header.dst_port), (1234, 80));
            assert_eq!((segment.header.seq, segment.header.ack_num), (5, 6));
            assert_eq!(segment.payload, b"hello");
        }
        _ => panic!("no segment"),
    }
}

#[test]
fn outgoing_packet_is_the_frame_without_its_header() {
    let bytes = SegmentBuilder::new(THEIR_IP, OUR_IP, 1, 2).build();
    let msg = message(bytes);
    let packet = packet_outbound(&msg);
    assert_eq!(frame_outbound(&msg)[14..], packet[..]);
    assert!(matches!(inspect_packet(&packet, [0; 6], [0; 6]), Inbound::Tcp { .. }));
}

#[test]
fn other_protocols_are_told_apart() {
    let icmp = build_packet(THEIR_IP, OUR_IP, 1, b"ping");
    let frame = EthernetFrame::build(OUR_MAC, THEIR_MAC, &icmp);
    assert!(matches!(
        inspect_frame(&frame, OUR_IP, OUR_MAC),
        Inbound::Icmp { src: THEIR_IP, dst: OUR_IP }
    ));
    let udp = build_packet(THEIR_IP, OUR_IP, 17, b"datagram");
    assert!(matches!(
        inspect_packet(&udp, [0; 6], [0; 6]),
        Inbound::UnknownProtocol { src: THEIR_IP, dst: OUR_IP, protocol: 17 }
    ));
}

#[test]
fn malformed_layers_are_told_apart() {
    assert!(matches!(
        inspect_frame(&[0; 5], OUR_IP, OUR_MAC),
        Inbound::BadFrame(MagnumError::EthernetFrameTooShort { got: 5, need: 14 })
    ));
    let mut ipv6 = EthernetFrame::build(OUR_MAC, THEIR_MAC, b"");
    ipv6[12] = 0x86;
    ipv6[13] = 0xDD;
    assert!(matches!(inspect_frame(&ipv6, OUR_IP, OUR_MAC), Inbound::NonIpv4(0x86DD)));
    let frame = EthernetFrame::build(OUR_MAC, THEIR_MAC, &[0; 7]);
    assert!(matches!(
        inspect_frame(&frame, OUR_IP, OUR_MAC),
        Inbound::BadPacket(MagnumError::Ipv4HeaderTooShort { got: 7, need: 20 })
    ));
    let packet = build_packet(THEIR_IP, OUR_IP, 6, b"too short");
    assert!(matches!(
        inspect_packet(&packet, [0; 6], [0; 6]),
        Inbound::BadSegment(MagnumError::TcpHeaderTooShort { got: 9, need: 20 })
    ));
}
