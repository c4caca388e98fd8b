//! From raw frames to what they ask of the stack, and from segments to raw frames.
use vstd::prelude::*;

use crate::arp::{
    build_arp_reply_frame, parse_arp_request, reply_bytes, reply_is_no_request, request_in,
    ETHERTYPE_ARP,
};
use crate::error::MagnumError;
use crate::ethernet;
use crate::ethernet::{frame_bytes, frame_in, EthernetFrame};
use crate::ipv4;
use crate::ipv4::{build_packet, packet_bytes, packet_in, Ipv4Packet, PROTO_ICMP, PROTO_TCP};
use crate::tcp::header;
use crate::tcp::header::{encode, received, segment_in, SegmentFields, SegmentView, TcpSegment};
use crate::tcp::task::{message, OutboundMsg, OutboundView};
use crate::wire::{be16_round_trip, bytes_equal};

verus! {

/// What a frame asks of the stack.
pub enum Inbound<'a> {
    /// Somebody looks for our address: the frame to answer with.
    ArpReply(Vec<u8>),
    /// An ARP frame that is no request for our address.
    ArpIgnored,
    /// A segment, with the addresses of the packet and the frame that carried it.
    Tcp {
        src: [u8; 4],
        dst: [u8; 4],
        dst_mac: [u8; 6],
        src_mac: [u8; 6],
        segment: TcpSegment<'a>,
    },
    /// An ICMP packet.
    Icmp { src: [u8; 4], dst: [u8; 4] },
    /// A packet of a protocol that the stack does not speak.
    UnknownProtocol { src: [u8; 4], dst: [u8; 4], protocol: u8 },
    /// A frame that carries neither IPv4 nor ARP.
    NonIpv4(u16),
    /// Not a frame.
    BadFrame(MagnumError),
    /// A frame that does not hold an IPv4 packet.
    BadPacket(MagnumError),
    /// A packet that does not hold a TCP segment.
    BadSegment(MagnumError),
}

pub ghost enum InboundView {
    ArpReply(Seq<u8>),
    ArpIgnored,
    Tcp { src: [u8; 4], dst: [u8; 4], dst_mac: [u8; 6], src_mac: [u8; 6], segment: SegmentView },
    Icmp { src: [u8; 4], dst: [u8; 4] },
    UnknownProtocol { src: [u8; 4], dst: [u8; 4], protocol: u8 },
    NonIpv4(u16),
    BadFrame(MagnumError),
    BadPacket(MagnumError),
    BadSegment(MagnumError),
}

impl<'a> View for Inbound<'a> {
    type V = InboundView;

    open spec fn view(&self) -> InboundView {
        match *self {
            Inbound::ArpReply(frame) => InboundView::ArpReply(frame@),
            Inbound::ArpIgnored => InboundView::ArpIgnored,
            Inbound::Tcp { src, dst, dst_mac, src_mac, segment } => InboundView::Tcp {
                src,
                dst,
                dst_mac,
                src_mac,
                segment: segment@,
            },
            Inbound::Icmp { src, dst } => InboundView::Icmp { src, dst },
            Inbound::UnknownProtocol { src, dst, protocol } => InboundView::UnknownProtocol {
                src,
                dst,
                protocol,
            },
            Inbound::NonIpv4(ethertype) => InboundView::NonIpv4(ethertype),
            Inbound::BadFrame(e) => InboundView::BadFrame(e),
            Inbound::BadPacket(e) => InboundView::BadPacket(e),
            Inbound::BadSegment(e) => InboundView::BadSegment(e),
        }
    }
}

/// What the IPv4 packet in `raw`, which came between the given hardware addresses, asks for.
pub open spec fn packet_asks(raw: Seq<u8>, dst_mac: [u8; 6], src_mac: [u8; 6]) -> InboundView {
    match packet_in(raw) {
        Err(e) => InboundView::BadPacket(e),
        Ok(packet) => {
            let src = packet.header.src;
            let dst = packet.header.dst;
            if packet.header.protocol == PROTO_ICMP {
                InboundView::Icmp { src, dst }
            } else if packet.header.protocol == PROTO_TCP {
                match segment_in(packet.payload, src, dst) {
                    Err(e) => InboundView::BadSegment(e),
                    Ok(segment) => InboundView::Tcp { src, dst, dst_mac, src_mac, segment },
                }
            } else {
                InboundView::UnknownProtocol { src, dst, protocol: packet.header.protocol }
            }
        },
    }
}

/// What the frame in `raw` asks of a stack with the given addresses.
pub open spec fn frame_asks(raw: Seq<u8>, our_ip: [u8; 4], our_mac: [u8; 6]) -> InboundView {
    match frame_in(raw) {
        Ok(frame) => packet_asks(frame.payload, frame.dst_mac, frame.src_mac),
        Err(MagnumError::NonIpv4EtherType(ethertype)) => {
            if ethertype != ETHERTYPE_ARP {
                InboundView::NonIpv4(ethertype)
            } else {
                match request_in(raw) {
                    Some(request) if request.target_ip@ == our_ip@ => InboundView::ArpReply(
                        reply_bytes(our_mac, our_ip, request.sender_mac, request.sender_ip),
                    ),
                    _ => InboundView::ArpIgnored,
                }
            }
        },
        Err(e) => InboundView::BadFrame(e),
    }
}

/// What the IPv4 packet in `raw`, which came between the given hardware addresses, asks for.
pub fn inspect_packet<'a>(raw: &'a [u8], dst_mac: [u8; 6], src_mac: [u8; 6]) -> (r: Inbound<'a>)
    ensures
        r@ == packet_asks(raw@, dst_mac, src_mac),
{
    let packet = match Ipv4Packet::parse(raw) {
        Ok(packet) => packet,
        Err(e) => {
            return Inbound::BadPacket(e);
        },
    };
    let src = packet.header.src;
    let dst = packet.header.dst;
    if packet.header.protocol == PROTO_ICMP {
        Inbound::Icmp { src, dst }
    } else if packet.header.protocol == PROTO_TCP {
        match TcpSegment::parse(packet.payload, src, dst) {
            Ok(segment) => Inbound::Tcp { src, dst, dst_mac, src_mac, segment },
            Err(e) => Inbound::BadSegment(e),
        }
    } else {
        Inbound::UnknownProtocol { src, dst, protocol: packet.header.protocol }
    }
}

/// What the frame in `raw` asks of a stack with the given addresses.
pub fn inspect_frame<'a>(raw: &'a [u8], our_ip: [u8; 4], our_mac: [u8; 6]) -> (r: Inbound<'a>)
    ensures
        r@ == frame_asks(raw@, our_ip, our_mac),
{
    match EthernetFrame::parse(raw) {
        Ok(frame) => inspect_packet(frame.payload, frame.dst_mac, frame.src_mac),
        Err(MagnumError::NonIpv4EtherType(ethertype)) => {
            if ethertype != ETHERTYPE_ARP {
                return Inbound::NonIpv4(ethertype);
            }
            match parse_arp_request(raw) {
                Some(request) => {
                    if bytes_equal(&request.target_ip, &our_ip) {
                        Inbound::ArpReply(
                            build_arp_reply_frame(
                                our_mac,
                                our_ip,
                                request.sender_mac,
                                request.sender_ip,
                            ),
                        )
                    } else {
                        Inbound::ArpIgnored
                    }
                },
                None => Inbound::ArpIgnored,
            }
        },
        Err(e) => Inbound::BadFrame(e),
    }
}

/// The packet around an outgoing segment.
pub open spec fn outgoing_packet(m: OutboundView) -> Seq<u8> {
    packet_bytes(m.src_ip, m.dst_ip, PROTO_TCP, m.tcp_bytes)
}

/// The frame around an outgoing segment.
pub open spec fn outgoing_frame(m: OutboundView) -> Seq<u8> {
    frame_bytes(m.ether_dst, m.ether_src, outgoing_packet(m))
}

/// The packet around an outgoing segment.
pub fn packet_outbound(msg: &OutboundMsg) -> (r: Vec<u8>)
    requires
        20 + msg.tcp_bytes@.len() <= 65535,
    ensures
        r@ == outgoing_packet(msg@),
{
    build_packet(msg.src_ip, msg.dst_ip, PROTO_TCP, msg.tcp_bytes.as_slice())
}

/// The frame around an outgoing segment.
pub fn frame_outbound(msg: &OutboundMsg) -> (r: Vec<u8>)
    requires
        20 + msg.tcp_bytes@.len() <= 65535,
    ensures
        r@ == outgoing_frame(msg@),
{
    let ip = packet_outbound(msg);
    EthernetFrame::build(msg.ether_dst, msg.ether_src, ip.as_slice())
}

/// What one stack sends, another understands: the frame around a segment is seen as that segment,
/// between the addresses it was sent with.
pub proof fn sent_frame_is_understood(
    f: SegmentFields,
    ether_src: [u8; 6],
    ether_dst: [u8; 6],
    our_ip: [u8; 4],
    our_mac: [u8; 6],
)
    requires
        40 + f.payload.len() <= 65535,
    ensures
        frame_asks(outgoing_frame(message(f, ether_src, ether_dst)), our_ip, our_mac)
            == (InboundView::Tcp {
            src: f.src_ip,
            dst: f.dst_ip,
            dst_mac: ether_dst,
            src_mac: ether_src,
            segment: received(f),
        }),
{
    let bytes = encode(f);
    let packet = packet_bytes(f.src_ip, f.dst_ip, PROTO_TCP, bytes);
    header::parse_gives_back_what_was_built(f);
    ipv4::parse_gives_back_what_was_built(f.src_ip, f.dst_ip, PROTO_TCP, bytes, Seq::empty());
    assert(packet + Seq::<u8>::empty() =~= packet);
    ethernet::parse_gives_back_what_was_built(ether_dst, ether_src, packet);
}

/// Our answer to an ARP request is seen as no request by the stack that gets it.
pub proof fn arp_reply_is_not_answered(
    our_mac: [u8; 6],
    our_ip: [u8; 4],
    requester_mac: [u8; 6],
    requester_ip: [u8; 4],
    their_ip: [u8; 4],
    their_mac: [u8; 6],
)
    ensures
        frame_asks(
            reply_bytes(our_mac, our_ip, requester_mac, requester_ip),
            their_ip,
            their_mac,
        ) == InboundView::ArpIgnored,
{
    reply_is_no_request(our_mac, our_ip, requester_mac, requester_ip);
    be16_round_trip(ETHERTYPE_ARP);
}

} // verus!
