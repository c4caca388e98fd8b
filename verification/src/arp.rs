//! ARP over Ethernet for IPv4: request parser and reply builder.
use vstd::prelude::*;

use crate::ethernet::ETHERNET_HEADER_LEN;
use crate::wire::{
    array4_at, array6_at, be16, be16_bytes, push_be16, push_bytes, read_array4, read_array6,
    read_be16,
};

verus! {

pub const ETHERTYPE_ARP: u16 = 0x0806;

/// An ARP payload behind an Ethernet header.
pub const ARP_FRAME_LEN: usize = ETHERNET_HEADER_LEN + 28;

const HTYPE_ETHERNET: u16 = 1;

const PTYPE_IPV4: u16 = 0x0800;

const HLEN_MAC: u8 = 6;

const PLEN_IP: u8 = 4;

const OPER_REQUEST: u16 = 1;

const OPER_REPLY: u16 = 2;

#[derive(Debug, Clone, Copy)]
pub struct ArpRequest {
    pub sender_mac: [u8; 6],
    pub sender_ip: [u8; 4],
    pub target_ip: [u8; 4],
}

/// The request for an IPv4 address that the frame `raw` holds, if it holds one.
pub open spec fn request_in(raw: Seq<u8>) -> Option<ArpRequest> {
    if raw.len() >= ARP_FRAME_LEN && be16(raw[14], raw[15]) == 1 && be16(raw[16], raw[17]) == 0x0800
        && raw[18] == 6 && raw[19] == 4 && be16(raw[20], raw[21]) == 1 {
        Some(
            ArpRequest {
                sender_mac: array6_at(raw, 22),
                sender_ip: array4_at(raw, 28),
                target_ip: array4_at(raw, 38),
            },
        )
    } else {
        None
    }
}

/// The frame that tells `requester` that `our_ip` is at `our_mac`.
pub open spec fn reply_bytes(
    our_mac: [u8; 6],
    our_ip: [u8; 4],
    requester_mac: [u8; 6],
    requester_ip: [u8; 4],
) -> Seq<u8> {
    requester_mac@ + our_mac@ + be16_bytes(ETHERTYPE_ARP) + be16_bytes(1) + be16_bytes(0x0800)
        + seq![6u8, 4u8] + be16_bytes(2) + our_mac@ + our_ip@ + requester_mac@ + requester_ip@
}

pub fn parse_arp_request(raw_frame: &[u8]) -> (r: Option<ArpRequest>)
    ensures
        r == request_in(raw_frame@),
{
    if raw_frame.len() < ARP_FRAME_LEN {
        return None;
    }
    if read_be16(raw_frame[14], raw_frame[15]) != HTYPE_ETHERNET {
        return None;
    }
    if read_be16(raw_frame[16], raw_frame[17]) != PTYPE_IPV4 {
        return None;
    }
    if raw_frame[18] != HLEN_MAC || raw_frame[19] != PLEN_IP {
        return None;
    }
    if read_be16(raw_frame[20], raw_frame[21]) != OPER_REQUEST {
        return None;
    }
    Some(
        ArpRequest {
            sender_mac: read_array6(raw_frame, 22),
            sender_ip: read_array4(raw_frame, 28),
            target_ip: read_array4(raw_frame, 38),
        },
    )
}

pub fn build_arp_reply_frame(
    our_mac: [u8; 6],
    our_ip: [u8; 4],
    requester_mac: [u8; 6],
    requester_ip: [u8; 4],
) -> (r: Vec<u8>)
    ensures
        r@ == reply_bytes(our_mac, our_ip, requester_mac, requester_ip),
{
    let mut frame: Vec<u8> = Vec::new();
    push_bytes(&mut frame, &requester_mac);
    push_bytes(&mut frame, &our_mac);
    push_be16(&mut frame, ETHERTYPE_ARP);
    push_be16(&mut frame, HTYPE_ETHERNET);
    push_be16(&mut frame, PTYPE_IPV4);
    frame.push(HLEN_MAC);
    frame.push(PLEN_IP);
    push_be16(&mut frame, OPER_REPLY);
    push_bytes(&mut frame, &our_mac);
    push_bytes(&mut frame, &our_ip);
    push_bytes(&mut frame, &requester_mac);
    push_bytes(&mut frame, &requester_ip);
    assert(frame@ =~= reply_bytes(our_mac, our_ip, requester_mac, requester_ip));
    frame
}

/// A reply fills one ARP frame and is not taken for a request, so two stacks never answer each
/// other's replies.
pub proof fn reply_is_no_request(
    our_mac: [u8; 6],
    our_ip: [u8; 4],
    requester_mac: [u8; 6],
    requester_ip: [u8; 4],
)
    ensures
        reply_bytes(our_mac, our_ip, requester_mac, requester_ip).len() == ARP_FRAME_LEN,
        request_in(reply_bytes(our_mac, our_ip, requester_mac, requester_ip)) is None,
{
}

} // verus!
