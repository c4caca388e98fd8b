//! Ethernet II frames: parser and builder.
use vstd::prelude::*;
use vstd::slice::slice_subrange;

use crate::error::MagnumError;
use crate::wire::{
    array6_at, array6_at_of_array, be16, be16_bytes, be16_round_trip, push_be16, push_bytes,
    read_array6, read_be16,
};

verus! {

pub const ETHERTYPE_IPV4: u16 = 0x0800;

pub const ETHERNET_HEADER_LEN: usize = 14;

/// A frame as its header fields and the bytes it carries.
#[verifier::ext_equal]
pub ghost struct FrameView {
    pub dst_mac: [u8; 6],
    pub src_mac: [u8; 6],
    pub ethertype: u16,
    pub payload: Seq<u8>,
}

#[derive(Debug)]
pub struct EthernetFrame<'a> {
    pub dst_mac: [u8; 6],
    pub src_mac: [u8; 6],
    pub ethertype: u16,
    pub payload: &'a [u8],
}

impl<'a> View for EthernetFrame<'a> {
    type V = FrameView;

    open spec fn view(&self) -> FrameView {
        FrameView {
            dst_mac: self.dst_mac,
            src_mac: self.src_mac,
            ethertype: self.ethertype,
            payload: self.payload@,
        }
    }
}

/// The frame that `raw` holds, or why it holds none. Only frames that carry IPv4 are taken.
pub open spec fn frame_in(raw: Seq<u8>) -> Result<FrameView, MagnumError> {
    let ethertype = be16(raw[12], raw[13]);
    if raw.len() < ETHERNET_HEADER_LEN {
        Err(
            MagnumError::EthernetFrameTooShort {
                got: raw.len() as usize,
                need: ETHERNET_HEADER_LEN,
            },
        )
    } else if ethertype != ETHERTYPE_IPV4 {
        Err(MagnumError::NonIpv4EtherType(ethertype))
    } else {
        Ok(
            FrameView {
                dst_mac: array6_at(raw, 0),
                src_mac: array6_at(raw, 6),
                ethertype,
                payload: raw.skip(14),
            },
        )
    }
}

/// The bytes of an IPv4 frame from `src` to `dst` around `payload`.
pub open spec fn frame_bytes(dst: [u8; 6], src: [u8; 6], payload: Seq<u8>) -> Seq<u8> {
    dst@ + src@ + be16_bytes(ETHERTYPE_IPV4) + payload
}

impl<'a> EthernetFrame<'a> {
    pub fn parse(raw: &'a [u8]) -> (r: Result<EthernetFrame<'a>, MagnumError>)
        ensures
            match r {
                Ok(frame) => frame_in(raw@) == Ok::<FrameView, MagnumError>(frame@),
                Err(e) => frame_in(raw@) == Err::<FrameView, MagnumError>(e),
            },
    {
        if raw.len() < ETHERNET_HEADER_LEN {
            return Err(
                MagnumError::EthernetFrameTooShort { got: raw.len(), need: ETHERNET_HEADER_LEN },
            );
        }
        let ethertype: u16 = read_be16(raw[12], raw[13]);
        if ethertype != ETHERTYPE_IPV4 {
            return Err(MagnumError::NonIpv4EtherType(ethertype));
        }
        let payload = slice_subrange(raw, ETHERNET_HEADER_LEN, raw.len());
        assert(payload@ =~= raw@.skip(14));
        Ok(
            EthernetFrame {
                dst_mac: read_array6(raw, 0),
                src_mac: read_array6(raw, 6),
                ethertype,
                payload,
            },
        )
    }

    /// An IPv4 frame from `src` to `dst` around `payload`.
    pub fn build(dst: [u8; 6], src: [u8; 6], payload: &[u8]) -> (r: Vec<u8>)
        ensures
            r@ == frame_bytes(dst, src, payload@),
    {
        let mut frame: Vec<u8> = Vec::new();
        push_bytes(&mut frame, &dst);
        push_bytes(&mut frame, &src);
        push_be16(&mut frame, ETHERTYPE_IPV4);
        push_bytes(&mut frame, payload);
        assert(frame@ =~= frame_bytes(dst, src, payload@));
        frame
    }
}

/// Parsing the bytes of a frame gives the frame back: both addresses and the payload.
pub proof fn parse_gives_back_what_was_built(dst: [u8; 6], src: [u8; 6], payload: Seq<u8>)
    ensures
        frame_in(frame_bytes(dst, src, payload)) == Ok::<FrameView, MagnumError>(
            FrameView { dst_mac: dst, src_mac: src, ethertype: ETHERTYPE_IPV4, payload },
        ),
{
    let raw = frame_bytes(dst, src, payload);
    assert(raw.subrange(0, 6) =~= dst@);
    assert(raw.subrange(6, 12) =~= src@);
    array6_at_of_array(raw, 0, dst);
    array6_at_of_array(raw, 6, src);
    be16_round_trip(ETHERTYPE_IPV4);
    assert(raw.skip(14) =~= payload);
}

} // verus!
