//! Why a frame, a packet, a segment or an address was refused.
use vstd::prelude::*;

verus! {

#[derive(Debug)]
#[allow(inconsistent_fields)]
pub enum MagnumError {
    EthernetFrameTooShort { got: usize, need: usize },
    NonIpv4EtherType(u16),
    Ipv4HeaderTooShort { got: usize, need: usize },
    Ipv4IhlTooSmall(u8),
    Ipv4ChecksumMismatch { computed: u16, got: u16 },
    Ipv4TruncatedPacket { total_len: usize, buf_len: usize },
    Ipv4TotalLenTooSmall { total_len: usize, header_len: usize },
    TcpHeaderTooShort { got: usize, need: usize },
    TcpDataOffsetTooSmall(u8),
    TcpChecksumMismatch { computed: u16, got: u16 },
    InvalidIp(String),
}

} // verus!
