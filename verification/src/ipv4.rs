//! IPv4 packets: header parser, checksum and builder, and addresses as text.
use vstd::prelude::*;
use vstd::slice::slice_subrange;
use vstd::string::StringExecFns;

use crate::error::MagnumError;
use crate::text::{
    append_decimal, decimal, decimal_round_trip, octet, octet_round_trip, parse_octet,
    split_append, split_at_dots, split_parts, split_push_part,
};
use crate::wire::{
    add_words, array4_at, array4_at_of_array, be16, be16_bytes, be16_round_trip, checksum_closes,
    internet_checksum, push_be16, push_bytes, read_array4, read_be16, word_sum, word_sum_store,
};

verus! {

pub const IPV4_MIN_HEADER_LEN: usize = 20;

pub const PROTO_ICMP: u8 = 1;

pub const PROTO_TCP: u8 = 6;

pub const PROTO_UDP: u8 = 17;

#[derive(Debug, Clone, Copy)]
pub struct Ipv4Header {
    pub ihl: u8,
    pub dscp: u8,
    pub total_len: u16,
    pub id: u16,
    pub flags: u8,
    pub frag_offset: u16,
    pub ttl: u8,
    pub protocol: u8,
    pub checksum: u16,
    pub src: [u8; 4],
    pub dst: [u8; 4],
}

/// A packet as its header and the bytes it carries.
#[verifier::ext_equal]
pub ghost struct PacketView {
    pub header: Ipv4Header,
    pub payload: Seq<u8>,
}

#[derive(Debug)]
pub struct Ipv4Packet<'a> {
    pub header: Ipv4Header,
    pub payload: &'a [u8],
}

impl<'a> View for Ipv4Packet<'a> {
    type V = PacketView;

    open spec fn view(&self) -> PacketView {
        PacketView { header: self.header, payload: self.payload@ }
    }
}

/// The header in the first twenty bytes of `raw`.
pub open spec fn header_in(raw: Seq<u8>) -> Ipv4Header {
    Ipv4Header {
        ihl: raw[0] % 16,
        dscp: raw[1] / 4,
        total_len: be16(raw[2], raw[3]),
        id: be16(raw[4], raw[5]),
        flags: raw[6] / 32,
        frag_offset: be16(raw[6] % 32, raw[7]),
        ttl: raw[8],
        protocol: raw[9],
        checksum: be16(raw[10], raw[11]),
        src: array4_at(raw, 12),
        dst: array4_at(raw, 16),
    }
}

/// The packet that `raw` holds, or why it holds none. Bytes behind the packet's total length are
/// not part of it.
pub open spec fn packet_in(raw: Seq<u8>) -> Result<PacketView, MagnumError> {
    let header = header_in(raw);
    let header_len = header.ihl * 4;
    let computed = internet_checksum(word_sum(raw.take(header_len)));
    if raw.len() < IPV4_MIN_HEADER_LEN {
        Err(
            MagnumError::Ipv4HeaderTooShort {
                got: raw.len() as usize,
                need: IPV4_MIN_HEADER_LEN,
            },
        )
    } else if header.ihl < 5 {
        Err(MagnumError::Ipv4IhlTooSmall(header.ihl))
    } else if raw.len() < header_len {
        Err(MagnumError::Ipv4HeaderTooShort { got: raw.len() as usize, need: header_len as usize })
    } else if computed != 0 {
        Err(MagnumError::Ipv4ChecksumMismatch { computed, got: header.checksum })
    } else if header.total_len > raw.len() {
        Err(
            MagnumError::Ipv4TruncatedPacket {
                total_len: header.total_len as usize,
                buf_len: raw.len() as usize,
            },
        )
    } else if header.total_len < header_len {
        Err(
            MagnumError::Ipv4TotalLenTooSmall {
                total_len: header.total_len as usize,
                header_len: header_len as usize,
            },
        )
    } else {
        Ok(PacketView { header, payload: raw.subrange(header_len, header.total_len as int) })
    }
}

impl<'a> Ipv4Packet<'a> {
    pub fn parse(raw: &'a [u8]) -> (r: Result<Ipv4Packet<'a>, MagnumError>)
        ensures
            match r {
                Ok(packet) => packet_in(raw@) == Ok::<PacketView, MagnumError>(packet@),
                Err(e) => packet_in(raw@) == Err::<PacketView, MagnumError>(e),
            },
    {
        if raw.len() < IPV4_MIN_HEADER_LEN {
            return Err(
                MagnumError::Ipv4HeaderTooShort { got: raw.len(), need: IPV4_MIN_HEADER_LEN },
            );
        }
        let ihl: u8 = raw[0] % 16;
        if ihl < 5 {
            return Err(MagnumError::Ipv4IhlTooSmall(ihl));
        }
        let header_len: usize = ihl as usize * 4;
        if raw.len() < header_len {
            return Err(MagnumError::Ipv4HeaderTooShort { got: raw.len(), need: header_len });
        }
        let stored_checksum: u16 = read_be16(raw[10], raw[11]);
        let head = slice_subrange(raw, 0, header_len);
        assert(head@ =~= raw@.take(header_len as int));
        let computed: u16 = checksum(head);
        if computed != 0 {
            return Err(MagnumError::Ipv4ChecksumMismatch { computed, got: stored_checksum });
        }
        let total_len: u16 = read_be16(raw[2], raw[3]);
        if total_len as usize > raw.len() {
            return Err(
                MagnumError::Ipv4TruncatedPacket {
                    total_len: total_len as usize,
                    buf_len: raw.len(),
                },
            );
        }
        if (total_len as usize) < header_len {
            return Err(
                MagnumError::Ipv4TotalLenTooSmall { total_len: total_len as usize, header_len },
            );
        }
        let header = Ipv4Header {
            ihl,
            dscp: raw[1] / 4,
            total_len,
            id: read_be16(raw[4], raw[5]),
            flags: raw[6] / 32,
            frag_offset: read_be16(raw[6] % 32, raw[7]),
            ttl: raw[8],
            protocol: raw[9],
            checksum: stored_checksum,
            src: read_array4(raw, 12),
            dst: read_array4(raw, 16),
        };
        Ok(Ipv4Packet { header, payload: slice_subrange(raw, header_len, total_len as usize) })
    }
}

/// The internet checksum of `data`: the complement of the one's-complement sum of its 16-bit words.
pub fn checksum(data: &[u8]) -> (r: u16)
    ensures
        r == internet_checksum(word_sum(data@)),
{
    let sum: u32 = add_words(0, data, Ghost(0));
    (65535 - sum) as u16
}

/// The header of an outgoing packet with `checksum` in the checksum field: no options, no
/// fragmentation, sixty-four hops.
pub open spec fn header_bytes(
    src: [u8; 4],
    dst: [u8; 4],
    protocol: u8,
    payload_len: nat,
    checksum: u16,
) -> Seq<u8> {
    seq![0x45u8, 0u8] + be16_bytes((20 + payload_len) as u16) + seq![0u8, 0u8, 0x40u8, 0u8, 64u8, protocol]
        + be16_bytes(checksum) + src@ + dst@
}

/// The checksum that an outgoing packet is sent with.
pub open spec fn header_checksum(
    src: [u8; 4],
    dst: [u8; 4],
    protocol: u8,
    payload_len: nat,
) -> u16 {
    internet_checksum(word_sum(header_bytes(src, dst, protocol, payload_len, 0)))
}

/// The bytes that a packet is sent as.
pub open spec fn packet_bytes(
    src: [u8; 4],
    dst: [u8; 4],
    protocol: u8,
    payload: Seq<u8>,
) -> Seq<u8> {
    header_bytes(
        src,
        dst,
        protocol,
        payload.len(),
        header_checksum(src, dst, protocol, payload.len()),
    ) + payload
}

/// A packet from `src` to `dst` around `payload`.
pub fn build_packet(src: [u8; 4], dst: [u8; 4], protocol: u8, payload: &[u8]) -> (r: Vec<u8>)
    requires
        20 + payload@.len() <= 65535,
    ensures
        r@ == packet_bytes(src, dst, protocol, payload@),
{
    let mut buf: Vec<u8> = Vec::new();
    buf.push(0x45);
    buf.push(0);
    push_be16(&mut buf, (20 + payload.len()) as u16);
    buf.push(0);
    buf.push(0);
    buf.push(0x40);
    buf.push(0);
    buf.push(64);
    buf.push(protocol);
    push_be16(&mut buf, 0);
    push_bytes(&mut buf, &src);
    push_bytes(&mut buf, &dst);
    assert(buf@ =~= header_bytes(src, dst, protocol, payload@.len(), 0));
    let csum: u16 = checksum(buf.as_slice());
    proof {
        header_bytes_fields(src, dst, protocol, payload@.len(), csum);
    }
    buf[10] = (csum / 0x100) as u8;
    buf[11] = (csum % 0x100) as u8;
    push_bytes(&mut buf, payload);
    buf
}

proof fn header_bytes_fields(
    src: [u8; 4],
    dst: [u8; 4],
    protocol: u8,
    payload_len: nat,
    checksum: u16,
)
    ensures
        header_bytes(src, dst, protocol, payload_len, checksum).len() == 20,
        header_bytes(src, dst, protocol, payload_len, checksum) == header_bytes(
            src,
            dst,
            protocol,
            payload_len,
            0,
        ).update(10, be16_bytes(checksum)[0]).update(11, be16_bytes(checksum)[1]),
{
    assert(header_bytes(src, dst, protocol, payload_len, checksum) =~= header_bytes(
        src,
        dst,
        protocol,
        payload_len,
        0,
    ).update(10, be16_bytes(checksum)[0]).update(11, be16_bytes(checksum)[1]));
}

/// The header of a packet is sent with a checksum that a receiver's check finds to be zero.
pub proof fn sent_header_checksum_is_zero(
    src: [u8; 4],
    dst: [u8; 4],
    protocol: u8,
    payload: Seq<u8>,
)
    ensures
        internet_checksum(word_sum(packet_bytes(src, dst, protocol, payload).take(20))) == 0,
{
    let n = payload.len();
    let c = header_checksum(src, dst, protocol, n);
    let bare = header_bytes(src, dst, protocol, n, 0);
    header_bytes_fields(src, dst, protocol, n, 0);
    header_bytes_fields(src, dst, protocol, n, c);
    word_sum_store(bare, 10, c);
    checksum_closes(word_sum(bare));
    assert(packet_bytes(src, dst, protocol, payload).take(20) =~= header_bytes(
        src,
        dst,
        protocol,
        n,
        c,
    ));
}

/// What a receiver makes of a packet.
pub open spec fn received(
    src: [u8; 4],
    dst: [u8; 4],
    protocol: u8,
    payload: Seq<u8>,
) -> PacketView {
    PacketView {
        header: Ipv4Header {
            ihl: 5,
            dscp: 0,
            total_len: (20 + payload.len()) as u16,
            id: 0,
            flags: 2,
            frag_offset: 0,
            ttl: 64,
            protocol,
            checksum: header_checksum(src, dst, protocol, payload.len()),
            src,
            dst,
        },
        payload,
    }
}

/// Parsing the bytes that a packet is sent as gives the packet back: both addresses, the protocol
/// and the payload, whatever padding follows it.
pub proof fn parse_gives_back_what_was_built(
    src: [u8; 4],
    dst: [u8; 4],
    protocol: u8,
    payload: Seq<u8>,
    padding: Seq<u8>,
)
    requires
        20 + payload.len() <= 65535,
    ensures
        packet_in(packet_bytes(src, dst, protocol, payload) + padding) == Ok::<
            PacketView,
            MagnumError,
        >(received(src, dst, protocol, payload)),
{
    let n = payload.len();
    let c = header_checksum(src, dst, protocol, n);
    let sent = packet_bytes(src, dst, protocol, payload);
    let raw = sent + padding;
    header_bytes_fields(src, dst, protocol, n, c);
    sent_header_checksum_is_zero(src, dst, protocol, payload);
    assert(raw.take(20) =~= sent.take(20));
    assert(raw.subrange(12, 16) =~= src@);
    assert(raw.subrange(16, 20) =~= dst@);
    array4_at_of_array(raw, 12, src);
    array4_at_of_array(raw, 16, dst);
    be16_round_trip((20 + n) as u16);
    be16_round_trip(c);
    assert(header_in(raw) == received(src, dst, protocol, payload).header);
    assert(raw.subrange(20, 20 + n as int) =~= payload);
}

/// An address as four decimal numbers between dots.
pub open spec fn dotted_quad(addr: [u8; 4]) -> Seq<char> {
    decimal(addr[0] as nat).push('.') + decimal(addr[1] as nat).push('.') + decimal(
        addr[2] as nat,
    ).push('.') + decimal(addr[3] as nat)
}

/// The address that `text` stands for: four numbers below 256 between dots.
pub open spec fn address_in(text: Seq<char>) -> Option<[u8; 4]> {
    let parts = split_at_dots(text);
    if parts.len() == 4 && octet(parts[0]) is Some && octet(parts[1]) is Some && octet(parts[2]) is Some
        && octet(parts[3]) is Some {
        Some([octet(parts[0])->0, octet(parts[1])->0, octet(parts[2])->0, octet(parts[3])->0])
    } else {
        None
    }
}

pub fn format_ip(addr: &[u8; 4]) -> (r: String)
    ensures
        r@ == dotted_quad(*addr),
{
    proof {
        reveal_strlit(".");
    }
    let mut out = String::new();
    append_decimal(&mut out, addr[0] as u64);
    out.append(".");
    append_decimal(&mut out, addr[1] as u64);
    out.append(".");
    append_decimal(&mut out, addr[2] as u64);
    out.append(".");
    append_decimal(&mut out, addr[3] as u64);
    assert(out@ =~= dotted_quad(*addr));
    out
}

/// The address that `s` stands for, or the error that carries `s` where it stands for none.
pub fn parse_ip(s: &str) -> (r: Result<[u8; 4], MagnumError>)
    ensures
        match r {
            Ok(addr) => address_in(s@) == Some(addr),
            Err(e) => address_in(s@) is None && (e matches MagnumError::InvalidIp(text) && text@
                == s@),
        },
{
    let parts = split_parts(s);
    if parts.len() != 4 {
        return Err(MagnumError::InvalidIp(s.to_owned()));
    }
    let a = parse_octet(&parts[0]);
    let b = parse_octet(&parts[1]);
    let c = parse_octet(&parts[2]);
    let d = parse_octet(&parts[3]);
    match (a, b, c, d) {
        (Some(a), Some(b), Some(c), Some(d)) => Ok([a, b, c, d]),
        _ => Err(MagnumError::InvalidIp(s.to_owned())),
    }
}

/// Every address written as text is read back as itself.
pub proof fn address_round_trip(addr: [u8; 4])
    ensures
        address_in(dotted_quad(addr)) == Some(addr),
{
    let p0 = decimal(addr[0] as nat);
    let p1 = decimal(addr[1] as nat);
    let p2 = decimal(addr[2] as nat);
    let p3 = decimal(addr[3] as nat);
    decimal_round_trip(addr[0] as nat);
    decimal_round_trip(addr[1] as nat);
    decimal_round_trip(addr[2] as nat);
    decimal_round_trip(addr[3] as nat);
    octet_round_trip(addr[0]);
    octet_round_trip(addr[1]);
    octet_round_trip(addr[2]);
    octet_round_trip(addr[3]);
    let none = Seq::<char>::empty();
    split_append(none, p0);
    assert(none + p0 =~= p0);
    assert(split_at_dots(none).last() + p0 =~= p0);
    assert(split_at_dots(p0) =~= seq![p0]);
    split_push_part(p0, p1);
    let t1 = p0.push('.') + p1;
    split_push_part(t1, p2);
    let t2 = t1.push('.') + p2;
    split_push_part(t2, p3);
    let t3 = t2.push('.') + p3;
    assert(t3 =~= dotted_quad(addr));
    assert(split_at_dots(t3) =~= seq![p0, p1, p2, p3]);
    let back = address_in(dotted_quad(addr))->0;
    assert(forall|i: int| 0 <= i < 4 ==> back[i] == addr[i]);
    assert(back =~= addr);
}

} // verus!
