//! What the bytes of frames, packets and segments mean, field by field, and what a checksum is good
//! for.
use vstd::prelude::*;

use crate::arp::reply_bytes;
use crate::device::{name_field, unit_of};
use crate::error::MagnumError;
use crate::ethernet::{frame_bytes, frame_in};
use crate::inbound::{frame_asks, InboundView};
use crate::ipv4::{address_in, packet_bytes, packet_in, sent_header_checksum_is_zero};
use crate::tcp::header::{
    encode, parse_gives_back_what_was_built, segment_in, sent_checksum_is_zero, tcp_sum,
    SegmentFields,
};
use crate::text::{
    all_digits, decimal, decimal_round_trip, decimal_value, is_digit, octet, split_append,
    split_at_dots, split_push_part, unsigned,
};
use crate::wire::{array4_at, array6_at, internet_checksum, word_sum, word_sum_update};

verus! {

/// The number in the two bytes of `s` that start at `i`, the high one first.
pub open spec fn number16(s: Seq<u8>, i: int) -> int {
    s[i] * 256 + s[i + 1]
}

/// The number in the four bytes of `s` that start at `i`, the high one first.
pub open spec fn number32(s: Seq<u8>, i: int) -> int {
    s[i] * 0x100_0000 + s[i + 1] * 0x1_0000 + s[i + 2] * 0x100 + s[i + 3]
}

/// Where the fields of a TCP segment stand.
pub proof fn fields_of_a_parsed_segment(raw: Seq<u8>, src: [u8; 4], dst: [u8; 4])
    ensures
        segment_in(raw, src, dst) matches Ok(seg) ==> {
            let words = raw[12] as int / 16;
            &&& raw.len() >= 20 && words >= 5 && raw.len() >= 4 * words
            &&& seg.header.src_port == number16(raw, 0)
            &&& seg.header.dst_port == number16(raw, 2)
            &&& seg.header.seq == number32(raw, 4)
            &&& seg.header.ack_num == number32(raw, 8)
            &&& seg.header.data_offset == words
            &&& seg.header.window == number16(raw, 14)
            &&& seg.header.checksum == number16(raw, 16)
            &&& seg.header.urgent_ptr == number16(raw, 18)
            &&& seg.header.flags.fin == (raw[13] % 2 == 1)
            &&& seg.header.flags.syn == (raw[13] / 2 % 2 == 1)
            &&& seg.header.flags.rst == (raw[13] / 4 % 2 == 1)
            &&& seg.header.flags.psh == (raw[13] / 8 % 2 == 1)
            &&& seg.header.flags.ack == (raw[13] / 16 % 2 == 1)
            &&& seg.header.flags.urg == (raw[13] / 32 % 2 == 1)
            &&& seg.payload == raw.subrange(4 * words, raw.len() as int)
        },
{
    if segment_in(raw, src, dst) is Ok {
        let words = raw[12] as int / 16;
        assert(raw.skip(4 * words) =~= raw.subrange(4 * words, raw.len() as int));
    }
}

/// Which segments are taken: those with room for their header and a checksum of zero. Each refusal
/// says why.
pub proof fn segments_are_refused_for_a_reason(raw: Seq<u8>, src: [u8; 4], dst: [u8; 4])
    requires
        raw.len() <= usize::MAX,
    ensures
        ({
            let words = raw[12] as int / 16;
            let sum = internet_checksum(tcp_sum(raw, src, dst));
            match segment_in(raw, src, dst) {
                Ok(seg) => raw.len() >= 20 && words >= 5 && raw.len() >= 4 * words && sum == 0,
                Err(MagnumError::TcpHeaderTooShort { got, need }) => got == raw.len() && got < need
                    && if raw.len() < 20 {
                    need == 20
                } else {
                    words >= 5 && need == 4 * words
                },
                Err(MagnumError::TcpDataOffsetTooSmall(offset)) => raw.len() >= 20 && words < 5
                    && offset == words,
                Err(MagnumError::TcpChecksumMismatch { computed, got }) => raw.len() >= 20 && words
                    >= 5 && raw.len() >= 4 * words && sum != 0 && computed == sum && got
                    == number16(raw, 16),
                Err(_) => false,
            }
        }),
{
}

/// Where the fields of a segment that is sent stand.
pub proof fn fields_of_a_sent_segment(f: SegmentFields)
    ensures
        ({
            let s = encode(f);
            &&& s.len() == 20 + f.payload.len()
            &&& number16(s, 0) == f.src_port
            &&& number16(s, 2) == f.dst_port
            &&& number32(s, 4) == f.seq
            &&& number32(s, 8) == f.ack_num
            &&& s[12] == 0x50
            &&& s[13] / 64 == 0
            &&& (s[13] % 2 == 1) == f.flags.fin
            &&& (s[13] / 2 % 2 == 1) == f.flags.syn
            &&& (s[13] / 4 % 2 == 1) == f.flags.rst
            &&& (s[13] / 8 % 2 == 1) == f.flags.psh
            &&& (s[13] / 16 % 2 == 1) == f.flags.ack
            &&& (s[13] / 32 % 2 == 1) == f.flags.urg
            &&& number16(s, 14) == f.window
            &&& s[18] == 0 && s[19] == 0
            &&& s.subrange(20, s.len() as int) == f.payload
            &&& internet_checksum(tcp_sum(s, f.src_ip, f.dst_ip)) == 0
        }),
{
    sent_checksum_is_zero(f);
    parse_gives_back_what_was_built(f);
    fields_of_a_parsed_segment(encode(f), f.src_ip, f.dst_ip);
    let s = encode(f);
    assert(s.subrange(20, s.len() as int) =~= f.payload);
}

/// What the TCP checksum covers: both addresses, the protocol number, the length, and every byte,
/// those at even places as the high byte of a word.
pub proof fn checksum_covers_the_pseudo_header(segment: Seq<u8>, src: [u8; 4], dst: [u8; 4])
    ensures
        tcp_sum(segment, src, dst) == number16(src@, 0) + number16(src@, 2) + number16(dst@, 0)
            + number16(dst@, 2) + 6 + segment.len() + word_sum(segment),
        word_sum(Seq::<u8>::empty()) == 0,
        forall|s: Seq<u8>, high: u8, low: u8|
            s.len() % 2 == 0 ==> #[trigger] word_sum(s.push(high).push(low)) == word_sum(s) + high
                * 256 + low,
        forall|s: Seq<u8>, high: u8|
            s.len() % 2 == 0 ==> #[trigger] word_sum(s.push(high)) == word_sum(s) + high * 256,
{
    word_sum_of_four(src@);
    word_sum_of_four(dst@);
    assert forall|s: Seq<u8>, high: u8, low: u8| s.len() % 2 == 0 implies #[trigger] word_sum(
        s.push(high).push(low),
    ) == word_sum(s) + high * 256 + low by {
        let one = s.push(high);
        assert(one.drop_last() =~= s);
        assert(word_sum(one) == word_sum(s) + high * 256);
        assert(one.push(low).drop_last() =~= one);
        assert(one.push(low).last() == low);
    }
    assert forall|s: Seq<u8>, high: u8| s.len() % 2 == 0 implies #[trigger] word_sum(s.push(high))
        == word_sum(s) + high * 256 by {
        assert(s.push(high).drop_last() =~= s);
    }
}

proof fn word_sum_of_four(s: Seq<u8>)
    requires
        s.len() == 4,
    ensures
        word_sum(s) == number16(s, 0) + number16(s, 2),
{
    reveal_with_fuel(word_sum, 5);
    let s3 = s.drop_last();
    let s2 = s3.drop_last();
    let s1 = s2.drop_last();
    assert(s1.drop_last().len() == 0);
}

/// A sum that is not zero modulo 65535 has a checksum that is not zero.
proof fn off_by_less_than_a_round(total: nat, other: nat)
    requires
        internet_checksum(total) == 0,
        -65535 < other - total < 65535,
        other != total,
    ensures
        internet_checksum(other) != 0,
{
    let q = (total - 1) / 65535;
    assert(total > 0);
    assert(total == 65535 * (q + 1));
    if internet_checksum(other) == 0 {
        assert(other > 0);
        let p = (other - 1) / 65535;
        assert(other == 65535 * (p + 1));
    }
}

/// A checksum notices any one byte that was changed on the way, in the segment or in an address.
pub proof fn changed_byte_is_noticed(
    segment: Seq<u8>,
    src: [u8; 4],
    dst: [u8; 4],
    i: int,
    b: u8,
)
    requires
        0 <= i < segment.len(),
        b != segment[i],
        segment_in(segment, src, dst) is Ok,
    ensures
        segment_in(segment.update(i, b), src, dst) is Err,
{
    word_sum_update(segment, i, b);
    let total = tcp_sum(segment, src, dst);
    let other = tcp_sum(segment.update(i, b), src, dst);
    off_by_less_than_a_round(total, other);
}

/// So does the checksum of a packet's header.
pub proof fn changed_header_byte_is_noticed(raw: Seq<u8>, i: int, b: u8)
    requires
        packet_in(raw) is Ok,
        0 < i < 4 * (raw[0] % 16),
        b != raw[i],
    ensures
        packet_in(raw.update(i, b)) is Err,
{
    let n = 4 * (raw[0] % 16) as int;
    let head = raw.take(n);
    let changed = raw.update(i, b);
    assert(changed[0] == raw[0]);
    assert(changed.take(n) =~= head.update(i, b));
    word_sum_update(head, i, b);
    off_by_less_than_a_round(word_sum(head), word_sum(head.update(i, b)));
}

/// Where the fields of a packet stand, and what its payload is: what lies between its header and its
/// total length.
pub proof fn fields_of_a_parsed_packet(raw: Seq<u8>)
    ensures
        packet_in(raw) matches Ok(p) ==> {
            let words = raw[0] as int % 16;
            let total = number16(raw, 2);
            &&& raw.len() >= 20 && words >= 5 && 4 * words <= total <= raw.len()
            &&& p.header.ihl == words
            &&& p.header.dscp == raw[1] as int / 4
            &&& p.header.total_len == total
            &&& p.header.id == number16(raw, 4)
            &&& p.header.flags == raw[6] as int / 32
            &&& p.header.frag_offset == number16(raw, 6) % 8192
            &&& p.header.ttl == raw[8]
            &&& p.header.protocol == raw[9]
            &&& p.header.checksum == number16(raw, 10)
            &&& p.header.src@ == raw.subrange(12, 16)
            &&& p.header.dst@ == raw.subrange(16, 20)
            &&& p.payload == raw.subrange(4 * words, total)
        },
{
    if packet_in(raw) is Ok {
        let p = packet_in(raw)->Ok_0;
        assert(p.header.src@ =~= raw.subrange(12, 16));
        assert(p.header.dst@ =~= raw.subrange(16, 20));
    }
}

/// Which packets are taken, and why the others are refused.
pub proof fn packets_are_refused_for_a_reason(raw: Seq<u8>)
    requires
        raw.len() <= usize::MAX,
    ensures
        ({
            let words = raw[0] as int % 16;
            let total = number16(raw, 2);
            let sum = internet_checksum(word_sum(raw.take(4 * words)));
            let fits = raw.len() >= 20 && words >= 5 && raw.len() >= 4 * words;
            match packet_in(raw) {
                Ok(p) => fits && sum == 0 && 4 * words <= total <= raw.len(),
                Err(MagnumError::Ipv4HeaderTooShort { got, need }) => got == raw.len() && got < need
                    && if raw.len() < 20 {
                    need == 20
                } else {
                    words >= 5 && need == 4 * words
                },
                Err(MagnumError::Ipv4IhlTooSmall(ihl)) => raw.len() >= 20 && words < 5 && ihl
                    == words,
                Err(MagnumError::Ipv4ChecksumMismatch { computed, got }) => fits && sum != 0
                    && computed == sum && got == number16(raw, 10),
                Err(MagnumError::Ipv4TruncatedPacket { total_len, buf_len }) => fits && sum == 0
                    && total_len == total && buf_len == raw.len() && total > raw.len(),
                Err(MagnumError::Ipv4TotalLenTooSmall { total_len, header_len }) => fits && sum == 0
                    && total_len == total && header_len == 4 * words && total < 4 * words,
                Err(_) => false,
            }
        }),
{
}

/// Where the fields of a packet that is sent stand: version four without options, not to be
/// fragmented, sixty-four hops.
pub proof fn fields_of_a_sent_packet(
    src: [u8; 4],
    dst: [u8; 4],
    protocol: u8,
    payload: Seq<u8>,
)
    requires
        20 + payload.len() <= 65535,
    ensures
        ({
            let s = packet_bytes(src, dst, protocol, payload);
            &&& s.len() == 20 + payload.len()
            &&& s[0] == 0x45 && s[1] == 0
            &&& number16(s, 2) == 20 + payload.len()
            &&& s[4] == 0 && s[5] == 0
            &&& s[6] == 0x40 && s[7] == 0
            &&& s[8] == 64
            &&& s[9] == protocol
            &&& internet_checksum(word_sum(s.take(20))) == 0
            &&& s.subrange(12, 16) == src@
            &&& s.subrange(16, 20) == dst@
            &&& s.subrange(20, s.len() as int) == payload
        }),
{
    sent_header_checksum_is_zero(src, dst, protocol, payload);
    let s = packet_bytes(src, dst, protocol, payload);
    assert(s.len() == 20 + payload.len());
    assert(s.subrange(12, 16) =~= src@);
    assert(s.subrange(16, 20) =~= dst@);
    assert(s.subrange(20, s.len() as int) =~= payload);
}

/// Where the parts of a frame stand, when it is taken and when it is sent.
pub proof fn parts_of_a_frame(raw: Seq<u8>, dst: [u8; 6], src: [u8; 6], payload: Seq<u8>)
    requires
        raw.len() <= usize::MAX,
    ensures
        match frame_in(raw) {
            Ok(f) => raw.len() >= 14 && number16(raw, 12) == 0x0800 && f.ethertype == 0x0800
                && f.dst_mac@ == raw.subrange(0, 6) && f.src_mac@ == raw.subrange(6, 12)
                && f.payload == raw.subrange(14, raw.len() as int),
            Err(MagnumError::EthernetFrameTooShort { got, need }) => got == raw.len() && need == 14
                && raw.len() < 14,
            Err(MagnumError::NonIpv4EtherType(t)) => raw.len() >= 14 && t == number16(raw, 12) && t
                != 0x0800,
            Err(_) => false,
        },
        ({
            let s = frame_bytes(dst, src, payload);
            &&& s.len() == 14 + payload.len()
            &&& s.subrange(0, 6) == dst@
            &&& s.subrange(6, 12) == src@
            &&& number16(s, 12) == 0x0800
            &&& s.subrange(14, s.len() as int) == payload
        }),
{
    let s = frame_bytes(dst, src, payload);
    assert(s.subrange(0, 6) =~= dst@);
    assert(s.subrange(6, 12) =~= src@);
    assert(s.subrange(14, s.len() as int) =~= payload);
    if frame_in(raw) is Ok {
        let f = frame_in(raw)->Ok_0;
        assert(f.dst_mac@ =~= raw.subrange(0, 6));
        assert(f.src_mac@ =~= raw.subrange(6, 12));
        assert(f.payload =~= raw.subrange(14, raw.len() as int));
    }
}

/// Whether a frame asks who has the address `target`: an ARP request for IPv4 over Ethernet.
pub open spec fn asks_who_has(raw: Seq<u8>, target: [u8; 4]) -> bool {
    &&& raw.len() >= 42
    &&& number16(raw, 12) == 0x0806
    &&& number16(raw, 14) == 1
    &&& number16(raw, 16) == 0x0800
    &&& raw[18] == 6
    &&& raw[19] == 4
    &&& number16(raw, 20) == 1
    &&& raw.subrange(38, 42) == target@
}

/// Who asks for our address is told it, and nobody else is told anything: the answer goes to the one
/// who asked, as an ARP reply with both addresses of each side.
pub proof fn our_address_is_told(raw: Seq<u8>, our_ip: [u8; 4], our_mac: [u8; 6])
    requires
        raw.len() <= usize::MAX,
    ensures
        frame_asks(raw, our_ip, our_mac) is ArpReply <==> asks_who_has(raw, our_ip),
        frame_asks(raw, our_ip, our_mac) matches InboundView::ArpReply(s) ==> {
            &&& s.len() == 42
            &&& s.subrange(0, 6) == raw.subrange(22, 28)
            &&& s.subrange(6, 12) == our_mac@
            &&& number16(s, 12) == 0x0806
            &&& number16(s, 14) == 1
            &&& number16(s, 16) == 0x0800
            &&& s[18] == 6 && s[19] == 4
            &&& number16(s, 20) == 2
            &&& s.subrange(22, 28) == our_mac@
            &&& s.subrange(28, 32) == our_ip@
            &&& s.subrange(32, 38) == raw.subrange(22, 28)
            &&& s.subrange(38, 42) == raw.subrange(28, 32)
        },
{
    if raw.len() >= 42 {
        let at38 = array4_at(raw, 38);
        let mac = array6_at(raw, 22);
        let ip = array4_at(raw, 28);
        assert(at38@ =~= raw.subrange(38, 42));
        assert(mac@ =~= raw.subrange(22, 28));
        assert(ip@ =~= raw.subrange(28, 32));
        let s = reply_bytes(our_mac, our_ip, mac, ip);
        assert(s.subrange(0, 6) =~= mac@);
        assert(s.subrange(6, 12) =~= our_mac@);
        assert(s.subrange(22, 28) =~= our_mac@);
        assert(s.subrange(28, 32) =~= our_ip@);
        assert(s.subrange(32, 38) =~= mac@);
        assert(s.subrange(38, 42) =~= ip@);
    }
}

/// What a frame is taken for: by its type, and for a packet by its protocol number.
pub proof fn frames_are_taken_by_type(raw: Seq<u8>, our_ip: [u8; 4], our_mac: [u8; 6])
    requires
        raw.len() <= usize::MAX,
    ensures
        raw.len() < 14 ==> frame_asks(raw, our_ip, our_mac) is BadFrame,
        raw.len() >= 14 ==> {
            let kind = number16(raw, 12);
            let packet = packet_in(raw.skip(14));
            let asked = frame_asks(raw, our_ip, our_mac);
            &&& kind == 0x0806 ==> asked is ArpReply || asked is ArpIgnored
            &&& kind != 0x0806 && kind != 0x0800 ==> (asked matches InboundView::NonIpv4(
                t,
            ) && t == kind)
            &&& kind == 0x0800 ==> match packet {
                Err(e) => asked == InboundView::BadPacket(e),
                Ok(p) => if p.header.protocol == 1 {
                    asked == (InboundView::Icmp { src: p.header.src, dst: p.header.dst })
                } else if p.header.protocol == 6 {
                    match segment_in(p.payload, p.header.src, p.header.dst) {
                        Err(e) => asked == InboundView::BadSegment(e),
                        Ok(seg) => asked matches InboundView::Tcp {
                            src,
                            dst,
                            dst_mac,
                            src_mac,
                            segment,
                        } && src == p.header.src && dst == p.header.dst && dst_mac@
                            == raw.subrange(0, 6) && src_mac@ == raw.subrange(6, 12) && segment
                            == seg,
                    }
                } else {
                    asked == (InboundView::UnknownProtocol {
                        src: p.header.src,
                        dst: p.header.dst,
                        protocol: p.header.protocol,
                    })
                },
            }
        },
{
    if raw.len() >= 14 {
        let dst = array6_at(raw, 0);
        let src = array6_at(raw, 6);
        assert(dst@ =~= raw.subrange(0, 6));
        assert(src@ =~= raw.subrange(6, 12));
    }
}

/// The kernel gets the first fifteen bytes of an interface's name, and a zero behind them.
pub proof fn interface_names_end(bytes: Seq<u8>, i: int)
    requires
        0 <= i < 16,
    ensures
        name_field(bytes).len() == 16,
        i < 15 && i < bytes.len() ==> name_field(bytes)[i] == bytes[i],
        i == 15 || i >= bytes.len() ==> name_field(bytes)[i] == 0,
{
}

/// The unit of a numbered tunnel device is one more than its number.
pub proof fn tunnel_units_count_from_one(n: nat)
    requires
        n < u32::MAX,
    ensures
        unit_of("utun"@ + decimal(n)) == n + 1,
{
    reveal_strlit("utun");
    let name = "utun"@ + decimal(n);
    decimal_round_trip(n);
    assert(name.take(4) =~= "utun"@);
    assert(name.skip(4) =~= decimal(n));
    assert(is_digit(decimal(n)[0]));
    assert(decimal(n)[0] != '+');
}

/// A device that is not called after the tunnel has no unit.
pub proof fn other_devices_have_no_unit(name: Seq<char>)
    requires
        name.len() < 4 || !(name[0] == 'u' && name[1] == 't' && name[2] == 'u' && name[3] == 'n'),
    ensures
        unit_of(name) == 0,
{
    reveal_strlit("utun");
    if name.len() >= 4 && name.take(4) == "utun"@ {
        let p = name.take(4);
        assert(p[0] == name[0] && p[1] == name[1] && p[2] == name[2] && p[3] == name[3]);
    }
}

/// A checksum fills a sum up to a multiple of 65535, the sum of nothing to one round.
pub proof fn checksum_fills_the_round(total: nat)
    ensures
        (total + internet_checksum(total)) % 65535 == 0,
        total > 0 ==> internet_checksum(total) < 65535,
        total == 0 ==> internet_checksum(total) == 65535,
{
    if total > 0 {
        let q = (total - 1) / 65535;
        assert(total + internet_checksum(total) == 65535 * (q + 1));
    }
}

/// An address is read from exactly four parts between dots, each a number below 256, in their order.
pub proof fn addresses_have_four_numbers(
    a: Seq<char>,
    b: Seq<char>,
    c: Seq<char>,
    d: Seq<char>,
)
    requires
        !a.contains('.') && !b.contains('.') && !c.contains('.') && !d.contains('.'),
    ensures
        ({
            let text = a.push('.') + b.push('.') + c.push('.') + d;
            let all = octet(a) is Some && octet(b) is Some && octet(c) is Some && octet(d) is Some;
            &&& address_in(text) is Some <==> all
            &&& address_in(text) matches Some(addr) ==> Some(addr[0]) == octet(a) && Some(addr[1])
                == octet(b) && Some(addr[2]) == octet(c) && Some(addr[3]) == octet(d)
        }),
        address_in(a) is None,
        address_in(a.push('.') + b) is None,
        address_in(a.push('.') + b.push('.') + c) is None,
        address_in(a.push('.') + b.push('.') + c.push('.') + d.push('.') + a) is None,
{
    let none = Seq::<char>::empty();
    split_append(none, a);
    assert(none + a =~= a);
    assert(split_at_dots(none).last() + a =~= a);
    assert(split_at_dots(a) =~= seq![a]);
    split_push_part(a, b);
    let t1 = a.push('.') + b;
    split_push_part(t1, c);
    let t2 = t1.push('.') + c;
    assert(t2 =~= a.push('.') + b.push('.') + c);
    split_push_part(t2, d);
    let t3 = t2.push('.') + d;
    assert(t3 =~= a.push('.') + b.push('.') + c.push('.') + d);
    split_push_part(t3, a);
    let t4 = t3.push('.') + a;
    assert(t4 =~= a.push('.') + b.push('.') + c.push('.') + d.push('.') + a);
    assert(split_at_dots(t3) =~= seq![a, b, c, d]);
}

/// A text without the plus sign that it may begin with.
pub open spec fn without_plus(text: Seq<char>) -> Seq<char> {
    if text.len() > 0 && text[0] == '+' {
        text.skip(1)
    } else {
        text
    }
}

/// A number below 256 is one or more digits that stand for it, behind at most one plus sign. Each digit
/// counts ten times as much as the next.
pub proof fn octets_are_small_numbers(text: Seq<char>, i: int)
    ensures
        octet(text) matches Some(n) ==> {
            &&& without_plus(text).len() > 0
            &&& 0 <= i < without_plus(text).len() ==> 48 <= without_plus(text)[i] as u32 <= 57
            &&& decimal_value(without_plus(text)) == n
        },
        forall|digits: Seq<char>, c: char|
            48 <= c as u32 <= 57 ==> #[trigger] decimal_value(digits.push(c)) == decimal_value(
                digits,
            ) * 10 + (c as u32 - 48),
        decimal_value(Seq::empty()) == 0,
        text.len() == 0 ==> octet(text) is None,
{
    assert forall|digits: Seq<char>, c: char| 48 <= c as u32 <= 57 implies #[trigger] decimal_value(
        digits.push(c),
    ) == decimal_value(digits) * 10 + (c as u32 - 48) by {
        assert(digits.push(c).drop_last() =~= digits);
    }
    if octet(text) is Some {
        let number = without_plus(text);
        assert(unsigned(text, 255) is Some);
        assert(unsigned(text, 255) == Some(decimal_value(number)));
        assert(all_digits(number));
        if 0 <= i < number.len() {
            assert(is_digit(number[i]));
        }
    }
}

} // verus!
