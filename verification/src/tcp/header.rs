//! TCP segments on the wire: flags, header, pseudo-header checksum, parser and builder.
use vstd::prelude::*;

use crate::error::MagnumError;
use crate::ipv4::PROTO_TCP;
use crate::wire::{
    add_words, be16, be16_bytes, be16_round_trip, be32, be32_bytes, be32_round_trip,
    checksum_closes, copy_bytes, fold16_step, internet_checksum, push_be16, push_be32, push_bytes,
    read_be16, read_be32, word_sum, word_sum_store,
};
use vstd::slice::slice_subrange;

verus! {

pub const TCP_MIN_HEADER_LEN: usize = 20;

pub const RECV_WINDOW: u16 = 65535;

#[derive(Debug, Clone, Copy, PartialEq, Eq, Structural)]
pub struct TcpFlags {
    pub urg: bool,
    pub ack: bool,
    pub psh: bool,
    pub rst: bool,
    pub syn: bool,
    pub fin: bool,
}

/// No flag set.
pub open spec fn no_flags() -> TcpFlags {
    TcpFlags { urg: false, ack: false, psh: false, rst: false, syn: false, fin: false }
}

/// The flags that the low six bits of `b` stand for.
pub open spec fn flags_of_byte(b: u8) -> TcpFlags {
    TcpFlags {
        urg: b / 32 % 2 == 1,
        ack: b / 16 % 2 == 1,
        psh: b / 8 % 2 == 1,
        rst: b / 4 % 2 == 1,
        syn: b / 2 % 2 == 1,
        fin: b % 2 == 1,
    }
}

/// The byte that `f` is written as.
pub open spec fn flags_byte(f: TcpFlags) -> u8 {
    ((if f.urg { 32int } else { 0 }) + (if f.ack { 16int } else { 0 }) + (if f.psh { 8int } else { 0 })
        + (if f.rst { 4int } else { 0 }) + (if f.syn { 2int } else { 0 }) + (if f.fin { 1int } else { 0 }))
        as u8
}

impl Default for TcpFlags {
    fn default() -> (r: Self)
        ensures
            r == no_flags(),
    {
        TcpFlags { urg: false, ack: false, psh: false, rst: false, syn: false, fin: false }
    }
}

impl TcpFlags {
    pub fn from_byte(b: u8) -> (r: Self)
        ensures
            r == flags_of_byte(b),
    {
        TcpFlags {
            urg: b / 32 % 2 == 1,
            ack: b / 16 % 2 == 1,
            psh: b / 8 % 2 == 1,
            rst: b / 4 % 2 == 1,
            syn: b / 2 % 2 == 1,
            fin: b % 2 == 1,
        }
    }

    pub fn to_byte(self) -> (r: u8)
        ensures
            r == flags_byte(self),
    {
        let urg: u8 = if self.urg { 32 } else { 0 };
        let ack: u8 = if self.ack { 16 } else { 0 };
        let psh: u8 = if self.psh { 8 } else { 0 };
        let rst: u8 = if self.rst { 4 } else { 0 };
        let syn: u8 = if self.syn { 2 } else { 0 };
        let fin: u8 = if self.fin { 1 } else { 0 };
        urg + ack + psh + rst + syn + fin
    }
}

/// Flags survive being written as a byte and read back.
pub proof fn flags_round_trip(f: TcpFlags)
    ensures
        flags_of_byte(flags_byte(f)) == f,
{
}

/// A byte survives being read as flags and written back, but for its two top bits, which stand for
/// no flag.
pub proof fn flags_byte_round_trip(b: u8)
    ensures
        flags_byte(flags_of_byte(b)) == b % 64,
{
    assert((if b / 32 % 2 == 1 { 32u8 } else { 0u8 }) + (if b / 16 % 2 == 1 { 16u8 } else { 0u8 }) + (
    if b / 8 % 2 == 1 { 8u8 } else { 0u8 }) + (if b / 4 % 2 == 1 { 4u8 } else { 0u8 }) + (
    if b / 2 % 2 == 1 { 2u8 } else { 0u8 }) + (if b % 2 == 1 { 1u8 } else { 0u8 }) == b % 64)
        by (bit_vector);
}

#[derive(Debug, Clone, Copy, PartialEq, Eq, Structural)]
pub struct TcpHeader {
    pub src_port: u16,
    pub dst_port: u16,
    pub seq: u32,
    pub ack_num: u32,
    pub data_offset: u8,
    pub flags: TcpFlags,
    pub window: u16,
    pub checksum: u16,
    pub urgent_ptr: u16,
}

/// A segment as its header and the bytes it carries.
#[verifier::ext_equal]
pub ghost struct SegmentView {
    pub header: TcpHeader,
    pub payload: Seq<u8>,
}

#[derive(Debug)]
pub struct TcpSegment<'a> {
    pub header: TcpHeader,
    pub payload: &'a [u8],
}

impl<'a> View for TcpSegment<'a> {
    type V = SegmentView;

    open spec fn view(&self) -> SegmentView {
        SegmentView { header: self.header, payload: self.payload@ }
    }
}

/// A segment that owns its payload, so that it can outlive the frame it came in.
#[derive(Debug)]
pub struct TcpSegmentOwned {
    pub header: TcpHeader,
    pub payload: Vec<u8>,
}

impl View for TcpSegmentOwned {
    type V = SegmentView;

    open spec fn view(&self) -> SegmentView {
        SegmentView { header: self.header, payload: self.payload@ }
    }
}

impl TcpSegmentOwned {
    /// The same segment, borrowed.
    pub fn as_seg(&self) -> (r: TcpSegment<'_>)
        ensures
            r@ == self@,
    {
        TcpSegment { header: self.header, payload: self.payload.as_slice() }
    }
}

impl<'a> From<&TcpSegment<'a>> for TcpSegmentOwned {
    fn from(seg: &TcpSegment<'a>) -> (r: Self)
        ensures
            r@ == seg@,
    {
        TcpSegmentOwned { header: seg.header, payload: copy_bytes(seg.payload) }
    }
}

impl<'a> vstd::std_specs::convert::FromSpecImpl<&TcpSegment<'a>> for TcpSegmentOwned {
    /// What `from` gives back is stated over the view, in its own postcondition.
    open spec fn obeys_from_spec() -> bool {
        false
    }

    open spec fn from_spec(seg: &TcpSegment<'a>) -> TcpSegmentOwned {
        arbitrary()
    }
}

/// What the TCP checksum is taken over: the pseudo-header's words (both addresses, the protocol
/// number and the segment's length) and the segment's own.
pub open spec fn tcp_sum(segment: Seq<u8>, src_ip: [u8; 4], dst_ip: [u8; 4]) -> nat {
    segment.len() + word_sum(src_ip@) + word_sum(dst_ip@) + PROTO_TCP as nat + word_sum(segment)
}

pub fn tcp_checksum(tcp_segment: &[u8], src_ip: [u8; 4], dst_ip: [u8; 4]) -> (r: u16)
    ensures
        r == internet_checksum(tcp_sum(tcp_segment@, src_ip, dst_ip)),
{
    let len = tcp_segment.len();
    let ghost total: nat = len as nat;
    let mut sum: u32 = if len == 0 { 0 } else { ((len - 1) % 65535) as u32 + 1 };
    sum = add_words(sum, &src_ip, Ghost(total));
    proof {
        total = total + word_sum(src_ip@);
    }
    sum = add_words(sum, &dst_ip, Ghost(total));
    proof {
        total = total + word_sum(dst_ip@);
        fold16_step(total, PROTO_TCP as nat);
    }
    sum = sum + PROTO_TCP as u32;
    if sum > 65535 {
        sum = sum - 65535;
    }
    proof {
        total = total + PROTO_TCP as nat;
    }
    sum = add_words(sum, tcp_segment, Ghost(total));
    (65535 - sum) as u16
}

/// The header in the first twenty bytes of `raw`.
pub open spec fn header_in(raw: Seq<u8>) -> TcpHeader {
    TcpHeader {
        src_port: be16(raw[0], raw[1]),
        dst_port: be16(raw[2], raw[3]),
        seq: be32(raw[4], raw[5], raw[6], raw[7]),
        ack_num: be32(raw[8], raw[9], raw[10], raw[11]),
        data_offset: raw[12] / 16,
        flags: flags_of_byte(raw[13]),
        window: be16(raw[14], raw[15]),
        checksum: be16(raw[16], raw[17]),
        urgent_ptr: be16(raw[18], raw[19]),
    }
}

/// The segment that `raw` holds, or why it holds none.
pub open spec fn segment_in(raw: Seq<u8>, src_ip: [u8; 4], dst_ip: [u8; 4]) -> Result<
    SegmentView,
    MagnumError,
> {
    let offset = raw[12] / 16;
    let header_len = offset * 4;
    let computed = internet_checksum(tcp_sum(raw, src_ip, dst_ip));
    if raw.len() < TCP_MIN_HEADER_LEN {
        Err(MagnumError::TcpHeaderTooShort { got: raw.len() as usize, need: TCP_MIN_HEADER_LEN })
    } else if offset < 5 {
        Err(MagnumError::TcpDataOffsetTooSmall(offset))
    } else if raw.len() < header_len {
        Err(MagnumError::TcpHeaderTooShort { got: raw.len() as usize, need: header_len as usize })
    } else if computed != 0 {
        Err(MagnumError::TcpChecksumMismatch { computed, got: be16(raw[16], raw[17]) })
    } else {
        Ok(SegmentView { header: header_in(raw), payload: raw.skip(header_len) })
    }
}

impl<'a> TcpSegment<'a> {
    pub fn parse(raw: &'a [u8], src_ip: [u8; 4], dst_ip: [u8; 4]) -> (r: Result<
        TcpSegment<'a>,
        MagnumError,
    >)
        ensures
            match r {
                Ok(seg) => segment_in(raw@, src_ip, dst_ip) == Ok::<SegmentView, MagnumError>(seg@),
                Err(e) => segment_in(raw@, src_ip, dst_ip) == Err::<SegmentView, MagnumError>(e),
            },
    {
        if raw.len() < TCP_MIN_HEADER_LEN {
            return Err(
                MagnumError::TcpHeaderTooShort { got: raw.len(), need: TCP_MIN_HEADER_LEN },
            );
        }
        let data_offset: u8 = raw[12] / 16;
        if data_offset < 5 {
            return Err(MagnumError::TcpDataOffsetTooSmall(data_offset));
        }
        let header_len: usize = data_offset as usize * 4;
        if raw.len() < header_len {
            return Err(MagnumError::TcpHeaderTooShort { got: raw.len(), need: header_len });
        }
        let stored_checksum: u16 = read_be16(raw[16], raw[17]);
        let computed: u16 = tcp_checksum(raw, src_ip, dst_ip);
        if computed != 0 {
            return Err(MagnumError::TcpChecksumMismatch { computed, got: stored_checksum });
        }
        let header = TcpHeader {
            src_port: read_be16(raw[0], raw[1]),
            dst_port: read_be16(raw[2], raw[3]),
            seq: read_be32(raw[4], raw[5], raw[6], raw[7]),
            ack_num: read_be32(raw[8], raw[9], raw[10], raw[11]),
            data_offset,
            flags: TcpFlags::from_byte(raw[13]),
            window: read_be16(raw[14], raw[15]),
            checksum: stored_checksum,
            urgent_ptr: read_be16(raw[18], raw[19]),
        };
        let payload = slice_subrange(raw, header_len, raw.len());
        assert(payload@ =~= raw@.skip(header_len as int));
        Ok(TcpSegment { header, payload })
    }
}

/// What a segment to be sent consists of.
#[verifier::ext_equal]
pub ghost struct SegmentFields {
    pub src_ip: [u8; 4],
    pub dst_ip: [u8; 4],
    pub src_port: u16,
    pub dst_port: u16,
    pub seq: u32,
    pub ack_num: u32,
    pub flags: TcpFlags,
    pub window: u16,
    pub payload: Seq<u8>,
}

/// The bytes of the segment `f` with `checksum` in the checksum field. The header has no options
/// and the urgent pointer is zero.
pub open spec fn segment_bytes(f: SegmentFields, checksum: u16) -> Seq<u8> {
    be16_bytes(f.src_port) + be16_bytes(f.dst_port) + be32_bytes(f.seq) + be32_bytes(f.ack_num)
        + seq![0x50u8, flags_byte(f.flags)] + be16_bytes(f.window) + be16_bytes(checksum) + seq![
        0u8,
        0u8,
    ] + f.payload
}

/// The checksum that the segment `f` is sent with.
pub open spec fn segment_checksum(f: SegmentFields) -> u16 {
    internet_checksum(tcp_sum(segment_bytes(f, 0), f.src_ip, f.dst_ip))
}

/// The bytes that the segment `f` is sent as.
pub open spec fn encode(f: SegmentFields) -> Seq<u8> {
    segment_bytes(f, segment_checksum(f))
}

/// What a receiver makes of the segment `f`.
pub open spec fn received(f: SegmentFields) -> SegmentView {
    SegmentView {
        header: TcpHeader {
            src_port: f.src_port,
            dst_port: f.dst_port,
            seq: f.seq,
            ack_num: f.ack_num,
            data_offset: 5,
            flags: f.flags,
            window: f.window,
            checksum: segment_checksum(f),
            urgent_ptr: 0,
        },
        payload: f.payload,
    }
}

proof fn segment_bytes_fields(f: SegmentFields, checksum: u16)
    ensures
        segment_bytes(f, checksum).len() == 20 + f.payload.len(),
        segment_bytes(f, checksum) == segment_bytes(f, 0).update(
            16,
            be16_bytes(checksum)[0],
        ).update(17, be16_bytes(checksum)[1]),
        segment_bytes(f, checksum)[12] == 0x50,
        header_in(segment_bytes(f, checksum)) == (TcpHeader {
            checksum,
            ..received(f).header
        }),
        segment_bytes(f, checksum).skip(20) == f.payload,
{
    let s = segment_bytes(f, checksum);
    assert(s =~= segment_bytes(f, 0).update(16, be16_bytes(checksum)[0]).update(
        17,
        be16_bytes(checksum)[1],
    ));
    assert(s.skip(20) =~= f.payload);
    be16_round_trip(f.src_port);
    be16_round_trip(f.dst_port);
    be32_round_trip(f.seq);
    be32_round_trip(f.ack_num);
    be16_round_trip(f.window);
    be16_round_trip(checksum);
    flags_round_trip(f.flags);
}

/// A segment is sent with a checksum that a receiver's check finds to be zero.
pub proof fn sent_checksum_is_zero(f: SegmentFields)
    ensures
        internet_checksum(tcp_sum(encode(f), f.src_ip, f.dst_ip)) == 0,
{
    let c = segment_checksum(f);
    let bare = segment_bytes(f, 0);
    segment_bytes_fields(f, 0);
    segment_bytes_fields(f, c);
    word_sum_store(bare, 16, c);
    checksum_closes(tcp_sum(bare, f.src_ip, f.dst_ip));
}

/// Parsing the bytes that a segment is sent as gives the segment back: both ports, both sequence
/// numbers, the flags, the window and the payload.
pub proof fn parse_gives_back_what_was_built(f: SegmentFields)
    ensures
        segment_in(encode(f), f.src_ip, f.dst_ip) == Ok::<SegmentView, MagnumError>(received(f)),
{
    segment_bytes_fields(f, segment_checksum(f));
    sent_checksum_is_zero(f);
}

pub struct SegmentBuilder {
    src_ip: [u8; 4],
    dst_ip: [u8; 4],
    src_port: u16,
    dst_port: u16,
    seq: u32,
    ack_num: u32,
    flags: TcpFlags,
    window: u16,
    payload: Vec<u8>,
}

impl View for SegmentBuilder {
    type V = SegmentFields;

    closed spec fn view(&self) -> SegmentFields {
        SegmentFields {
            src_ip: self.src_ip,
            dst_ip: self.dst_ip,
            src_port: self.src_port,
            dst_port: self.dst_port,
            seq: self.seq,
            ack_num: self.ack_num,
            flags: self.flags,
            window: self.window,
            payload: self.payload@,
        }
    }
}

impl SegmentBuilder {
    pub fn new(src_ip: [u8; 4], dst_ip: [u8; 4], src_port: u16, dst_port: u16) -> (r: Self)
        ensures
            r@ == (SegmentFields {
                src_ip,
                dst_ip,
                src_port,
                dst_port,
                seq: 0,
                ack_num: 0,
                flags: no_flags(),
                window: RECV_WINDOW,
                payload: Seq::empty(),
            }),
    {
        SegmentBuilder {
            src_ip,
            dst_ip,
            src_port,
            dst_port,
            seq: 0,
            ack_num: 0,
            flags: TcpFlags::default(),
            window: RECV_WINDOW,
            payload: Vec::new(),
        }
    }

    pub fn seq(self, seq: u32) -> (r: Self)
        ensures
            r@ == (SegmentFields { seq, ..self@ }),
    {
        SegmentBuilder { seq, ..self }
    }

    pub fn ack(self, ack_num: u32) -> (r: Self)
        ensures
            r@ == (SegmentFields { ack_num, ..self@ }),
    {
        SegmentBuilder { ack_num, ..self }
    }

    pub fn flags(self, flags: TcpFlags) -> (r: Self)
        ensures
            r@ == (SegmentFields { flags, ..self@ }),
    {
        SegmentBuilder { flags, ..self }
    }

    pub fn window(self, window: u16) -> (r: Self)
        ensures
            r@ == (SegmentFields { window, ..self@ }),
    {
        SegmentBuilder { window, ..self }
    }

    pub fn payload(self, data: &[u8]) -> (r: Self)
        ensures
            r@ == (SegmentFields { payload: data@, ..self@ }),
    {
        SegmentBuilder { payload: copy_bytes(data), ..self }
    }

    pub fn build(self) -> (r: Vec<u8>)
        ensures
            r@ == encode(self@),
    {
        let mut buf: Vec<u8> = Vec::new();
        push_be16(&mut buf, self.src_port);
        push_be16(&mut buf, self.dst_port);
        push_be32(&mut buf, self.seq);
        push_be32(&mut buf, self.ack_num);
        buf.push(0x50);
        buf.push(self.flags.to_byte());
        push_be16(&mut buf, self.window);
        push_be16(&mut buf, 0);
        push_be16(&mut buf, 0);
        push_bytes(&mut buf, self.payload.as_slice());
        assert(buf@ =~= segment_bytes(self@, 0));
        let csum: u16 = tcp_checksum(buf.as_slice(), self.src_ip, self.dst_ip);
        proof {
            segment_bytes_fields(self@, csum);
        }
        buf[16] = (csum / 0x100) as u8;
        buf[17] = (csum % 0x100) as u8;
        buf
    }
}

} // verus!
