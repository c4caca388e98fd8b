//! Capture files in the pcap format.
use vstd::prelude::*;

use crate::clock::{wall_clock, wall_clock_reads};
use crate::wire::{le16_bytes, le32_bytes, push_bytes, push_le16, push_le32};

verus! {

pub const LINKTYPE_ETHERNET: u32 = 1;

pub const LINKTYPE_IPV4: u32 = 228;

pub const PCAP_MAGIC_LE: u32 = 0xa1b2c3d4;

pub const PCAP_VERSION_MAJOR: u16 = 2;

pub const PCAP_VERSION_MINOR: u16 = 4;

pub const PCAP_SNAPLEN: u32 = 65535;

/// The header of a capture of frames of the given link type.
pub open spec fn global_header(linktype: u32) -> Seq<u8> {
    le32_bytes(PCAP_MAGIC_LE) + le16_bytes(PCAP_VERSION_MAJOR) + le16_bytes(PCAP_VERSION_MINOR)
        + le32_bytes(0) + le32_bytes(0) + le32_bytes(PCAP_SNAPLEN) + le32_bytes(linktype)
}

/// The record of one frame: the time, the length twice, the frame.
pub open spec fn record(ts_sec: u32, ts_usec: u32, data: Seq<u8>) -> Seq<u8> {
    let len = (data.len() % 0x1_0000_0000) as u32;
    le32_bytes(ts_sec) + le32_bytes(ts_usec) + le32_bytes(len) + le32_bytes(len) + data
}

/// The two fields that say when a frame was captured, `secs` seconds and `nanos` nanoseconds after
/// the Unix epoch: the seconds as far as the field can say them, and whole microseconds.
pub open spec fn timestamp_at(secs: u64, nanos: u32) -> (u32, u32) {
    ((secs % 0x1_0000_0000) as u32, nanos / 1000)
}

/// The time fields of a frame that was captured `secs` seconds and `nanos` nanoseconds after the
/// Unix epoch.
pub fn timestamp(secs: u64, nanos: u32) -> (r: (u32, u32))
    requires
        nanos < 1_000_000_000,
    ensures
        r == timestamp_at(secs, nanos),
        r.1 < 1_000_000,
{
    ((secs % 0x1_0000_0000) as u32, nanos / 1000)
}

/// A capture under construction; what was written so far is in `writer`.
pub struct PcapWriter {
    pub writer: Vec<u8>,
}

impl PcapWriter {
    pub fn new(writer: Vec<u8>, linktype: u32) -> (r: Self)
        ensures
            r.writer@ == writer@ + global_header(linktype),
    {
        let mut out = writer;
        push_le32(&mut out, PCAP_MAGIC_LE);
        push_le16(&mut out, PCAP_VERSION_MAJOR);
        push_le16(&mut out, PCAP_VERSION_MINOR);
        push_le32(&mut out, 0);
        push_le32(&mut out, 0);
        push_le32(&mut out, PCAP_SNAPLEN);
        push_le32(&mut out, linktype);
        assert(out@ =~= writer@ + global_header(linktype));
        PcapWriter { writer: out }
    }

    /// Appends a frame that is captured now. The seconds are those since the Unix epoch, as far as
    /// the field can say them.
    pub fn write_packet(&mut self, data: &[u8])
        ensures
            exists|secs: u64, nanos: u32|
                {
                    let (ts_sec, ts_usec) = #[trigger] timestamp_at(secs, nanos);
                    &&& wall_clock_reads(secs, nanos)
                    &&& nanos < 1_000_000_000
                    &&& final(self).writer@ == old(self).writer@ + record(ts_sec, ts_usec, data@)
                },
    {
        let (secs, nanos) = wall_clock();
        let (ts_sec, ts_usec) = timestamp(secs, nanos);
        self.write_packet_at(ts_sec, ts_usec, data);
    }

    /// Appends a frame that was captured at the given time.
    pub fn write_packet_at(&mut self, ts_sec: u32, ts_usec: u32, data: &[u8])
        ensures
            final(self).writer@ == old(self).writer@ + record(ts_sec, ts_usec, data@),
    {
        let len: u32 = (data.len() as u64 % 0x1_0000_0000) as u32;
        push_le32(&mut self.writer, ts_sec);
        push_le32(&mut self.writer, ts_usec);
        push_le32(&mut self.writer, len);
        push_le32(&mut self.writer, len);
        push_bytes(&mut self.writer, data);
        assert(self.writer@ =~= old(self).writer@ + record(ts_sec, ts_usec, data@));
    }
}

/// The header of a capture, field by field: the magic number, the version, two zeros, the longest
/// frame kept and the link type, all little-endian.
pub proof fn header_has_the_standard_fields(linktype: u32)
    ensures
        ({
            let h = global_header(linktype);
            &&& h.len() == 24
            &&& h.subrange(0, 4) == seq![0xd4u8, 0xc3u8, 0xb2u8, 0xa1u8]
            &&& h.subrange(4, 8) == seq![2u8, 0u8, 4u8, 0u8]
            &&& h.subrange(8, 16) == seq![0u8, 0u8, 0u8, 0u8, 0u8, 0u8, 0u8, 0u8]
            &&& h.subrange(16, 20) == seq![0xffu8, 0xffu8, 0u8, 0u8]
            &&& h.subrange(20, 24) == le32_bytes(linktype)
        }),
{
    let h = global_header(linktype);
    assert(h.subrange(0, 4) =~= seq![0xd4u8, 0xc3u8, 0xb2u8, 0xa1u8]);
    assert(h.subrange(4, 8) =~= seq![2u8, 0u8, 4u8, 0u8]);
    assert(h.subrange(8, 16) =~= seq![0u8, 0u8, 0u8, 0u8, 0u8, 0u8, 0u8, 0u8]);
    assert(h.subrange(16, 20) =~= seq![0xffu8, 0xffu8, 0u8, 0u8]);
    assert(h.subrange(20, 24) =~= le32_bytes(linktype));
}

proof fn record_fields(ts_sec: u32, ts_usec: u32, data: Seq<u8>)
    requires
        data.len() < 0x1_0000_0000,
    ensures
        ({
            let rec = record(ts_sec, ts_usec, data);
            let len = data.len() as u32;
            &&& rec.len() == 16 + len
            &&& rec.subrange(0, 4) == le32_bytes(ts_sec)
            &&& rec.subrange(4, 8) == le32_bytes(ts_usec)
            &&& rec.subrange(8, 12) == le32_bytes(len)
            &&& rec.subrange(12, 16) == le32_bytes(len)
            &&& rec.subrange(16, 16 + len) == data
        }),
{
    let rec = record(ts_sec, ts_usec, data);
    let len = data.len() as u32;
    assert(rec.subrange(0, 4) =~= le32_bytes(ts_sec));
    assert(rec.subrange(4, 8) =~= le32_bytes(ts_usec));
    assert(rec.subrange(8, 12) =~= le32_bytes(len));
    assert(rec.subrange(12, 16) =~= le32_bytes(len));
    assert(rec.subrange(16, 16 + len) =~= data);
}

/// A part of a part is a part of the whole.
proof fn part_of_the_middle(before: Seq<u8>, rec: Seq<u8>, after: Seq<u8>, from: int, to: int)
    requires
        0 <= from <= to <= rec.len(),
    ensures
        (before + rec + after).subrange(before.len() + from, before.len() + to) == rec.subrange(
            from,
            to,
        ),
{
    assert((before + rec + after).subrange(before.len() + from, before.len() + to)
        =~= rec.subrange(from, to));
}

/// A capture starts with twenty-four bytes of header, and each record is sixteen bytes and its
/// frame: when it was captured, and its length twice. A reader finds every frame by walking the
/// records.
pub proof fn records_can_be_walked(
    before: Seq<u8>,
    linktype: u32,
    ts_sec: u32,
    ts_usec: u32,
    data: Seq<u8>,
    after: Seq<u8>,
)
    requires
        data.len() < 0x1_0000_0000,
    ensures
        global_header(linktype).len() == 24,
        ({
            let file = before + record(ts_sec, ts_usec, data) + after;
            let at = before.len() as int;
            let len = data.len() as u32;
            &&& file.take(at) == before
            &&& file.subrange(at, at + 4) == le32_bytes(ts_sec)
            &&& file.subrange(at + 4, at + 8) == le32_bytes(ts_usec)
            &&& file.subrange(at + 8, at + 12) == le32_bytes(len)
            &&& file.subrange(at + 12, at + 16) == le32_bytes(len)
            &&& file.subrange(at + 16, at + 16 + len) == data
            &&& file.skip(at + 16 + len) == after
        }),
{
    header_has_the_standard_fields(linktype);
    record_fields(ts_sec, ts_usec, data);
    let rec = record(ts_sec, ts_usec, data);
    let file = before + rec + after;
    let at = before.len() as int;
    let len = data.len() as u32;
    part_of_the_middle(before, rec, after, 0, 4);
    part_of_the_middle(before, rec, after, 4, 8);
    part_of_the_middle(before, rec, after, 8, 12);
    part_of_the_middle(before, rec, after, 12, 16);
    part_of_the_middle(before, rec, after, 16, 16 + len);
    assert(file.take(at) =~= before);
    assert(file.skip(at + 16 + len) =~= after);
}

/// The time of a capture can be told from its record: the microsecond it fell into.
pub proof fn timestamps_keep_the_time(secs: u64, nanos: u32)
    requires
        nanos < 1_000_000_000,
        secs < 0x1_0000_0000,
    ensures
        ({
            let (ts_sec, ts_usec) = timestamp_at(secs, nanos);
            &&& ts_sec == secs
            &&& ts_usec < 1_000_000
            &&& ts_usec * 1000 <= nanos < ts_usec * 1000 + 1000
        }),
{
}

} // verus!
