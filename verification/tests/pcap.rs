use magnum_tcp::clock::unix_seconds;
use magnum_tcp::pcap::{timestamp, PcapWriter, LINKTYPE_ETHERNET, LINKTYPE_IPV4, PCAP_MAGIC_LE};

fn make_writer(linktype: u32) -> PcapWriter {
    PcapWriter::new(Vec::new(), linktype)
}

#[test]
fn global_header_magic_and_version() {
    let pw = make_writer(LINKTYPE_ETHERNET);
    let buf = pw.writer;
    assert_eq!(buf.len(), 24, "global header must be 24 bytes");
    assert_eq!(&buf[0..4], &PCAP_MAGIC_LE.to_le_bytes(), "magic mismatch");
    assert_eq!(&buf[4..6], &2u16.to_le_bytes(), "version_major");
    assert_eq!(&buf[6..8], &4u16.to_le_bytes(), "version_minor");
    assert_eq!(&buf[20..24], &LINKTYPE_ETHERNET.to_le_bytes(), "linktype");
}

#[test]
fn packet_record_length_and_payload() {
    let mut pw = make_writer(LINKTYPE_ETHERNET);
    let data = b"hello pcap";
    pw.write_packet(data);

    let buf = pw.writer;
    let record = &buf[24..];
    let incl_len = u32::from_le_bytes(record[8..12].try_into().unwrap());
    let orig_len = u32::from_le_bytes(record[12..16].try_into().unwrap());
    assert_eq!(incl_len, data.len() as u32);
    assert_eq!(orig_len, data.len() as u32);
    assert_eq!(&record[16..], data);
}

#[test]
fn two_packets_appended_sequentially() {
    let mut pw = make_writer(LINKTYPE_IPV4);
    pw.write_packet(b"first");
    pw.write_packet(b"second");

    let buf = pw.writer;
    let first_start = 24;
    let first_len =
        u32::from_le_bytes(buf[first_start + 8..first_start + 12].try_into().unwrap()) as usize;
    let second_start = first_start + 16 + first_len;
    let second_len =
        u32::from_le_bytes(buf[second_start + 8..second_start + 12].try_into().unwrap())
            as usize;
    assert_eq!(first_len, 5);
    assert_eq!(second_len, 6);
    assert_eq!(
        &buf[first_start + 16..first_start + 16 + first_len],
        b"first"
    );
    assert_eq!(
        &buf[second_start + 16..second_start + 16 + second_len],
        b"second"
    );
}

#[test]
fn linktype_ipv4_in_header() {
    let pw = make_writer(LINKTYPE_IPV4);
    let linktype = u32::from_le_bytes(pw.writer[20..24].try_into().unwrap());
    assert_eq!(linktype, LINKTYPE_IPV4);
}

#[test]
fn record_has_exact_bytes() {
    let mut pw = PcapWriter::new(vec![0xEE], LINKTYPE_IPV4);
    pw.write_packet_at(0x01020304, 999_999, b"ab");
    let mut expected = vec![0xEE];
    expected.extend_from_slice(&[0xD4, 0xC3, 0xB2, 0xA1, 2, 0, 4, 0, 0, 0, 0, 0, 0, 0, 0, 0]);
    expected.extend_from_slice(&[0xFF, 0xFF, 0, 0, 228, 0, 0, 0]);
    expected.extend_from_slice(&[4, 3, 2, 1, 0x3F, 0x42, 0x0F, 0, 2, 0, 0, 0, 2, 0, 0, 0, b'a', b'b']);
    assert_eq!(pw.writer, expected);
}

#[test]
fn records_carry_the_time() {
    let mut pw = make_writer(LINKTYPE_ETHERNET);
    pw.write_packet(b"now");
    let ts_sec = u32::from_le_bytes(pw.writer[24..28].try_into().unwrap());
    let ts_usec = u32::from_le_bytes(pw.writer[28..32].try_into().unwrap());
    let now = unix_seconds();
    assert!(now > 1_600_000_000);
    assert!(now as u32 - ts_sec <= 2);
    assert!(ts_usec < 1_000_000);
}

#[test]
fn time_fields_are_seconds_and_microseconds() {
    assert_eq!(timestamp(1_700_000_000, 123_456_789), (1_700_000_000, 123_456));
    assert_eq!(timestamp(0x1_0000_0007, 999_999_999), (7, 999_999));
    assert_eq!(timestamp(u64::MAX, 999), (u32::MAX, 0));
}
