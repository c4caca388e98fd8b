use magnum_tcp::error::MagnumError;
use magnum_tcp::tcp::header::{
    tcp_checksum, SegmentBuilder, TcpFlags, TcpSegment, TcpSegmentOwned,
};

const CLIENT_IP: [u8; 4] = [10, 0, 0, 1];
const SERVER_IP: [u8; 4] = [192, 168, 100, 2];
const CLIENT_PORT: u16 = 54321;
const SERVER_PORT: u16 = 80;

fn build_syn(seq: u32) -> Vec<u8> {
    SegmentBuilder::new(CLIENT_IP, SERVER_IP, CLIENT_PORT, SERVER_PORT)
        .seq(seq)
        .flags(TcpFlags {
            syn: true,
            ..TcpFlags::default()
        })
        .build()
}

#[test]
fn flags_roundtrip() {
    let original = TcpFlags {
        urg: false,
        ack: true,
        psh: false,
        rst: false,
        syn: true,
        fin: false,
    };
    let encoded = original.to_byte();
    let decoded = TcpFlags::from_byte(encoded);
    assert_eq!(decoded.ack, original.ack);
    assert_eq!(decoded.syn, original.syn);
    assert!(!decoded.rst);
    assert!(!decoded.fin);
}

#[test]
fn parse_valid_syn() {
    let raw = build_syn(1000);
    let seg = TcpSegment::parse(&raw, CLIENT_IP, SERVER_IP).unwrap();
    assert_eq!(seg.header.src_port, CLIENT_PORT);
    assert_eq!(seg.header.dst_port, SERVER_PORT);
    assert_eq!(seg.header.seq, 1000);
    assert!(seg.header.flags.syn);
    assert!(!seg.header.flags.ack);
    assert!(seg.payload.is_empty());
}

#[test]
fn reject_bad_checksum() {
    let mut raw = build_syn(500);
    raw[16] ^= 0xFF;
    assert!(matches!(
        TcpSegment::parse(&raw, CLIENT_IP, SERVER_IP),
        Err(MagnumError::TcpChecksumMismatch { .. })
    ));
}

#[test]
fn reject_too_short() {
    let raw = [0u8; 10];
    assert!(matches!(
        TcpSegment::parse(&raw, CLIENT_IP, SERVER_IP),
        Err(MagnumError::TcpHeaderTooShort { .. })
    ));
}

#[test]
fn reject_small_data_offset() {
    let mut raw = build_syn(0);
    raw[12] = 0x30; // data_offset = 3, below minimum of 5
    assert!(matches!(
        TcpSegment::parse(&raw, CLIENT_IP, SERVER_IP),
        Err(MagnumError::TcpDataOffsetTooSmall(3))
    ));
}

#[test]
fn syn_ack_has_valid_checksum() {
    let syn_ack = SegmentBuilder::new(SERVER_IP, CLIENT_IP, SERVER_PORT, CLIENT_PORT)
        .seq(9999)
        .ack(1001)
        .flags(TcpFlags {
            syn: true,
            ack: true,
            ..TcpFlags::default()
        })
        .build();

    assert_eq!(tcp_checksum(&syn_ack, SERVER_IP, CLIENT_IP), 0);
}

#[test]
fn checksum_verify_over_syn() {
    let raw = build_syn(42);
    assert_eq!(tcp_checksum(&raw, CLIENT_IP, SERVER_IP), 0);
}

#[test]
fn built_segment_has_exact_bytes() {
    let raw = SegmentBuilder::new([1, 2, 3, 4], [5, 6, 7, 8], 0x1234, 0x0050)
        .seq(0x01020304)
        .ack(0x0A0B0C0D)
        .flags(TcpFlags { ack: true, psh: true, ..TcpFlags::default() })
        .window(0x2000)
        .payload(b"hey")
        .build();
    let mut expected = vec![
        0x12, 0x34, 0x00, 0x50, 1, 2, 3, 4, 0xA, 0xB, 0xC, 0xD, 0x50, 0x18, 0x20, 0, 0, 0, 0, 0,
        b'h', b'e', b'y',
    ];
    // Both addresses, the protocol, the length and the words of the segment.
    let sum: u32 = 0x0102 + 0x0304 + 0x0506 + 0x0708 + 6 + 23
        + 0x1234 + 0x0050 + 0x0102 + 0x0304 + 0x0A0B + 0x0C0D + 0x5018 + 0x2000
        + 0x6865 + 0x7900;
    let folded = (sum & 0xFFFF) + (sum >> 16);
    let csum = !(((folded & 0xFFFF) + (folded >> 16)) as u16);
    expected[16] = (csum >> 8) as u8;
    expected[17] = csum as u8;
    assert_eq!(raw, expected);
}

#[test]
fn built_segment_is_parsed_back() {
    let raw = SegmentBuilder::new(CLIENT_IP, SERVER_IP, 1, 65535)
        .seq(u32::MAX)
        .ack(7)
        .flags(TcpFlags { urg: true, rst: true, fin: true, ..TcpFlags::default() })
        .window(0)
        .payload(&[0xFF; 31])
        .build();
    let seg = TcpSegment::parse(&raw, CLIENT_IP, SERVER_IP).unwrap();
    assert_eq!(seg.header.src_port, 1);
    assert_eq!(seg.header.dst_port, 65535);
    assert_eq!(seg.header.seq, u32::MAX);
    assert_eq!(seg.header.ack_num, 7);
    assert_eq!(seg.header.data_offset, 5);
    assert_eq!(seg.header.flags, TcpFlags { urg: true, rst: true, fin: true, ..TcpFlags::default() });
    assert_eq!(seg.header.window, 0);
    assert_eq!(seg.header.urgent_ptr, 0);
    assert_eq!(seg.payload, &[0xFF; 31]);
}

#[test]
fn every_flag_byte_is_kept_but_for_its_top_bits() {
    for b in 0..=255u8 {
        assert_eq!(TcpFlags::from_byte(b).to_byte(), b & 0x3F);
    }
    assert_eq!(TcpFlags { syn: true, ack: true, ..TcpFlags::default() }.to_byte(), 0x12);
}

#[test]
fn options_need_to_be_there() {
    let mut raw = build_syn(1);
    raw[12] = 0x60;
    assert!(matches!(
        TcpSegment::parse(&raw, CLIENT_IP, SERVER_IP),
        Err(MagnumError::TcpHeaderTooShort { got: 20, need: 24 })
    ));
}

#[test]
fn options_are_no_payload() {
    let mut raw = SegmentBuilder::new(CLIENT_IP, SERVER_IP, 1, 2).payload(&[2, 4, 5, 0xB4, b'x']).build();
    raw[12] = 0x60;
    raw[16] = 0;
    raw[17] = 0;
    let csum = tcp_checksum(&raw, CLIENT_IP, SERVER_IP);
    raw[16] = (csum >> 8) as u8;
    raw[17] = csum as u8;
    let seg = TcpSegment::parse(&raw, CLIENT_IP, SERVER_IP).unwrap();
    assert_eq!(seg.header.data_offset, 6);
    assert_eq!(seg.payload, b"x");
}

#[test]
fn checksum_depends_on_both_addresses() {
    let raw = build_syn(9);
    assert!(TcpSegment::parse(&raw, SERVER_IP, CLIENT_IP).is_ok());
    assert!(TcpSegment::parse(&raw, CLIENT_IP, [192, 168, 100, 3]).is_err());
    assert!(TcpSegment::parse(&raw, [10, 0, 0, 2], SERVER_IP).is_err());
}

#[test]
fn owned_segment_is_the_same_segment() {
    let raw = SegmentBuilder::new(CLIENT_IP, SERVER_IP, 5, 6).seq(77).payload(b"kept").build();
    let owned = {
        let seg = TcpSegment::parse(&raw, CLIENT_IP, SERVER_IP).unwrap();
        TcpSegmentOwned::from(&seg)
    };
    let seg = owned.as_seg();
    assert_eq!(seg.header.seq, 77);
    assert_eq!(seg.payload, b"kept");
}
