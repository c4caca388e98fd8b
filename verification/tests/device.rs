use magnum_tcp::device::{interface_name, unwrap_packet, utun_unit, wrap_packet};

#[test]
fn interface_names_are_cut_and_filled_up() {
    let mut tap = [0u8; 16];
    tap[..4].copy_from_slice(b"tap0");
    assert_eq!(interface_name("tap0"), tap);
    assert_eq!(&interface_name("abcdefghijklmnopq"), b"abcdefghijklmno\0");
    assert_eq!(interface_name(""), [0u8; 16]);
    assert_eq!(&interface_name("\u{e9}")[..3], &[0xC3, 0xA9, 0]);
}

#[test]
fn tunnel_units_count_from_one() {
    assert_eq!(utun_unit("utun0"), 1);
    assert_eq!(utun_unit("utun5"), 6);
    assert_eq!(utun_unit("utun0041"), 42);
    assert_eq!(utun_unit("utun4294967294"), u32::MAX);
}

#[test]
fn unclear_tunnel_names_leave_the_choice_to_the_kernel() {
    for name in ["", "utun", "utu5", "tun5", "utunx", "utun5x", "utun-1", "utun4294967295", "utun4294967296"] {
        assert_eq!(utun_unit(name), 0, "{name}");
    }
}

#[test]
fn packets_stand_behind_their_address_family() {
    let wrapped = wrap_packet(b"packet");
    assert_eq!(&wrapped[..], b"\0\0\0\x02packet");
    assert_eq!(unwrap_packet(&wrapped), b"packet");
    assert!(unwrap_packet(&wrap_packet(b"")).is_empty());
    assert!(unwrap_packet(&[1, 2, 3]).is_empty());
}
