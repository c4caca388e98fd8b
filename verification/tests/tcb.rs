use std::collections::hash_map::DefaultHasher;
use std::hash::{Hash, Hasher};
use std::time::{SystemTime, UNIX_EPOCH};

use magnum_tcp::tcp::tcb::{ack_acceptable, isn_for, seq_le, seq_lt, Tcb, TcbState};
use magnum_tcp::wire::{order_of, ByteOrder};

#[test]
fn seq_lt_normal() {
    assert!(seq_lt(0, 1));
    assert!(seq_lt(100, 200));
    assert!(!seq_lt(200, 100));
    assert!(!seq_lt(5, 5));
}

#[test]
fn seq_lt_wraparound() {
    assert!(seq_lt(u32::MAX - 1, 1));
    assert!(seq_lt(u32::MAX, 0));
    assert!(!seq_lt(1, u32::MAX - 1));
}

#[test]
fn seq_le_includes_equal() {
    assert!(seq_le(5, 5));
    assert!(seq_le(4, 5));
    assert!(!seq_le(6, 5));
}

#[test]
fn ack_acceptable_valid_range() {
    assert!(ack_acceptable(100, 150, 200));
    assert!(ack_acceptable(100, 101, 200));
    assert!(ack_acceptable(100, 200, 200));
}

#[test]
fn ack_acceptable_rejects_out_of_range() {
    assert!(!ack_acceptable(100, 100, 200)); // equal to UNA, not strictly greater
    assert!(!ack_acceptable(100, 201, 200)); // past NXT
    assert!(!ack_acceptable(100, 50, 200)); // before UNA
}

#[test]
fn exactly_half_the_circle_is_neither_before_nor_behind() {
    assert!(!seq_lt(0, 0x8000_0000));
    assert!(!seq_lt(0x8000_0000, 0));
    assert!(seq_lt(0, 0x7FFF_FFFF));
    assert!(!seq_le(0, 0x8000_0000));
}

#[test]
fn order_does_not_depend_on_where_the_circle_starts() {
    for (a, b) in [(0u32, 1u32), (5, 4), (7, 7), (10, 0x7000_0000), (3, 0x9000_0000)] {
        for n in [1u32, 0x8000_0000, u32::MAX - 3, u32::MAX] {
            assert_eq!(seq_lt(a.wrapping_add(n), b.wrapping_add(n)), seq_lt(a, b));
        }
    }
}

#[test]
fn acceptable_range_wraps_around() {
    let una = u32::MAX - 2;
    let nxt = 5;
    assert!(!ack_acceptable(una, una, nxt));
    assert!(ack_acceptable(una, u32::MAX, nxt));
    assert!(ack_acceptable(una, 0, nxt));
    assert!(ack_acceptable(una, 5, nxt));
    assert!(!ack_acceptable(una, 6, nxt));
}

#[test]
fn fresh_blocks_count_from_their_initial_number() {
    let listening = Tcb::new_for_listen([1, 2, 3, 4], 80, [5, 6, 7, 8], 9);
    assert_eq!(listening.state, TcbState::Listen);
    assert_eq!((listening.local_ip, listening.local_port), ([1, 2, 3, 4], 80));
    assert_eq!((listening.remote_ip, listening.remote_port), ([5, 6, 7, 8], 9));
    assert_eq!(listening.snd.una, listening.snd.iss);
    assert_eq!(listening.snd.nxt, listening.snd.iss);
    assert_eq!(listening.snd.wnd, 65535);
    assert_eq!((listening.cwnd, listening.ssthresh, listening.dup_ack_count), (1460, 65535, 0));
    assert_eq!((listening.rcv.nxt, listening.rcv.wnd, listening.rcv.irs), (0, 65535, 0));

    let connecting = Tcb::new_for_connect([1, 2, 3, 4], 80, [5, 6, 7, 8], 9);
    assert_eq!(connecting.state, TcbState::Closed);
    assert_eq!(connecting.snd.una, connecting.snd.iss);

    let chosen = Tcb::with_iss(TcbState::Closed, [1; 4], 1, [2; 4], 2, 4711);
    assert_eq!((chosen.snd.iss, chosen.snd.una, chosen.snd.nxt), (4711, 4711, 4711));
}

#[test]
fn initial_numbers_differ_between_connections() {
    let numbers: Vec<u32> = (0..32u16)
        .map(|port| Tcb::new_for_listen([1, 2, 3, 4], 80, [5, 6, 7, 8], port).snd.iss)
        .collect();
    assert!(numbers.iter().any(|n| *n != numbers[0]));
}

fn hashed(local_ip: [u8; 4], local_port: u16, remote_ip: [u8; 4], remote_port: u16, nanos: u32) -> u32 {
    let mut hasher = DefaultHasher::new();
    local_ip.hash(&mut hasher);
    local_port.hash(&mut hasher);
    remote_ip.hash(&mut hasher);
    remote_port.hash(&mut hasher);
    nanos.hash(&mut hasher);
    hasher.finish() as u32
}

fn subsec_nanos() -> u32 {
    SystemTime::now().duration_since(UNIX_EPOCH).unwrap().subsec_nanos()
}

#[test]
fn initial_number_is_the_hash_of_both_ends_and_the_time() {
    let order = order_of(1u16.to_ne_bytes());
    for nanos in [0, 1, 0x0102_0304, 999_999_999] {
        assert_eq!(
            isn_for([192, 168, 100, 2], 80, [10, 0, 0, 1], 54321, nanos, order),
            hashed([192, 168, 100, 2], 80, [10, 0, 0, 1], 54321, nanos)
        );
    }
}

#[test]
fn initial_number_is_drawn_at_the_time_of_the_call() {
    for _ in 0..100 {
        let before = subsec_nanos();
        let iss = Tcb::new_for_listen([192, 168, 100, 2], 80, [10, 0, 0, 1], 54321).snd.iss;
        let after = subsec_nanos();
        if before <= after && after - before < 1_000_000 {
            assert!((before..=after)
                .any(|nanos| hashed([192, 168, 100, 2], 80, [10, 0, 0, 1], 54321, nanos) == iss));
            return;
        }
    }
    panic!("the clock never held still");
}

#[test]
fn byte_order_shows_in_the_number_one() {
    assert_eq!(order_of([0, 1]), ByteOrder::Big);
    assert_eq!(order_of([1, 0]), ByteOrder::Little);
    let little = isn_for([1, 2, 3, 4], 5, [6, 7, 8, 9], 10, 11, ByteOrder::Little);
    let big = isn_for([1, 2, 3, 4], 5, [6, 7, 8, 9], 10, 11, ByteOrder::Big);
    assert_ne!(little, big);
}
