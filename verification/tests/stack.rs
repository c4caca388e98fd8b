use magnum_tcp::tcp::header::{SegmentBuilder, TcpFlags, TcpSegment};
use magnum_tcp::tcp::{Delivery, DispatchTable, FourTuple, Route, Stack};

const CLIENT_IP: [u8; 4] = [10, 0, 0, 1];
const SERVER_IP: [u8; 4] = [192, 168, 100, 2];

fn segment(port: u16, seq: u32, ack: u32, flags: TcpFlags) -> Vec<u8> {
    SegmentBuilder::new(CLIENT_IP, SERVER_IP, port, 80)
        .seq(seq)
        .ack(ack)
        .flags(flags)
        .build()
}

fn parse(raw: &[u8]) -> TcpSegment<'_> {
    TcpSegment::parse(raw, CLIENT_IP, SERVER_IP).unwrap()
}

fn syn() -> TcpFlags {
    TcpFlags { syn: true, ..TcpFlags::default() }
}

fn ack() -> TcpFlags {
    TcpFlags { ack: true, ..TcpFlags::default() }
}

#[test]
fn listening_port_answers_a_syn() {
    let mut stack = Stack::new();
    stack.listen(80);
    let raw = segment(5000, 100, 0, syn());
    let packet = stack.process(CLIENT_IP, SERVER_IP, &parse(&raw)).unwrap();
    assert_eq!((packet.src_ip, packet.dst_ip), (SERVER_IP, CLIENT_IP));
    let answer = TcpSegment::parse(&packet.tcp_bytes, SERVER_IP, CLIENT_IP).unwrap();
    assert!(answer.header.flags.syn && answer.header.flags.ack);
    assert_eq!((answer.header.src_port, answer.header.dst_port), (80, 5000));
    assert_eq!(answer.header.ack_num, 101);

    let iss = answer.header.seq;
    let raw = segment(5000, 101, iss.wrapping_add(1), ack());
    assert!(stack.process(CLIENT_IP, SERVER_IP, &parse(&raw)).is_none());
    let raw = SegmentBuilder::new(CLIENT_IP, SERVER_IP, 5000, 80)
        .seq(101)
        .ack(iss.wrapping_add(1))
        .flags(ack())
        .payload(b"data")
        .build();
    let packet = stack.process(CLIENT_IP, SERVER_IP, &parse(&raw)).unwrap();
    let answer = TcpSegment::parse(&packet.tcp_bytes, SERVER_IP, CLIENT_IP).unwrap();
    assert_eq!(answer.header.ack_num, 105);
}

#[test]
fn initial_number_and_time_can_be_given() {
    let mut stack = Stack::default();
    stack.listen(80);
    let raw = segment(1, 9, 0, syn());
    let packet = stack.process_at(CLIENT_IP, SERVER_IP, &parse(&raw), 4711, 0).unwrap();
    let answer = TcpSegment::parse(&packet.tcp_bytes, SERVER_IP, CLIENT_IP).unwrap();
    assert_eq!((answer.header.seq, answer.header.ack_num), (4711, 10));
    let raw = segment(1, 10, 4712, ack());
    assert!(stack.process_at(CLIENT_IP, SERVER_IP, &parse(&raw), 1, 1).is_none());
    let fin = TcpFlags { fin: true, ack: true, ..TcpFlags::default() };
    let raw = segment(1, 10, 4712, fin);
    let packet = stack.process_at(CLIENT_IP, SERVER_IP, &parse(&raw), 2, 2).unwrap();
    let answer = TcpSegment::parse(&packet.tcp_bytes, SERVER_IP, CLIENT_IP).unwrap();
    assert_eq!((answer.header.seq, answer.header.ack_num), (4712, 11));
}

#[test]
fn segments_of_nobody_are_dropped() {
    let mut stack = Stack::new();
    let raw = segment(5000, 1, 0, syn());
    assert!(stack.process(CLIENT_IP, SERVER_IP, &parse(&raw)).is_none());
    stack.listen(80);
    let raw = segment(5000, 1, 2, ack());
    assert!(stack.process(CLIENT_IP, SERVER_IP, &parse(&raw)).is_none());
    let raw = segment(5000, 1, 2, TcpFlags { syn: true, ack: true, ..TcpFlags::default() });
    assert!(stack.process(CLIENT_IP, SERVER_IP, &parse(&raw)).is_none());
}

#[test]
fn connections_do_not_touch_each_other() {
    let mut stack = Stack::new();
    stack.listen(80);
    let first = segment(1, 100, 0, syn());
    let second = segment(2, 200, 0, syn());
    stack.process_at(CLIENT_IP, SERVER_IP, &parse(&first), 1000, 0).unwrap();
    stack.process_at(CLIENT_IP, SERVER_IP, &parse(&second), 2000, 0).unwrap();
    let again = stack.process_at(CLIENT_IP, SERVER_IP, &parse(&first), 3000, 0).unwrap();
    let answer = TcpSegment::parse(&again.tcp_bytes, SERVER_IP, CLIENT_IP).unwrap();
    assert_eq!((answer.header.seq, answer.header.ack_num), (1000, 101));
    let elsewhere = [192, 168, 100, 3];
    let raw = SegmentBuilder::new(CLIENT_IP, elsewhere, 1, 80).seq(5).flags(syn()).build();
    let seg = TcpSegment::parse(&raw, CLIENT_IP, elsewhere).unwrap();
    let other = stack.process_at(CLIENT_IP, elsewhere, &seg, 4000, 0).unwrap();
    assert_eq!(other.src_ip, elsewhere);
    let answer = TcpSegment::parse(&other.tcp_bytes, elsewhere, CLIENT_IP).unwrap();
    assert_eq!(answer.header.seq, 4000);
}

fn key(port: u16) -> FourTuple {
    FourTuple {
        remote_ip: CLIENT_IP,
        remote_port: port,
        local_ip: SERVER_IP,
        local_port: 80,
    }
}

#[test]
fn dispatch_opens_forwards_and_discards() {
    let mut table = DispatchTable::new();
    assert_eq!(table.route(key(1), syn()), Route::Discard);
    table.listen(80);
    assert_eq!(table.route(key(1), ack()), Route::Discard);
    assert_eq!(table.route(key(1), syn()), Route::Open);
    assert_eq!(table.route(key(1), ack()), Route::Forward);
    assert_eq!(table.route(key(1), syn()), Route::Forward);
    assert_eq!(table.route(key(2), ack()), Route::Discard);
    assert_eq!(table.route(FourTuple { local_port: 81, ..key(1) }, syn()), Route::Discard);
}

#[test]
fn only_a_gone_task_is_forgotten() {
    let mut table = DispatchTable::new();
    table.listen(80);
    table.route(key(1), syn());
    table.route(key(2), syn());
    table.settle(key(1), Delivery::Accepted);
    table.settle(key(1), Delivery::Full);
    assert_eq!(table.route(key(1), ack()), Route::Forward);
    table.settle(key(1), Delivery::Gone);
    assert_eq!(table.route(key(1), ack()), Route::Discard);
    assert_eq!(table.route(key(1), syn()), Route::Open);
    assert_eq!(table.route(key(2), ack()), Route::Forward);
}
