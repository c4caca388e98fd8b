use magnum_tcp::clock::NANOS_PER_SEC;
use magnum_tcp::tcp::connection::Connection;
use magnum_tcp::tcp::header::{SegmentBuilder, TcpFlags, TcpSegment, TcpSegmentOwned};
use magnum_tcp::tcp::task::{ConnectionTask, InboundMsg, TaskEvent, TaskOutput};
use magnum_tcp::tcp::tcb::{Tcb, TcbState};

const CLIENT_IP: [u8; 4] = [10, 0, 0, 1];
const SERVER_IP: [u8; 4] = [192, 168, 100, 2];
const CLIENT_PORT: u16 = 12345;
const SERVER_PORT: u16 = 80;
const OUR_MAC: [u8; 6] = [1, 1, 1, 1, 1, 1];
const THEIR_MAC: [u8; 6] = [2, 2, 2, 2, 2, 2];

fn new_task() -> ConnectionTask {
    let tcb = Tcb::new_for_listen(SERVER_IP, SERVER_PORT, CLIENT_IP, CLIENT_PORT);
    ConnectionTask::new(Connection::new(tcb), OUR_MAC, THEIR_MAC)
}

fn owned(seq: u32, ack: u32, flags: TcpFlags, data: &[u8]) -> TaskEvent {
    let raw = SegmentBuilder::new(CLIENT_IP, SERVER_IP, CLIENT_PORT, SERVER_PORT)
        .seq(seq)
        .ack(ack)
        .flags(flags)
        .payload(data)
        .build();
    let seg = TcpSegment::parse(&raw, CLIENT_IP, SERVER_IP).unwrap();
    TaskEvent::Inbound(InboundMsg { seg: TcpSegmentOwned::from(&seg) })
}

fn syn_event() -> TaskEvent {
    owned(1000, 0, TcpFlags { syn: true, ..TcpFlags::default() }, b"")
}

fn ack_flags() -> TcpFlags {
    TcpFlags { ack: true, ..TcpFlags::default() }
}

fn sent(output: &TaskOutput, i: usize) -> TcpSegment<'_> {
    let msg = &output.outbound[i];
    TcpSegment::parse(&msg.tcp_bytes, msg.src_ip, msg.dst_ip).unwrap()
}

fn established() -> (ConnectionTask, u32) {
    let mut task = new_task();
    let output = task.step(syn_event());
    let iss = sent(&output, 0).header.seq;
    let output = task.step(owned(1001, iss.wrapping_add(1), ack_flags(), b""));
    assert!(output.outbound.is_empty() && output.app_data.is_none() && !output.done);
    assert_eq!(task.conn.tcb.state, TcbState::Established);
    (task, iss)
}

#[test]
fn task_sends_syn_ack_on_syn() {
    let mut task = new_task();
    let output = task.step(syn_event());
    assert_eq!(output.outbound.len(), 1);
    let msg = &output.outbound[0];
    assert_eq!((msg.src_ip, msg.dst_ip), (SERVER_IP, CLIENT_IP));
    assert_eq!((msg.ether_src, msg.ether_dst), (OUR_MAC, THEIR_MAC));
    let parsed = sent(&output, 0);
    assert!(parsed.header.flags.syn);
    assert!(parsed.header.flags.ack);
    assert!(!output.done);
}

#[test]
fn retransmit_and_zwp_timers_run_without_panic() {
    let mut task = new_task();
    for _ in 0..10 {
        let output = task.step(TaskEvent::RetransmitTick);
        assert!(output.outbound.is_empty() && !output.done);
        let output = task.step(TaskEvent::ProbeTick);
        assert!(output.outbound.is_empty() && !output.done);
    }
}

#[test]
fn app_data_forwarded_on_data_segment() {
    let (mut task, iss) = established();
    let flags = TcpFlags { ack: true, psh: true, ..TcpFlags::default() };
    let output = task.step(owned(1001, iss.wrapping_add(1), flags, b"hello"));
    assert_eq!(output.outbound.len(), 1);
    assert_eq!(sent(&output, 0).header.ack_num, 1006);
    assert_eq!(output.app_data.unwrap(), b"hello");
    assert_eq!(task.conn.received_available(), 0);
}

#[test]
fn app_send_triggers_data_segment() {
    let (mut task, iss) = established();
    let output = task.step(TaskEvent::AppSend(b"world".to_vec()));
    assert_eq!(output.outbound.len(), 1);
    assert_eq!(sent(&output, 0).payload, b"world");
    assert_eq!(sent(&output, 0).header.seq, iss.wrapping_add(1));
}

#[test]
fn out_of_order_data_reaches_the_application_in_order() {
    let (mut task, iss) = established();
    let ack = iss.wrapping_add(1);
    let output = task.step(owned(1004, ack, ack_flags(), b"def"));
    assert!(output.app_data.is_none());
    assert_eq!(sent(&output, 0).header.ack_num, 1001);
    let output = task.step(owned(1001, ack, ack_flags(), b"abcd"));
    assert_eq!(sent(&output, 0).header.ack_num, 1007);
    assert_eq!(output.app_data.unwrap(), b"abcdef");
    let output = task.step(owned(1001, ack, ack_flags(), b"abcd"));
    assert!(output.app_data.is_none());
}

#[test]
fn acknowledgments_let_more_data_go() {
    let (mut task, iss) = established();
    let output = task.step(TaskEvent::AppSend(vec![5; 4000]));
    assert_eq!(output.outbound.len(), 1);
    assert_eq!(sent(&output, 0).payload.len(), 1460);
    let output = task.step(owned(1001, iss.wrapping_add(1461), ack_flags(), b""));
    assert_eq!(output.outbound.len(), 2);
    assert_eq!(sent(&output, 0).header.seq, iss.wrapping_add(1461));
    assert_eq!(sent(&output, 0).payload.len(), 1460);
    assert_eq!(sent(&output, 1).payload.len(), 1080);
}

#[test]
fn overdue_segments_go_out_again() {
    let (mut task, iss) = established();
    let now = task.conn.now();
    task.step_at(TaskEvent::AppSend(b"again".to_vec()), now);
    assert!(task.step_at(TaskEvent::RetransmitTick, now).outbound.is_empty());
    let output = task.step_at(TaskEvent::RetransmitTick, now + NANOS_PER_SEC);
    assert_eq!(output.outbound.len(), 1);
    assert_eq!(sent(&output, 0).payload, b"again");
    assert_eq!(sent(&output, 0).header.seq, iss.wrapping_add(1));
}

#[test]
fn closed_window_is_probed() {
    let (mut task, _) = established();
    task.conn.tcb.snd.wnd = 0;
    assert!(task.step(TaskEvent::AppSend(b"stuck".to_vec())).outbound.is_empty());
    let output = task.step(TaskEvent::ProbeTick);
    assert_eq!(sent(&output, 0).payload, b"s");
}

#[test]
fn application_closes_once_and_the_task_ends() {
    let (mut task, iss) = established();
    let output = task.step(TaskEvent::Close);
    assert!(sent(&output, 0).header.flags.fin);
    assert!(task.step(TaskEvent::Close).outbound.is_empty());
    assert_eq!(task.conn.tcb.state, TcbState::FinWait1);
    task.step(owned(1001, iss.wrapping_add(2), ack_flags(), b""));
    let now = task.conn.now();
    let fin = TcpFlags { fin: true, ack: true, ..TcpFlags::default() };
    let output = task.step_at(owned(1001, iss.wrapping_add(2), fin, b""), now);
    assert_eq!(sent(&output, 0).header.ack_num, 1002);
    assert!(!output.done);
    assert!(!task.step_at(TaskEvent::RetransmitTick, now + 60 * NANOS_PER_SEC - 1).done);
    assert!(task.step_at(TaskEvent::RetransmitTick, now + 60 * NANOS_PER_SEC).done);
}

#[test]
fn reset_ends_the_task() {
    let (mut task, _) = established();
    let output = task.step(owned(1001, 0, TcpFlags { rst: true, ..TcpFlags::default() }, b""));
    assert!(output.done && output.outbound.is_empty());
}
