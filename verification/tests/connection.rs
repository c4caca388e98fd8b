use magnum_tcp::clock::{NANOS_PER_MILLI, NANOS_PER_SEC};
use magnum_tcp::tcp::connection::Connection;
use magnum_tcp::tcp::header::{SegmentBuilder, TcpFlags, TcpSegment};
use magnum_tcp::tcp::retransmit::MSS;
use magnum_tcp::tcp::send_buffer::SEND_BUF_SIZE;
use magnum_tcp::tcp::tcb::{Tcb, TcbState};

const CLIENT_IP: [u8; 4] = [10, 0, 0, 1];
const SERVER_IP: [u8; 4] = [192, 168, 100, 2];
const CLIENT_PORT: u16 = 54321;
const SERVER_PORT: u16 = 80;
const CLIENT_ISN: u32 = 1000;

fn make_connection() -> Connection {
    let tcb = Tcb::new_for_listen(SERVER_IP, SERVER_PORT, CLIENT_IP, CLIENT_PORT);
    Connection::new(tcb)
}

fn parse_segment(raw: &[u8]) -> TcpSegment<'_> {
    TcpSegment::parse(raw, CLIENT_IP, SERVER_IP).unwrap()
}

fn parse_response(raw: &[u8]) -> TcpSegment<'_> {
    TcpSegment::parse(raw, SERVER_IP, CLIENT_IP).unwrap()
}

fn establish_connection() -> (Connection, u32) {
    let mut conn = make_connection();
    let syn = SegmentBuilder::new(CLIENT_IP, SERVER_IP, CLIENT_PORT, SERVER_PORT)
        .seq(CLIENT_ISN)
        .flags(TcpFlags {
            syn: true,
            ..TcpFlags::default()
        })
        .build();
    let syn_ack_raw = conn.process_segment(&parse_segment(&syn)).unwrap().unwrap();
    let server_isn = parse_response(&syn_ack_raw).header.seq;

    let ack = SegmentBuilder::new(CLIENT_IP, SERVER_IP, CLIENT_PORT, SERVER_PORT)
        .seq(CLIENT_ISN + 1)
        .ack(server_isn.wrapping_add(1))
        .flags(TcpFlags {
            ack: true,
            ..TcpFlags::default()
        })
        .build();
    conn.process_segment(&parse_segment(&ack)).unwrap();
    assert_eq!(conn.tcb.state, TcbState::Established);
    (conn, server_isn)
}

fn client_data_seg(seq: u32, server_isn: u32, data: &[u8]) -> Vec<u8> {
    SegmentBuilder::new(CLIENT_IP, SERVER_IP, CLIENT_PORT, SERVER_PORT)
        .seq(seq)
        .ack(server_isn.wrapping_add(1))
        .flags(TcpFlags {
            ack: true,
            psh: true,
            ..TcpFlags::default()
        })
        .payload(data)
        .build()
}

fn client_ack(ack_num: u32) -> Vec<u8> {
    SegmentBuilder::new(CLIENT_IP, SERVER_IP, CLIENT_PORT, SERVER_PORT)
        .seq(CLIENT_ISN + 1)
        .ack(ack_num)
        .flags(TcpFlags {
            ack: true,
            ..TcpFlags::default()
        })
        .build()
}

fn client_fin(seq: u32, ack_num: u32) -> Vec<u8> {
    SegmentBuilder::new(CLIENT_IP, SERVER_IP, CLIENT_PORT, SERVER_PORT)
        .seq(seq)
        .ack(ack_num)
        .flags(TcpFlags {
            fin: true,
            ack: true,
            ..TcpFlags::default()
        })
        .build()
}

// ── handshake tests ───────────────────────────────────────────────────────

#[test]
fn listen_transitions_to_syn_received_on_syn() {
    let mut conn = make_connection();
    let syn = SegmentBuilder::new(CLIENT_IP, SERVER_IP, CLIENT_PORT, SERVER_PORT)
        .seq(1000)
        .flags(TcpFlags {
            syn: true,
            ..TcpFlags::default()
        })
        .build();

    let response = conn.process_segment(&parse_segment(&syn)).unwrap();
    assert!(response.is_some());
    assert_eq!(conn.tcb.state, TcbState::SynReceived);

    let syn_ack = parse_response(response.as_ref().unwrap());
    assert!(syn_ack.header.flags.syn);
    assert!(syn_ack.header.flags.ack);
    assert_eq!(syn_ack.header.ack_num, 1001);
}

#[test]
fn syn_received_transitions_to_established_on_ack() {
    let mut conn = make_connection();

    let syn = SegmentBuilder::new(CLIENT_IP, SERVER_IP, CLIENT_PORT, SERVER_PORT)
        .seq(1000)
        .flags(TcpFlags {
            syn: true,
            ..TcpFlags::default()
        })
        .build();
    let syn_ack_raw = conn.process_segment(&parse_segment(&syn)).unwrap().unwrap();
    let syn_ack = parse_response(&syn_ack_raw);

    let ack = SegmentBuilder::new(CLIENT_IP, SERVER_IP, CLIENT_PORT, SERVER_PORT)
        .seq(1001)
        .ack(syn_ack.header.seq.wrapping_add(1))
        .flags(TcpFlags {
            ack: true,
            ..TcpFlags::default()
        })
        .build();

    let response = conn.process_segment(&parse_segment(&ack)).unwrap();
    assert!(response.is_none());
    assert_eq!(conn.tcb.state, TcbState::Established);
}

#[test]
fn listen_drops_rst() {
    let mut conn = make_connection();
    let rst = SegmentBuilder::new(CLIENT_IP, SERVER_IP, CLIENT_PORT, SERVER_PORT)
        .seq(0)
        .flags(TcpFlags {
            rst: true,
            ..TcpFlags::default()
        })
        .build();

    let response = conn.process_segment(&parse_segment(&rst)).unwrap();
    assert!(response.is_none());
    assert_eq!(conn.tcb.state, TcbState::Listen);
}

#[test]
fn listen_sends_rst_on_bare_ack() {
    let mut conn = make_connection();
    let ack = SegmentBuilder::new(CLIENT_IP, SERVER_IP, CLIENT_PORT, SERVER_PORT)
        .seq(0)
        .ack(12345)
        .flags(TcpFlags {
            ack: true,
            ..TcpFlags::default()
        })
        .build();

    let response = conn.process_segment(&parse_segment(&ack)).unwrap();
    assert!(response.is_some());

    let rst = parse_response(response.as_ref().unwrap());
    assert!(rst.header.flags.rst);
}

#[test]
fn syn_received_resets_to_listen_on_rst() {
    let mut conn = make_connection();

    let syn = SegmentBuilder::new(CLIENT_IP, SERVER_IP, CLIENT_PORT, SERVER_PORT)
        .seq(1000)
        .flags(TcpFlags {
            syn: true,
            ..TcpFlags::default()
        })
        .build();
    conn.process_segment(&parse_segment(&syn)).unwrap();
    assert_eq!(conn.tcb.state, TcbState::SynReceived);

    let rst = SegmentBuilder::new(CLIENT_IP, SERVER_IP, CLIENT_PORT, SERVER_PORT)
        .seq(1001)
        .flags(TcpFlags {
            rst: true,
            ..TcpFlags::default()
        })
        .build();
    conn.process_segment(&parse_segment(&rst)).unwrap();
    assert_eq!(conn.tcb.state, TcbState::Listen);
}

#[test]
fn established_transitions_to_close_wait_on_fin() {
    let mut conn = make_connection();

    let syn = SegmentBuilder::new(CLIENT_IP, SERVER_IP, CLIENT_PORT, SERVER_PORT)
        .seq(1000)
        .flags(TcpFlags {
            syn: true,
            ..TcpFlags::default()
        })
        .build();
    let syn_ack_raw = conn.process_segment(&parse_segment(&syn)).unwrap().unwrap();
    let syn_ack = parse_response(&syn_ack_raw);

    let ack = SegmentBuilder::new(CLIENT_IP, SERVER_IP, CLIENT_PORT, SERVER_PORT)
        .seq(1001)
        .ack(syn_ack.header.seq.wrapping_add(1))
        .flags(TcpFlags {
            ack: true,
            ..TcpFlags::default()
        })
        .build();
    conn.process_segment(&parse_segment(&ack)).unwrap();

    let fin = SegmentBuilder::new(CLIENT_IP, SERVER_IP, CLIENT_PORT, SERVER_PORT)
        .seq(1001)
        .ack(syn_ack.header.seq.wrapping_add(1))
        .flags(TcpFlags {
            fin: true,
            ack: true,
            ..TcpFlags::default()
        })
        .build();

    let response = conn.process_segment(&parse_segment(&fin)).unwrap();
    assert!(response.is_some());
    assert_eq!(conn.tcb.state, TcbState::CloseWait);

    let ack_resp = parse_response(response.as_ref().unwrap());
    assert!(ack_resp.header.flags.ack);
}

// ── data transfer tests ───────────────────────────────────────────────────

#[test]
fn receives_data_in_established() {
    let (mut conn, server_isn) = establish_connection();

    let seg_raw = client_data_seg(CLIENT_ISN + 1, server_isn, b"hello world");
    let response = conn.process_segment(&parse_segment(&seg_raw)).unwrap();

    assert!(response.is_some());
    let ack = parse_response(response.as_ref().unwrap());
    assert!(ack.header.flags.ack);
    assert_eq!(ack.header.ack_num, CLIENT_ISN + 1 + 11);

    assert_eq!(conn.received_available(), 11);
    let mut out = [0u8; 11];
    conn.read_received(&mut out);
    assert_eq!(&out, b"hello world");
}

#[test]
fn sends_data_in_established() {
    let (mut conn, server_isn) = establish_connection();

    conn.write_data(b"hello server");
    let seg_raw = conn.next_segment_to_send(1400).unwrap();
    let seg = parse_response(&seg_raw);

    assert!(seg.header.flags.ack);
    assert!(seg.header.flags.psh);
    assert_eq!(seg.payload, b"hello server");
    assert_eq!(seg.header.seq, server_isn.wrapping_add(1));

    assert!(conn.next_segment_to_send(1400).is_none());

    let client_ack_raw = client_ack(server_isn.wrapping_add(1 + 12));
    conn.process_segment(&parse_segment(&client_ack_raw))
        .unwrap();

    assert!(conn.send_buf.is_empty());
}

#[test]
fn out_of_order_data_reassembled() {
    let (mut conn, server_isn) = establish_connection();

    let seg2 = client_data_seg(CLIENT_ISN + 1 + 5, server_isn, b"world");
    let seg1 = client_data_seg(CLIENT_ISN + 1, server_isn, b"hello");

    conn.process_segment(&parse_segment(&seg2)).unwrap();
    assert_eq!(conn.received_available(), 0);

    let resp = conn.process_segment(&parse_segment(&seg1)).unwrap();
    assert!(resp.is_some());
    let ack = parse_response(resp.as_ref().unwrap());
    assert_eq!(ack.header.ack_num, CLIENT_ISN + 1 + 10);

    assert_eq!(conn.received_available(), 10);
    let mut out = [0u8; 10];
    conn.read_received(&mut out);
    assert_eq!(&out, b"helloworld");
}

#[test]
fn large_transfer_receive_1mb() {
    let (mut conn, server_isn) = establish_connection();
    let payload: Vec<u8> = (0..=255u8).cycle().take(1024 * 1024).collect();
    let chunk_size = 1400;
    let mut seq: u32 = CLIENT_ISN + 1;
    let mut received: Vec<u8> = Vec::with_capacity(payload.len());
    let mut tmp = vec![0u8; 65536];

    for chunk in payload.chunks(chunk_size) {
        let seg = client_data_seg(seq, server_isn, chunk);
        conn.process_segment(&parse_segment(&seg)).unwrap();
        seq = seq.wrapping_add(chunk.len() as u32);

        let n = conn.read_received(&mut tmp);
        received.extend_from_slice(&tmp[..n]);
    }

    loop {
        let n = conn.read_received(&mut tmp);
        if n == 0 {
            break;
        }
        received.extend_from_slice(&tmp[..n]);
    }

    assert_eq!(received.len(), payload.len());
    assert_eq!(received, payload);
}

#[test]
fn large_transfer_send_1mb() {
    let (mut conn, _) = establish_connection();
    let payload: Vec<u8> = (0..=255u8).cycle().take(1024 * 1024).collect();
    let mut write_offset = 0usize;
    let mut sent: Vec<u8> = Vec::with_capacity(payload.len());

    while write_offset < payload.len() || !conn.send_buf.is_empty() {
        let space = SEND_BUF_SIZE.saturating_sub(conn.send_buf.buffered());
        let to_write = (payload.len().saturating_sub(write_offset)).min(space);
        if to_write > 0 {
            conn.write_data(&payload[write_offset..write_offset + to_write]);
            write_offset += to_write;
        }

        if let Some(seg_raw) = conn.next_segment_to_send(1400) {
            let seg = parse_response(&seg_raw);
            sent.extend_from_slice(seg.payload);
            let new_ack = seg.header.seq.wrapping_add(seg.payload.len() as u32);
            let ack_raw = client_ack(new_ack);
            conn.process_segment(&parse_segment(&ack_raw)).unwrap();
        }
    }

    assert_eq!(sent.len(), payload.len());
    assert_eq!(sent, payload);
}

// ── active close tests ────────────────────────────────────────────────────

#[test]
fn active_close_fin_wait_path() {
    let (mut conn, server_isn) = establish_connection();
    let fin_raw = conn.initiate_close().unwrap();
    assert_eq!(conn.tcb.state, TcbState::FinWait1);
    let fin_seg = parse_response(&fin_raw);
    assert!(fin_seg.header.flags.fin && fin_seg.header.flags.ack);

    // Client ACKs our FIN → FIN_WAIT_2
    let fin_seq_acked = server_isn.wrapping_add(2);
    let ack_raw = client_ack(fin_seq_acked);
    conn.process_segment(&parse_segment(&ack_raw)).unwrap();
    assert_eq!(conn.tcb.state, TcbState::FinWait2);

    // Client sends its FIN → TIME_WAIT
    let client_fin_raw = client_fin(CLIENT_ISN + 1, fin_seq_acked);
    let ack_resp = conn
        .process_segment(&parse_segment(&client_fin_raw))
        .unwrap();
    assert!(ack_resp.is_some());
    assert_eq!(conn.tcb.state, TcbState::TimeWait);
    let ack_seg = parse_response(ack_resp.as_ref().unwrap());
    assert!(ack_seg.header.flags.ack);
    assert_eq!(ack_seg.header.ack_num, CLIENT_ISN + 2);
}

#[test]
fn passive_close_last_ack_to_closed() {
    let (mut conn, server_isn) = establish_connection();

    // Client sends FIN → CLOSE_WAIT
    let client_fin_raw = client_fin(CLIENT_ISN + 1, server_isn.wrapping_add(1));
    conn.process_segment(&parse_segment(&client_fin_raw))
        .unwrap();
    assert_eq!(conn.tcb.state, TcbState::CloseWait);

    // Application sends FIN → LAST_ACK
    let fin_raw = conn.initiate_close().unwrap();
    assert_eq!(conn.tcb.state, TcbState::LastAck);
    let fin_seg = parse_response(&fin_raw);
    assert!(fin_seg.header.flags.fin && fin_seg.header.flags.ack);

    // Client ACKs our FIN → CLOSED
    let fin_ack_seq = server_isn.wrapping_add(2);
    let ack_raw = client_ack(fin_ack_seq);
    conn.process_segment(&parse_segment(&ack_raw)).unwrap();
    assert_eq!(conn.tcb.state, TcbState::Closed);
}

#[test]
fn time_wait_transitions_to_closed_after_2msl() {
    let (mut conn, server_isn) = establish_connection();
    conn.initiate_close().unwrap();

    let fin_acked = server_isn.wrapping_add(2);
    let ack_raw = client_ack(fin_acked);
    conn.process_segment(&parse_segment(&ack_raw)).unwrap();
    assert_eq!(conn.tcb.state, TcbState::FinWait2);

    let client_fin_raw = client_fin(CLIENT_ISN + 1, fin_acked);
    conn.process_segment(&parse_segment(&client_fin_raw))
        .unwrap();
    assert_eq!(conn.tcb.state, TcbState::TimeWait);

    let not_yet = conn.now() + 30 * NANOS_PER_SEC;
    assert!(!conn.tick_time_wait(not_yet));
    assert_eq!(conn.tcb.state, TcbState::TimeWait);

    let past_2msl = conn.now() + 61 * NANOS_PER_SEC;
    assert!(conn.tick_time_wait(past_2msl));
    assert_eq!(conn.tcb.state, TcbState::Closed);
}

#[test]
fn simultaneous_close_via_closing_state() {
    let (mut conn, server_isn) = establish_connection();
    let our_fin_raw = conn.initiate_close().unwrap();
    assert_eq!(conn.tcb.state, TcbState::FinWait1);
    let our_fin = parse_response(&our_fin_raw);

    // Client sends FIN without ACKing ours → CLOSING
    let client_fin_raw = client_fin(CLIENT_ISN + 1, server_isn.wrapping_add(1));
    let ack_resp = conn
        .process_segment(&parse_segment(&client_fin_raw))
        .unwrap();
    assert!(ack_resp.is_some());
    assert_eq!(conn.tcb.state, TcbState::Closing);

    // Client ACKs our FIN → TIME_WAIT
    let our_fin_acked = our_fin.header.seq.wrapping_add(1);
    let ack_raw = client_ack(our_fin_acked);
    conn.process_segment(&parse_segment(&ack_raw)).unwrap();
    assert_eq!(conn.tcb.state, TcbState::TimeWait);
}

#[test]
fn fin_plus_ack_in_fin_wait_1_goes_to_time_wait() {
    let (mut conn, _server_isn) = establish_connection();
    let our_fin_raw = conn.initiate_close().unwrap();
    let our_fin = parse_response(&our_fin_raw);
    assert_eq!(conn.tcb.state, TcbState::FinWait1);

    // Client sends FIN+ACK (acking our FIN too) → TIME_WAIT directly
    let fin_ack = SegmentBuilder::new(CLIENT_IP, SERVER_IP, CLIENT_PORT, SERVER_PORT)
        .seq(CLIENT_ISN + 1)
        .ack(our_fin.header.seq.wrapping_add(1))
        .flags(TcpFlags {
            fin: true,
            ack: true,
            ..TcpFlags::default()
        })
        .build();
    let resp = conn.process_segment(&parse_segment(&fin_ack)).unwrap();
    assert!(resp.is_some());
    assert_eq!(conn.tcb.state, TcbState::TimeWait);
}

// ── congestion control tests ──────────────────────────────────────────────

#[test]
fn slow_start_cwnd_grows_per_ack() {
    let (mut conn, server_isn) = establish_connection();
    let initial_cwnd = conn.tcb.cwnd;
    assert!(conn.tcb.cwnd < conn.tcb.ssthresh);

    conn.write_data(&vec![0u8; 1400]);
    conn.next_segment_to_send(1400).unwrap();

    let new_ack = server_isn.wrapping_add(1 + 1400);
    let ack_raw = client_ack(new_ack);
    conn.process_segment(&parse_segment(&ack_raw)).unwrap();

    assert!(
        conn.tcb.cwnd > initial_cwnd,
        "cwnd should grow in slow start"
    );
    assert_eq!(
        conn.tcb.cwnd,
        initial_cwnd + 1400.min(MSS),
        "slow start: cwnd += min(bytes_acked, MSS)"
    );
}

#[test]
fn congestion_avoidance_cwnd_grows_below_one_mss_per_ack() {
    let (mut conn, server_isn) = establish_connection();
    conn.tcb.ssthresh = 1460;
    conn.tcb.cwnd = 2 * 1460;

    conn.write_data(&vec![0u8; 1400]);
    conn.next_segment_to_send(1400).unwrap();

    let before = conn.tcb.cwnd;
    let new_ack = server_isn.wrapping_add(1 + 1400);
    let ack_raw = client_ack(new_ack);
    conn.process_segment(&parse_segment(&ack_raw)).unwrap();

    let growth = conn.tcb.cwnd - before;
    assert!(growth > 0, "cwnd should grow in CA");
    assert!(
        growth < MSS,
        "CA growth per ACK should be less than 1 MSS when cwnd > MSS"
    );
}

#[test]
fn fast_retransmit_on_triple_dup_ack() {
    let (mut conn, server_isn) = establish_connection();

    conn.write_data(b"segment data here");
    conn.next_segment_to_send(1400).unwrap();

    let dup_ack_raw = client_ack(server_isn.wrapping_add(1));
    for i in 0..3u8 {
        let resp = conn.process_segment(&parse_segment(&dup_ack_raw)).unwrap();
        if i == 2 {
            assert!(
                resp.is_some(),
                "3rd dup ACK should trigger fast retransmit response"
            );
            let retransmit = parse_response(resp.as_ref().unwrap());
            assert!(retransmit.header.flags.ack && retransmit.header.flags.psh);
            assert_eq!(retransmit.payload, b"segment data here");
        } else {
            assert!(resp.is_none());
        }
    }

    assert_eq!(conn.tcb.dup_ack_count, 3);
    assert!(conn.tcb.cwnd > conn.tcb.ssthresh);
}

#[test]
fn fast_recovery_cwnd_inflates_past_3_dup_acks() {
    let (mut conn, server_isn) = establish_connection();
    conn.write_data(&vec![0u8; 1400]);
    conn.next_segment_to_send(1400).unwrap();

    let dup_ack_raw = client_ack(server_isn.wrapping_add(1));
    for _ in 0..3 {
        conn.process_segment(&parse_segment(&dup_ack_raw)).unwrap();
    }
    let cwnd_after_3 = conn.tcb.cwnd;

    conn.process_segment(&parse_segment(&dup_ack_raw)).unwrap();
    assert_eq!(
        conn.tcb.cwnd,
        cwnd_after_3 + MSS,
        "cwnd inflates by MSS per extra dup ACK in fast recovery"
    );
}

#[test]
fn dup_ack_count_resets_on_new_ack() {
    let (mut conn, server_isn) = establish_connection();
    conn.write_data(&vec![0u8; 1400]);
    conn.next_segment_to_send(1400).unwrap();

    let dup = client_ack(server_isn.wrapping_add(1));
    conn.process_segment(&parse_segment(&dup)).unwrap();
    conn.process_segment(&parse_segment(&dup)).unwrap();
    assert_eq!(conn.tcb.dup_ack_count, 2);

    let new_ack_raw = client_ack(server_isn.wrapping_add(1 + 1400));
    conn.process_segment(&parse_segment(&new_ack_raw)).unwrap();
    assert_eq!(conn.tcb.dup_ack_count, 0);
}

// ── retransmit tests ──────────────────────────────────────────────────────

#[test]
fn retransmit_on_rto_expiry() {
    let (mut conn, server_isn) = establish_connection();
    conn.retransmit_queue.rto = 2 * NANOS_PER_MILLI;

    conn.write_data(b"retransmit me");
    conn.next_segment_to_send(1400).unwrap();

    let later = conn.now() + 3 * NANOS_PER_MILLI;
    let retransmits = conn.take_retransmits_at(later);
    assert_eq!(retransmits.len(), 1);

    let seg = parse_response(&retransmits[0]);
    assert_eq!(seg.payload, b"retransmit me");
    assert_eq!(seg.header.seq, server_isn.wrapping_add(1));
}

#[test]
fn rto_expiry_resets_cwnd_to_slow_start() {
    let (mut conn, _) = establish_connection();
    conn.retransmit_queue.rto = 2 * NANOS_PER_MILLI;
    conn.tcb.cwnd = 10 * MSS;
    conn.tcb.ssthresh = 65535;

    conn.write_data(&vec![0u8; 1400]);
    conn.next_segment_to_send(1400).unwrap();

    let later = conn.now() + 3 * NANOS_PER_MILLI;
    conn.take_retransmits_at(later);

    assert_eq!(conn.tcb.cwnd, MSS, "cwnd should reset to 1 MSS on RTO");
    assert_eq!(conn.tcb.ssthresh, 5 * MSS, "ssthresh should halve on RTO");
}

#[test]
fn retransmit_completes_transfer() {
    let (mut conn, _server_isn) = establish_connection();
    conn.retransmit_queue.rto = 2 * NANOS_PER_MILLI;

    let data = b"hello retransmit world";
    conn.write_data(data);
    let original = conn.next_segment_to_send(1400).unwrap();
    let original_seg = parse_response(&original);

    // Simulate drop: do NOT send ACK
    assert!(!conn.send_buf.is_empty());

    let later = conn.now() + 4 * NANOS_PER_MILLI;
    let retransmits = conn.take_retransmits_at(later);
    assert_eq!(retransmits.len(), 1);

    // ACK the retransmit
    let new_ack = original_seg
        .header
        .seq
        .wrapping_add(original_seg.payload.len() as u32);
    let ack_raw = client_ack(new_ack);
    conn.process_segment(&parse_segment(&ack_raw)).unwrap();

    assert!(conn.send_buf.is_empty());
    assert!(conn.retransmit_queue.is_empty());
}

#[test]
fn time_wait_retransmits_ack_on_fin() {
    let (mut conn, server_isn) = establish_connection();
    conn.initiate_close().unwrap();

    let fin_acked = server_isn.wrapping_add(2);
    let ack_raw = client_ack(fin_acked);
    conn.process_segment(&parse_segment(&ack_raw)).unwrap();

    let client_fin_raw = client_fin(CLIENT_ISN + 1, fin_acked);
    conn.process_segment(&parse_segment(&client_fin_raw))
        .unwrap();
    assert_eq!(conn.tcb.state, TcbState::TimeWait);

    // Retransmitted FIN from client while in TIME_WAIT — should re-ACK
    let resp = conn
        .process_segment(&parse_segment(&client_fin_raw))
        .unwrap();
    assert!(resp.is_some());
    let ack_seg = parse_response(resp.as_ref().unwrap());
    assert!(ack_seg.header.flags.ack);
}

// ── active open ───────────────────────────────────────────────────────────

fn client() -> Connection {
    Connection::new(Tcb::new_for_connect(CLIENT_IP, CLIENT_PORT, SERVER_IP, SERVER_PORT))
}

fn server_segment(seq: u32, ack: u32, flags: TcpFlags) -> Vec<u8> {
    SegmentBuilder::new(SERVER_IP, CLIENT_IP, SERVER_PORT, CLIENT_PORT)
        .seq(seq)
        .ack(ack)
        .flags(flags)
        .build()
}

#[test]
fn connect_transitions_to_syn_sent() {
    let mut conn = client();
    let iss = conn.tcb.snd.iss;
    let raw = conn.connect().unwrap();
    let syn = parse_segment(&raw);
    assert!(syn.header.flags.syn && !syn.header.flags.ack);
    assert_eq!(syn.header.seq, iss);
    assert_eq!(conn.tcb.state, TcbState::SynSent);
    assert_eq!(conn.tcb.snd.nxt, iss.wrapping_add(1));
    assert!(conn.connect().is_none());
}

#[test]
fn syn_sent_transitions_to_established_on_syn_ack() {
    let mut conn = client();
    let iss = conn.tcb.snd.iss;
    conn.connect().unwrap();
    let flags = TcpFlags { syn: true, ack: true, ..TcpFlags::default() };
    let raw = server_segment(7000, iss.wrapping_add(1), flags);
    let answer = conn.process_segment(&parse_response(&raw)).unwrap().unwrap();
    let ack = parse_segment(&answer);
    assert!(ack.header.flags.ack && !ack.header.flags.syn);
    assert_eq!(ack.header.ack_num, 7001);
    assert_eq!(ack.header.seq, iss.wrapping_add(1));
    assert_eq!(conn.tcb.state, TcbState::Established);
    assert_eq!(conn.tcb.snd.una, iss.wrapping_add(1));
    assert_eq!(conn.tcb.rcv.irs, 7000);
}

#[test]
fn syn_sent_rst_closes_connection() {
    let mut conn = client();
    conn.connect().unwrap();
    let raw = server_segment(0, 0, TcpFlags { rst: true, ..TcpFlags::default() });
    assert!(conn.process_segment(&parse_response(&raw)).unwrap().is_none());
    assert_eq!(conn.tcb.state, TcbState::Closed);
}

#[test]
fn syn_sent_simultaneous_open_goes_to_syn_received() {
    let mut conn = client();
    let iss = conn.tcb.snd.iss;
    conn.connect().unwrap();
    let raw = server_segment(7000, 0, TcpFlags { syn: true, ..TcpFlags::default() });
    let answer = conn.process_segment(&parse_response(&raw)).unwrap().unwrap();
    let syn_ack = parse_segment(&answer);
    assert!(syn_ack.header.flags.syn && syn_ack.header.flags.ack);
    assert_eq!((syn_ack.header.seq, syn_ack.header.ack_num), (iss, 7001));
    assert_eq!(conn.tcb.state, TcbState::SynReceived);
    let flags = TcpFlags { syn: true, ack: true, ..TcpFlags::default() };
    let raw = server_segment(7000, iss.wrapping_add(1), flags);
    assert!(conn.process_segment(&parse_response(&raw)).unwrap().is_none());
    assert_eq!(conn.tcb.state, TcbState::Established);
}

#[test]
fn syn_sent_refuses_a_foreign_acknowledgment() {
    let mut conn = client();
    let iss = conn.tcb.snd.iss;
    conn.connect().unwrap();
    let flags = TcpFlags { syn: true, ack: true, ..TcpFlags::default() };
    let raw = server_segment(7000, iss.wrapping_add(9), flags);
    let answer = conn.process_segment(&parse_response(&raw)).unwrap().unwrap();
    let rst = parse_segment(&answer);
    assert!(rst.header.flags.rst);
    assert_eq!(rst.header.seq, iss.wrapping_add(9));
    assert_eq!(conn.tcb.state, TcbState::SynSent);
    let raw = server_segment(7000, iss.wrapping_add(1), TcpFlags { ack: true, ..TcpFlags::default() });
    assert!(conn.process_segment(&parse_response(&raw)).unwrap().is_none());
    assert_eq!(conn.tcb.state, TcbState::SynSent);
}

// ── windows ───────────────────────────────────────────────────────────────

#[test]
fn zero_window_probe_sends_one_byte_when_window_closed() {
    let (mut conn, server_isn) = establish_connection();
    conn.tcb.snd.wnd = 0;
    conn.write_data(b"waiting");
    let nxt = conn.tcb.snd.nxt;
    let raw = conn.zero_window_probe().unwrap();
    let probe = parse_response(&raw);
    assert_eq!(probe.payload, b"w");
    assert_eq!(probe.header.seq, server_isn.wrapping_add(1));
    assert!(probe.header.flags.ack && probe.header.flags.psh);
    assert_eq!(conn.tcb.snd.nxt, nxt);
    assert_eq!(conn.zero_window_probe().unwrap(), raw);
}

#[test]
fn zero_window_probe_returns_none_when_window_open() {
    let (mut conn, _) = establish_connection();
    conn.write_data(b"data");
    assert!(conn.zero_window_probe().is_none());
    conn.tcb.snd.wnd = 0;
    assert!(conn.zero_window_probe().is_some());
    conn.tcb.state = TcbState::CloseWait;
    assert!(conn.zero_window_probe().is_none());
    let (mut idle, _) = establish_connection();
    idle.tcb.snd.wnd = 0;
    assert!(idle.zero_window_probe().is_none());
}

#[test]
fn next_segment_blocked_when_window_zero() {
    let (mut conn, _) = establish_connection();
    conn.write_data(b"data");
    conn.tcb.snd.wnd = 0;
    assert!(conn.next_segment_to_send(1400).is_none());
    conn.tcb.snd.wnd = 2;
    assert_eq!(parse_response(&conn.next_segment_to_send(1400).unwrap()).payload, b"da");
    assert!(conn.next_segment_to_send(1400).is_none());
}

#[test]
fn flight_is_bounded_by_the_congestion_window() {
    let (mut conn, server_isn) = establish_connection();
    conn.write_data(&vec![7u8; 10_000]);
    let mut sent = 0;
    while let Some(raw) = conn.next_segment_to_send(1000) {
        sent += parse_response(&raw).payload.len();
    }
    assert_eq!(sent, 1460);
    conn.process_segment(&parse_segment(&client_ack(server_isn.wrapping_add(1 + 1460)))).unwrap();
    assert_eq!(conn.tcb.cwnd, 2 * MSS);
    let mut more = 0;
    while let Some(raw) = conn.next_segment_to_send(1000) {
        more += parse_response(&raw).payload.len();
    }
    assert_eq!(more, 2920);
}

#[test]
fn advertised_window_follows_the_receive_buffer() {
    let (mut conn, server_isn) = establish_connection();
    let seg = client_data_seg(CLIENT_ISN + 1, server_isn, &[1; 1000]);
    let resp = conn.process_segment(&parse_segment(&seg)).unwrap().unwrap();
    assert_eq!(parse_response(&resp).header.window, (65536 - 1000) as u16);
}

// ── the whole diagram ─────────────────────────────────────────────────────

#[test]
fn all_11_tcp_states_exercised() {
    let mut seen: Vec<TcbState> = Vec::new();
    let mut note = |state: TcbState| {
        if !seen.contains(&state) {
            seen.push(state);
        }
    };
    let mut a = client();
    note(a.tcb.state);
    let mut b = make_connection();
    note(b.tcb.state);
    let syn = a.connect().unwrap();
    note(a.tcb.state);
    let syn_ack = b.process_segment(&parse_segment(&syn)).unwrap().unwrap();
    note(b.tcb.state);
    let ack = a.process_segment(&parse_response(&syn_ack)).unwrap().unwrap();
    assert!(b.process_segment(&parse_segment(&ack)).unwrap().is_none());
    note(a.tcb.state);
    assert_eq!(b.tcb.state, TcbState::Established);

    let fin = a.initiate_close().unwrap();
    note(a.tcb.state);
    let fin_acked = b.process_segment(&parse_segment(&fin)).unwrap().unwrap();
    note(b.tcb.state);
    assert!(a.process_segment(&parse_response(&fin_acked)).unwrap().is_none());
    note(a.tcb.state);
    let other_fin = b.initiate_close().unwrap();
    note(b.tcb.state);
    let last = a.process_segment(&parse_response(&other_fin)).unwrap().unwrap();
    note(a.tcb.state);
    b.process_segment(&parse_segment(&last)).unwrap();
    assert_eq!(b.tcb.state, TcbState::Closed);
    assert!(a.tick_time_wait(a.now() + 61 * NANOS_PER_SEC));
    assert_eq!(a.tcb.state, TcbState::Closed);

    let (mut c, server_isn) = establish_connection();
    c.initiate_close().unwrap();
    c.process_segment(&parse_segment(&client_fin(CLIENT_ISN + 1, server_isn.wrapping_add(1)))).unwrap();
    note(c.tcb.state);
    assert_eq!(seen.len(), 11);
}

#[test]
fn reset_closes_every_open_state() {
    let rst = SegmentBuilder::new(CLIENT_IP, SERVER_IP, CLIENT_PORT, SERVER_PORT)
        .flags(TcpFlags { rst: true, ..TcpFlags::default() })
        .build();
    for state in [
        TcbState::Established,
        TcbState::CloseWait,
        TcbState::FinWait1,
        TcbState::FinWait2,
        TcbState::Closing,
        TcbState::LastAck,
        TcbState::Closed,
    ] {
        let (mut conn, _) = establish_connection();
        conn.tcb.state = state;
        assert!(conn.process_segment(&parse_segment(&rst)).unwrap().is_none());
        assert_eq!(conn.tcb.state, TcbState::Closed);
    }
    let (mut conn, _) = establish_connection();
    conn.tcb.state = TcbState::TimeWait;
    assert!(conn.process_segment(&parse_segment(&rst)).unwrap().is_none());
    assert_eq!(conn.tcb.state, TcbState::TimeWait);
}

#[test]
fn syn_received_answers_strays() {
    let mut conn = make_connection();
    let syn = SegmentBuilder::new(CLIENT_IP, SERVER_IP, CLIENT_PORT, SERVER_PORT)
        .seq(1000)
        .flags(TcpFlags { syn: true, ..TcpFlags::default() })
        .build();
    let first = conn.process_segment(&parse_segment(&syn)).unwrap().unwrap();
    assert_eq!(conn.process_segment(&parse_segment(&syn)).unwrap().unwrap(), first);
    let resp = conn.process_segment(&parse_segment(&client_ack(conn.tcb.snd.iss))).unwrap().unwrap();
    assert!(parse_response(&resp).header.flags.rst);
    assert_eq!(conn.tcb.state, TcbState::SynReceived);
}

#[test]
fn time_wait_ends_exactly_after_a_minute() {
    let (mut conn, _) = establish_connection();
    conn.tcb.state = TcbState::TimeWait;
    assert!(!conn.tick_time_wait(u128::MAX));
    conn.time_wait_start = Some(5);
    assert!(!conn.tick_time_wait(5 + 60 * NANOS_PER_SEC - 1));
    assert!(!conn.tick_time_wait(0));
    assert!(conn.tick_time_wait(5 + 60 * NANOS_PER_SEC));
    assert_eq!(conn.tcb.state, TcbState::Closed);
    assert!(!conn.tick_time_wait(u128::MAX));
}

#[test]
fn data_with_fin_is_delivered_and_counted() {
    let (mut conn, server_isn) = establish_connection();
    let raw = SegmentBuilder::new(CLIENT_IP, SERVER_IP, CLIENT_PORT, SERVER_PORT)
        .seq(CLIENT_ISN + 1)
        .ack(server_isn.wrapping_add(1))
        .flags(TcpFlags { fin: true, ack: true, ..TcpFlags::default() })
        .payload(b"bye")
        .build();
    let resp = conn.process_segment(&parse_segment(&raw)).unwrap().unwrap();
    assert_eq!(parse_response(&resp).header.ack_num, CLIENT_ISN + 1 + 3 + 1);
    assert_eq!(conn.tcb.state, TcbState::CloseWait);
    let mut out = [0u8; 3];
    assert_eq!(conn.read_received(&mut out), 3);
    assert_eq!(&out, b"bye");
}

// ── congestion ────────────────────────────────────────────────────────────

#[test]
fn congestion_avoidance_exact_growth() {
    let (mut conn, server_isn) = establish_connection();
    conn.tcb.cwnd = 10 * MSS;
    conn.tcb.ssthresh = 5 * MSS;
    conn.write_data(&[0; 100]);
    conn.next_segment_to_send(1400).unwrap();
    conn.process_segment(&parse_segment(&client_ack(server_isn.wrapping_add(101)))).unwrap();
    assert_eq!(conn.tcb.cwnd, 10 * MSS + 146);
}

#[test]
fn fast_retransmit_exact_windows_and_recovery() {
    let (mut conn, server_isn) = establish_connection();
    conn.tcb.cwnd = 20 * MSS;
    conn.write_data(&[3; 5000]);
    while conn.next_segment_to_send(1000).is_some() {}
    let dup = client_ack(server_isn.wrapping_add(1));
    assert!(conn.process_segment(&parse_segment(&dup)).unwrap().is_none());
    assert!(conn.process_segment(&parse_segment(&dup)).unwrap().is_none());
    assert_eq!(conn.tcb.cwnd, 20 * MSS);
    let again = conn.process_segment(&parse_segment(&dup)).unwrap().unwrap();
    assert_eq!(parse_response(&again).header.seq, server_isn.wrapping_add(1));
    assert_eq!(parse_response(&again).payload, &[3; 1000]);
    assert_eq!((conn.tcb.ssthresh, conn.tcb.cwnd), (10 * MSS, 13 * MSS));
    assert!(conn.process_segment(&parse_segment(&dup)).unwrap().is_none());
    assert_eq!(conn.tcb.cwnd, 14 * MSS);
    conn.process_segment(&parse_segment(&client_ack(server_isn.wrapping_add(5001)))).unwrap();
    assert_eq!(conn.tcb.dup_ack_count, 0);
    assert_eq!(conn.tcb.cwnd, 14 * MSS + MSS * MSS / (14 * MSS));
    assert!(conn.retransmit_queue.is_empty());
}

#[test]
fn small_windows_keep_two_segments_of_threshold() {
    let (mut conn, _) = establish_connection();
    conn.write_data(b"x");
    let now = conn.now();
    conn.next_segment_to_send_at(1400, now).unwrap();
    assert!(conn.take_retransmits_at(now + NANOS_PER_SEC - 1).is_empty());
    assert_eq!(conn.tcb.ssthresh, 65535);
    assert_eq!(conn.take_retransmits_at(now + NANOS_PER_SEC).len(), 1);
    assert_eq!((conn.tcb.ssthresh, conn.tcb.cwnd), (2 * MSS, MSS));
    assert_eq!(conn.retransmit_queue.rto, 2 * NANOS_PER_SEC);
}

#[test]
fn retransmits_wait_for_the_clock() {
    let (mut conn, _) = establish_connection();
    conn.write_data(b"x");
    conn.next_segment_to_send(1400).unwrap();
    assert!(conn.take_retransmits().is_empty());
    conn.retransmit_queue.rto = 0;
    assert_eq!(conn.take_retransmits().len(), 1);
}

// ── both ends, over a link that loses and reorders ────────────────────────

#[test]
fn stream_survives_loss_and_reordering() {
    let mut a = client();
    let mut b = make_connection();
    let syn = a.connect().unwrap();
    let syn_ack = b.process_segment(&parse_segment(&syn)).unwrap().unwrap();
    let ack = a.process_segment(&parse_response(&syn_ack)).unwrap().unwrap();
    b.process_segment(&parse_segment(&ack)).unwrap();

    let stream: Vec<u8> = (0..300_000u32).map(|i| (i * 13 + i / 255) as u8).collect();
    let mut written = 0;
    let mut received: Vec<u8> = Vec::new();
    let mut now = 0u128;
    let mut state = 42u32;
    let mut tmp = vec![0u8; 65536];
    let mut rounds = 0;
    while received.len() < stream.len() {
        rounds += 1;
        assert!(rounds < 100_000);
        now += 50 * NANOS_PER_MILLI;
        written += a.write_data(&stream[written..]);
        let mut link = a.take_retransmits_at(now);
        while let Some(raw) = a.next_segment_to_send_at(1460, now) {
            link.push(raw);
        }
        state = state.wrapping_mul(1_664_525).wrapping_add(1_013_904_223);
        if state & 0x100 != 0 {
            link.reverse();
        }
        for raw in link {
            state = state.wrapping_mul(1_664_525).wrapping_add(1_013_904_223);
            if (state >> 16) % 10 == 0 {
                continue;
            }
            if let Some(answer) = b.process_segment_at(&parse_segment(&raw), now) {
                state = state.wrapping_mul(1_664_525).wrapping_add(1_013_904_223);
                if (state >> 16) % 10 != 0 {
                    let resent = a.process_segment_at(&parse_response(&answer), now);
                    if let Some(raw) = resent {
                        b.process_segment_at(&parse_segment(&raw), now);
                    }
                }
            }
        }
        let n = b.read_received(&mut tmp);
        received.extend_from_slice(&tmp[..n]);
    }
    assert_eq!(received, stream);
}
