//! What holds of connections across calls.
use vstd::prelude::*;

use crate::clock::Nanos;
use crate::tcp::header::{received, SegmentFields, SegmentView};
use crate::tcp::recv_buffer::{carries, insert_keeps_the_stream, receives, RecvView};
use crate::tcp::retransmit::{EntryView, MSS};
use crate::tcp::send_buffer::{
    acknowledgment_frees_what_arrived, fresh_sends_nothing, segments_follow_the_stream, sends,
    SEND_BUF_SIZE,
};
use crate::tcp::tcb::{
    ack_acceptable_range, ahead, ahead_ahead, ahead_distance, distance, fresh_tcb, Tcb, TcbState,
};
use crate::tcp::transitions::{fresh_connection, grown_cwnd, halved_cwnd, ConnView, TWO_MSL};

verus! {

/// The state diagram of TCP: which state may follow which.
pub open spec fn in_diagram(from: TcbState, to: TcbState) -> bool {
    ||| from == to
    ||| match from {
        TcbState::Closed => to == TcbState::SynSent,
        TcbState::Listen => to == TcbState::SynReceived,
        TcbState::SynSent => to == TcbState::Established || to == TcbState::SynReceived || to
            == TcbState::Closed,
        TcbState::SynReceived => to == TcbState::Established || to == TcbState::Listen,
        TcbState::Established => to == TcbState::CloseWait || to == TcbState::FinWait1 || to
            == TcbState::Closed,
        TcbState::CloseWait => to == TcbState::LastAck || to == TcbState::Closed,
        TcbState::LastAck => to == TcbState::Closed,
        TcbState::FinWait1 => to == TcbState::FinWait2 || to == TcbState::Closing || to
            == TcbState::TimeWait || to == TcbState::Closed,
        TcbState::FinWait2 => to == TcbState::TimeWait || to == TcbState::Closed,
        TcbState::Closing => to == TcbState::TimeWait || to == TcbState::Closed,
        TcbState::TimeWait => to == TcbState::Closed,
    }
}

/// Whatever happens to a connection, its state moves along the state diagram only. Sending,
/// resending and timers for data leave it as it is.
pub proof fn states_follow_the_diagram(c: ConnView, seg: SegmentView, max_payload: nat, now: Nanos)
    ensures
        in_diagram(c.tcb.state, c.on_segment(seg, now).0.tcb.state),
        in_diagram(c.tcb.state, c.on_connect().0.tcb.state),
        in_diagram(c.tcb.state, c.on_close().0.tcb.state),
        in_diagram(c.tcb.state, c.on_tick(now).tcb.state),
        c.on_send(max_payload, now).0.tcb.state == c.tcb.state,
        c.on_timeout(now).0.tcb.state == c.tcb.state,
{
}

/// A closed connection is done: no segment changes it or is answered.
pub proof fn closed_stays_closed(c: ConnView, seg: SegmentView, now: Nanos)
    requires
        c.tcb.state == TcbState::Closed,
    ensures
        c.on_segment(seg, now) == (c, None::<SegmentFields>),
{
}

/// A reset is never answered. It closes the connection, but for one that only listens or has got no
/// further than the peer's SYN, which goes on listening, and one in TIME_WAIT, which is over anyway.
pub proof fn reset_is_final(c: ConnView, seg: SegmentView, now: Nanos)
    requires
        seg.header.flags.rst,
        c.tcb.state != TcbState::TimeWait,
    ensures
        c.on_segment(seg, now).1 is None,
        c.on_segment(seg, now).0.tcb.state == match c.tcb.state {
            TcbState::Listen => TcbState::Listen,
            TcbState::SynReceived => TcbState::Listen,
            _ => TcbState::Closed,
        },
{
}

/// An acknowledgment of what was never sent is answered with a reset under the number it
/// acknowledges, while a connection is not open yet: by one that listens for any acknowledgment, by
/// one that has sent its SYN for any that does not cover it.
pub proof fn stray_acks_are_reset(c: ConnView, seg: SegmentView, now: Nanos)
    requires
        seg.header.flags.ack,
        !seg.header.flags.rst,
        match c.tcb.state {
            TcbState::Listen => true,
            TcbState::SynSent => seg.header.flags.syn && !c.acks_new_data(seg),
            TcbState::SynReceived => !c.acks_new_data(seg),
            _ => false,
        },
    ensures
        c.on_segment(seg, now) == (c, Some(c.rst_segment(seg.header.ack_num))),
{
}

/// Whether two ends talk to each other.
pub open spec fn are_ends(a: Tcb, b: Tcb) -> bool {
    &&& a.local_ip == b.remote_ip
    &&& a.local_port == b.remote_port
    &&& a.remote_ip == b.local_ip
    &&& a.remote_port == b.local_port
}

/// Whether a connection is established with nothing in flight, counting what it sends from `iss`
/// and what it receives from `irs`.
pub open spec fn is_open(c: ConnView, iss: u32, irs: u32) -> bool {
    &&& c.tcb.state == TcbState::Established
    &&& c.tcb.snd.iss == iss
    &&& c.tcb.rcv.irs == irs
    &&& c.tcb.snd.una == ahead(iss, 1)
    &&& c.tcb.snd.nxt == ahead(iss, 1)
    &&& c.tcb.rcv.nxt == ahead(irs, 1)
    &&& sends(c.send, iss, Seq::empty(), 0, 0)
    &&& c.recv == Some(RecvView::fresh(irs))
}

/// The three-way handshake: one end connects, the other listens, and after SYN, SYN-ACK and ACK
/// both are established and agree on where the other's stream starts.
pub proof fn two_ends_connect(
    client: ConnView,
    server: ConnView,
    iss: u32,
    irs: u32,
    t1: Nanos,
    t2: Nanos,
    t3: Nanos,
)
    requires
        client == fresh_connection(client.tcb),
        server == fresh_connection(server.tcb),
        are_ends(client.tcb, server.tcb),
        client.tcb == fresh_tcb(
            TcbState::Closed,
            client.tcb.local_ip,
            client.tcb.local_port,
            client.tcb.remote_ip,
            client.tcb.remote_port,
            iss,
        ),
        server.tcb == fresh_tcb(
            TcbState::Listen,
            server.tcb.local_ip,
            server.tcb.local_port,
            server.tcb.remote_ip,
            server.tcb.remote_port,
            irs,
        ),
    ensures
        ({
            let (client1, syn) = client.on_connect();
            let (server1, syn_ack) = server.on_segment(received(syn->0), t1);
            let (client2, ack) = client1.on_segment(received(syn_ack->0), t2);
            let (server2, answer) = server1.on_segment(received(ack->0), t3);
            &&& syn is Some
            &&& client1.tcb.state == TcbState::SynSent
            &&& syn_ack is Some
            &&& server1.tcb.state == TcbState::SynReceived
            &&& ack is Some
            &&& is_open(client2, iss, irs)
            &&& answer is None
            &&& is_open(server2, irs, iss)
        }),
{
    fresh_sends_nothing(iss);
    fresh_sends_nothing(irs);
    assert(Seq::<u8>::empty().skip(0) =~= Seq::<u8>::empty());
}

/// Simultaneous open: both ends connect to each other at the same time, and the crossing SYNs and
/// SYN-ACKs establish the connection on both.
pub proof fn two_ends_connect_simultaneously(
    a: ConnView,
    b: ConnView,
    iss: u32,
    irs: u32,
    t1: Nanos,
    t2: Nanos,
    t3: Nanos,
    t4: Nanos,
)
    requires
        a == fresh_connection(a.tcb),
        b == fresh_connection(b.tcb),
        are_ends(a.tcb, b.tcb),
        a.tcb == fresh_tcb(
            TcbState::Closed,
            a.tcb.local_ip,
            a.tcb.local_port,
            a.tcb.remote_ip,
            a.tcb.remote_port,
            iss,
        ),
        b.tcb == fresh_tcb(
            TcbState::Closed,
            b.tcb.local_ip,
            b.tcb.local_port,
            b.tcb.remote_ip,
            b.tcb.remote_port,
            irs,
        ),
    ensures
        ({
            let (a1, syn_a) = a.on_connect();
            let (b1, syn_b) = b.on_connect();
            let (a2, syn_ack_a) = a1.on_segment(received(syn_b->0), t1);
            let (b2, syn_ack_b) = b1.on_segment(received(syn_a->0), t2);
            let (a3, answer_a) = a2.on_segment(received(syn_ack_b->0), t3);
            let (b3, answer_b) = b2.on_segment(received(syn_ack_a->0), t4);
            &&& syn_a is Some && syn_b is Some
            &&& a2.tcb.state == TcbState::SynReceived && b2.tcb.state == TcbState::SynReceived
            &&& syn_ack_a is Some && syn_ack_b is Some
            &&& answer_a is None && answer_b is None
            &&& is_open(a3, iss, irs)
            &&& is_open(b3, irs, iss)
        }),
{
    fresh_sends_nothing(iss);
    fresh_sends_nothing(irs);
    let (a1, syn_a) = a.on_connect();
    let (b1, syn_b) = b.on_connect();
    syn_crosses(a1, received(syn_b->0), iss, t1);
    syn_crosses(b1, received(syn_a->0), irs, t2);
    let (a2, syn_ack_a) = a1.on_segment(received(syn_b->0), t1);
    let (b2, syn_ack_b) = b1.on_segment(received(syn_a->0), t2);
    syn_is_acked(a2, received(syn_ack_b->0), iss, irs, t3);
    syn_is_acked(b2, received(syn_ack_a->0), irs, iss, t4);
}

/// A SYN that answers our own: it is acknowledged, and what we send counts from our own number.
proof fn syn_crosses(c: ConnView, seg: SegmentView, iss: u32, now: Nanos)
    requires
        c.tcb.state == TcbState::SynSent,
        c.tcb.snd.iss == iss,
        seg.header.flags.syn && !seg.header.flags.ack && !seg.header.flags.rst,
    ensures
        ({
            let (next, answer) = c.on_segment(seg, now);
            &&& next == c.synchronized(seg).in_state(TcbState::SynReceived)
            &&& answer == Some(next.syn_ack_segment())
            &&& received(answer->0).header.flags.ack
            &&& !received(answer->0).header.flags.rst
            &&& received(answer->0).header.ack_num == ahead(seg.header.seq, 1)
        }),
{
}

/// The acknowledgment of our SYN in SYN_RECEIVED opens the connection.
proof fn syn_is_acked(c: ConnView, seg: SegmentView, iss: u32, irs: u32, now: Nanos)
    requires
        c.tcb.state == TcbState::SynReceived,
        c.tcb.snd.iss == iss,
        c.tcb.snd.una == iss,
        c.tcb.snd.nxt == ahead(iss, 1),
        c.tcb.rcv.irs == irs,
        c.tcb.rcv.nxt == ahead(irs, 1),
        sends(c.send, iss, Seq::empty(), 0, 0),
        c.recv == Some(RecvView::fresh(irs)),
        seg.header.flags.ack && !seg.header.flags.rst,
        seg.header.ack_num == ahead(iss, 1),
    ensures
        is_open(c.on_segment(seg, now).0, iss, irs),
        c.on_segment(seg, now).1 is None,
{
    assert(Seq::<u8>::empty().skip(0) =~= Seq::<u8>::empty());
}

/// Whether two established ends have nothing in flight in either direction.
pub open spec fn are_quiet(a: ConnView, b: ConnView) -> bool {
    &&& a.tcb.state == TcbState::Established
    &&& b.tcb.state == TcbState::Established
    &&& a.tcb.snd.una == a.tcb.snd.nxt
    &&& b.tcb.snd.una == b.tcb.snd.nxt
    &&& a.tcb.snd.nxt == b.tcb.rcv.nxt
    &&& b.tcb.snd.nxt == a.tcb.rcv.nxt
}

/// The peer's FIN in ESTABLISHED is acknowledged.
proof fn fin_reaches_established(c: ConnView, seg: SegmentView, now: Nanos)
    requires
        c.tcb.state == TcbState::Established,
        c.tcb.snd.una == c.tcb.snd.nxt,
        seg.header.flags.fin && !seg.header.flags.rst,
        seg.header.ack_num == c.tcb.snd.una,
        seg.payload.len() == 0,
    ensures
        ({
            let (next, answer) = c.on_segment(seg, now);
            &&& next == c.finished_by_peer(seg).in_state(TcbState::CloseWait)
            &&& answer == Some(next.ack_segment())
        }),
{
}

/// The acknowledgment of our FIN alone in FIN_WAIT_1.
proof fn fin_is_acked(c: ConnView, seg: SegmentView, now: Nanos)
    requires
        c.tcb.state == TcbState::FinWait1,
        c.tcb.snd.nxt == ahead(c.tcb.snd.una, 1),
        seg.header.flags.ack && !seg.header.flags.rst && !seg.header.flags.fin,
        seg.header.ack_num == c.tcb.snd.nxt,
    ensures
        ({
            let (next, answer) = c.on_segment(seg, now);
            &&& next == c.data_acked(seg, now).in_state(TcbState::FinWait2)
            &&& answer is None
        }),
{
}

/// The peer's FIN in FIN_WAIT_2.
proof fn fin_reaches_fin_wait_2(c: ConnView, seg: SegmentView, now: Nanos)
    requires
        c.tcb.state == TcbState::FinWait2,
        seg.header.flags.fin && !seg.header.flags.rst,
    ensures
        ({
            let (next, answer) = c.on_segment(seg, now);
            &&& next == c.finished_by_peer(seg).waiting(now)
            &&& answer == Some(next.ack_segment())
        }),
{
}

/// The acknowledgment of our FIN in LAST_ACK.
proof fn last_ack_arrives(c: ConnView, seg: SegmentView, now: Nanos)
    requires
        c.tcb.state == TcbState::LastAck,
        c.tcb.snd.nxt == ahead(c.tcb.snd.una, 1),
        seg.header.flags.ack && !seg.header.flags.rst,
        seg.header.ack_num == c.tcb.snd.nxt,
    ensures
        c.on_segment(seg, now).0.tcb.state == TcbState::Closed,
        c.on_segment(seg, now).1 is None,
{
}

/// The peer's FIN in FIN_WAIT_1, when it does not acknowledge ours.
proof fn fins_cross(c: ConnView, seg: SegmentView, now: Nanos)
    requires
        c.tcb.state == TcbState::FinWait1,
        c.tcb.snd.nxt == ahead(c.tcb.snd.una, 1),
        seg.header.flags.fin && !seg.header.flags.rst,
        seg.header.ack_num == c.tcb.snd.una,
    ensures
        ({
            let (next, answer) = c.on_segment(seg, now);
            &&& next == c.finished_by_peer(seg).in_state(TcbState::Closing)
            &&& answer == Some(next.ack_segment())
        }),
{
}

/// The acknowledgment of our FIN in CLOSING.
proof fn closing_is_acked(c: ConnView, seg: SegmentView, now: Nanos)
    requires
        c.tcb.state == TcbState::Closing,
        c.tcb.snd.nxt == ahead(c.tcb.snd.una, 1),
        seg.header.flags.ack && !seg.header.flags.rst,
        seg.header.ack_num == c.tcb.snd.nxt,
    ensures
        c.on_segment(seg, now).0.tcb.state == TcbState::TimeWait,
        c.on_segment(seg, now).1 is None,
{
}

/// The four-way close: the end that closes first goes through FIN_WAIT_1 and FIN_WAIT_2 to TIME_WAIT
/// and is closed when its wait is over; the other goes through CLOSE_WAIT and LAST_ACK and is closed
/// by the last acknowledgment.
pub proof fn two_ends_close(a: ConnView, b: ConnView, t: Nanos, over: Nanos)
    requires
        are_quiet(a, b),
        over >= t + TWO_MSL,
    ensures
        ({
            let (a1, fin_a) = a.on_close();
            let (b1, ack_b) = b.on_segment(received(fin_a->0), t);
            let (a2, none_a) = a1.on_segment(received(ack_b->0), t);
            let (b2, fin_b) = b1.on_close();
            let (a3, ack_a) = a2.on_segment(received(fin_b->0), t);
            let (b3, none_b) = b2.on_segment(received(ack_a->0), t);
            let a4 = a3.on_tick(over);
            &&& fin_a is Some && a1.tcb.state == TcbState::FinWait1
            &&& ack_b is Some && b1.tcb.state == TcbState::CloseWait
            &&& none_a is None && a2.tcb.state == TcbState::FinWait2
            &&& fin_b is Some && b2.tcb.state == TcbState::LastAck
            &&& ack_a is Some && a3.tcb.state == TcbState::TimeWait
            &&& none_b is None && b3.tcb.state == TcbState::Closed
            &&& a4.tcb.state == TcbState::Closed
        }),
{
    let (a1, fin_a) = a.on_close();
    fin_reaches_established(b, received(fin_a->0), t);
    let (b1, ack_b) = b.on_segment(received(fin_a->0), t);
    fin_is_acked(a1, received(ack_b->0), t);
    let (a2, none_a) = a1.on_segment(received(ack_b->0), t);
    let (b2, fin_b) = b1.on_close();
    fin_reaches_fin_wait_2(a2, received(fin_b->0), t);
    let (a3, ack_a) = a2.on_segment(received(fin_b->0), t);
    last_ack_arrives(b2, received(ack_a->0), t);
}

/// The simultaneous close: both ends send their FIN before they see the other's, and both go through
/// CLOSING to TIME_WAIT.
pub proof fn two_ends_close_simultaneously(a: ConnView, b: ConnView, t: Nanos)
    requires
        are_quiet(a, b),
    ensures
        ({
            let (a1, fin_a) = a.on_close();
            let (b1, fin_b) = b.on_close();
            let (a2, ack_a) = a1.on_segment(received(fin_b->0), t);
            let (b2, ack_b) = b1.on_segment(received(fin_a->0), t);
            let (a3, none_a) = a2.on_segment(received(ack_b->0), t);
            let (b3, none_b) = b2.on_segment(received(ack_a->0), t);
            &&& fin_a is Some && fin_b is Some
            &&& a2.tcb.state == TcbState::Closing && b2.tcb.state == TcbState::Closing
            &&& ack_a is Some && ack_b is Some
            &&& a3.tcb.state == TcbState::TimeWait && b3.tcb.state == TcbState::TimeWait
            &&& none_a is None && none_b is None
        }),
{
    let (a1, fin_a) = a.on_close();
    let (b1, fin_b) = b.on_close();
    fins_cross(a1, received(fin_b->0), t);
    fins_cross(b1, received(fin_a->0), t);
    let (a2, ack_a) = a1.on_segment(received(fin_b->0), t);
    let (b2, ack_b) = b1.on_segment(received(fin_a->0), t);
    closing_is_acked(a2, received(ack_b->0), t);
    closing_is_acked(b2, received(ack_a->0), t);
}

/// A connection that entered TIME_WAIT at `since` is closed by the first tick that comes twice the
/// maximum segment lifetime later, and by none before. Until then it acknowledges the peer's FIN as
/// often as it comes.
pub proof fn time_wait_lasts_two_msl(
    c: ConnView,
    since: Nanos,
    at: Nanos,
    seg: SegmentView,
    now: Nanos,
)
    requires
        c.tcb.state == TcbState::TimeWait,
        c.time_wait_start == Some(since),
    ensures
        c.on_tick(at).tcb.state == TcbState::Closed <==> at >= since + TWO_MSL,
        at < since + TWO_MSL ==> c.on_tick(at) == c,
        seg.header.flags.fin ==> c.on_segment(seg, now) == (c, Some(c.ack_segment())),
{
}

/// Slow start: an acknowledgment of new data below the threshold opens the congestion window by what
/// it acknowledges, but at most by one segment.
pub proof fn slow_start_growth(c: ConnView, seg: SegmentView, now: Nanos)
    requires
        c.tcb.state == TcbState::Established,
        !seg.header.flags.rst,
        c.acks_new_data(seg),
        c.tcb.cwnd < c.tcb.ssthresh,
        c.tcb.cwnd + MSS <= u32::MAX,
    ensures
        ({
            let acked = distance(c.tcb.snd.una, seg.header.ack_num);
            c.on_segment(seg, now).0.tcb.cwnd == c.tcb.cwnd + if acked < MSS {
                acked
            } else {
                MSS as int
            }
        }),
{
}

/// Congestion avoidance: at or above the threshold the window opens by the square of a segment
/// divided by the window. That is less than a segment once the window is larger than one, and more
/// than nothing while the window is no larger than that square.
pub proof fn congestion_avoidance_growth(c: ConnView, seg: SegmentView, now: Nanos)
    requires
        c.tcb.state == TcbState::Established,
        !seg.header.flags.rst,
        c.acks_new_data(seg),
        c.tcb.cwnd >= c.tcb.ssthresh,
        MSS < c.tcb.cwnd <= MSS * MSS,
    ensures
        c.on_segment(seg, now).0.tcb.cwnd == c.tcb.cwnd + (MSS * MSS) / (c.tcb.cwnd as int),
        0 < c.on_segment(seg, now).0.tcb.cwnd - c.tcb.cwnd < MSS,
{
    let cwnd = c.tcb.cwnd as int;
    assert(0 < (MSS * MSS) / cwnd < MSS) by (nonlinear_arith)
        requires
            MSS < cwnd <= MSS * MSS,
            MSS == 1460,
    ;
}

/// The congestion window is never smaller than one segment, whatever happens.
pub proof fn cwnd_holds_one_segment(c: ConnView, seg: SegmentView, max_payload: nat, now: Nanos)
    requires
        c.tcb.cwnd >= MSS,
    ensures
        c.on_segment(seg, now).0.tcb.cwnd >= MSS,
        c.on_send(max_payload, now).0.tcb.cwnd >= MSS,
        c.on_timeout(now).0.tcb.cwnd >= MSS,
        c.on_connect().0.tcb.cwnd >= MSS,
        c.on_close().0.tcb.cwnd >= MSS,
        c.on_tick(now).tcb.cwnd >= MSS,
{
    let cwnd = c.tcb.cwnd as int;
    assert((MSS * MSS) / cwnd >= 0) by (nonlinear_arith)
        requires
            cwnd >= MSS,
            MSS == 1460,
    ;
}

/// Whether a segment is a bare acknowledgment of what was acknowledged before, with data in flight.
pub open spec fn is_bare_duplicate(c: ConnView, seg: SegmentView) -> bool {
    &&& c.is_duplicate_ack(seg)
    &&& !seg.header.flags.rst
    &&& !seg.header.flags.fin
    &&& seg.payload.len() == 0
}

/// Fast retransmit: the first two duplicate acknowledgments change nothing but their count. The
/// third one has the oldest segment in flight sent again at once, halves the congestion window and
/// enters fast recovery with three segments on top. Each one after that inflates the window by a
/// segment.
pub proof fn third_duplicate_resends(
    c: ConnView,
    seg: SegmentView,
    t1: Nanos,
    t2: Nanos,
    t3: Nanos,
    t4: Nanos,
)
    requires
        c.tcb.state == TcbState::Established,
        c.tcb.dup_ack_count == 0,
        is_bare_duplicate(c, seg),
        c.rtx.head() is Some,
    ensures
        ({
            let (c1, answer1) = c.on_segment(seg, t1);
            let (c2, answer2) = c1.on_segment(seg, t2);
            let (c3, answer3) = c2.on_segment(seg, t3);
            let (c4, answer4) = c3.on_segment(seg, t4);
            let (seq, payload) = c.rtx.head()->0;
            &&& answer1 is None && answer2 is None && answer4 is None
            &&& c2.tcb.cwnd == c.tcb.cwnd && c2.tcb.ssthresh == c.tcb.ssthresh
            &&& answer3 == Some(c3.data_segment(seq, payload))
            &&& c3.tcb.ssthresh == halved_cwnd(c.tcb.cwnd)
            &&& c3.tcb.cwnd == c3.tcb.ssthresh + 3 * MSS
            &&& c4.tcb.cwnd == c3.tcb.cwnd + MSS
            &&& c4.tcb.ssthresh == c3.tcb.ssthresh
        }),
{
    let c1 = c.on_segment(seg, t1).0;
    assert(c1 == c.congestion_acked(seg, t1));
    assert(c1.tcb.dup_ack_count == 1 && is_bare_duplicate(c1, seg));
    let c2 = c1.on_segment(seg, t2).0;
    assert(c2 == c1.congestion_acked(seg, t2));
    assert(c2.tcb.dup_ack_count == 2 && is_bare_duplicate(c2, seg));
    let c3 = c2.on_segment(seg, t3).0;
    assert(c3 == c2.congestion_acked(seg, t3));
    assert(c3.tcb.dup_ack_count == 3 && is_bare_duplicate(c3, seg));
}

/// Fast recovery ends with the next acknowledgment of new data: the count of duplicates starts over,
/// and the window grows as in congestion avoidance.
pub proof fn new_ack_ends_fast_recovery(c: ConnView, seg: SegmentView, now: Nanos)
    requires
        c.tcb.state == TcbState::Established,
        c.tcb.cwnd >= c.tcb.ssthresh,
        !seg.header.flags.rst,
        c.acks_new_data(seg),
    ensures
        c.on_segment(seg, now).0.tcb.dup_ack_count == 0,
        c.on_segment(seg, now).0.tcb.cwnd == grown_cwnd(
            c.tcb.cwnd,
            c.tcb.ssthresh,
            distance(c.tcb.snd.una, seg.header.ack_num),
        ),
        c.on_segment(seg, now).0.tcb.ssthresh == c.tcb.ssthresh,
{
}

/// A timeout sends every overdue segment again, under its number and with its bytes, and restarts
/// slow start: one segment of window, below a threshold of half the window there was. Without an
/// overdue segment nothing is sent and the window stays.
pub proof fn timeout_restarts_slow_start(c: ConnView, now: Nanos, i: int)
    ensures
        ({
            let (next, resent) = c.on_timeout(now);
            let expired = c.rtx.expired(now);
            &&& resent.len() == expired.len()
            &&& 0 <= i < expired.len() ==> resent[i] == next.data_segment(
                expired[i].0,
                expired[i].1,
            )
            &&& expired.len() > 0 ==> next.tcb.cwnd == MSS && next.tcb.ssthresh == halved_cwnd(
                c.tcb.cwnd,
            ) && next.tcb.cwnd < next.tcb.ssthresh
            &&& expired.len() == 0 ==> next.tcb == c.tcb
        }),
{
}

/// Whether the control block and the send buffer agree on what is in flight, and all of it is
/// buffered.
pub open spec fn in_step(c: ConnView) -> bool {
    &&& c.tcb.snd.una == c.send.una
    &&& c.tcb.snd.nxt == c.send.nxt
    &&& c.in_flight() <= c.send.data.len()
    &&& c.send.data.len() <= SEND_BUF_SIZE
}

/// An established connection stays in step with its send buffer: through every segment that leaves
/// it established, every write and every sending.
pub proof fn established_stays_in_step(
    c: ConnView,
    seg: SegmentView,
    bytes: Seq<u8>,
    max_payload: nat,
    now: Nanos,
)
    requires
        c.tcb.state == TcbState::Established,
        in_step(c),
    ensures
        c.on_segment(seg, now).0.tcb.state == TcbState::Established ==> in_step(
            c.on_segment(seg, now).0,
        ),
        in_step(ConnView { send: c.send.written(bytes), ..c }),
        in_step(c.on_send(max_payload, now).0),
        in_step(c.on_timeout(now).0),
{
    let next = c.on_segment(seg, now).0;
    if next.tcb.state == TcbState::Established {
        let acked = c.congestion_acked(seg, now);
        assert(next.tcb.snd == acked.tcb.snd && next.send == acked.send);
        if c.acks_new_data(seg) {
            ack_acceptable_range(c.tcb.snd.una, seg.header.ack_num, c.tcb.snd.nxt);
            let n = distance(c.tcb.snd.una, seg.header.ack_num);
            assert(distance(seg.header.ack_num, c.tcb.snd.nxt) == c.in_flight() - n);
            assert(acked.send.una == seg.header.ack_num);
        }
    }
    match c.send.next_segment(c.allowance(max_payload)) {
        Some((seq, payload)) => {
            let n = payload.len() as int;
            ahead_distance(c.tcb.snd.una, c.tcb.snd.nxt, c.in_flight() + n);
            ahead_ahead(c.tcb.snd.una, c.in_flight(), n);
        },
        None => {},
    }
}

/// No more is sent than both the congestion window and the peer's window allow, no segment is
/// larger than asked for, and while the peer offers no window nothing is sent.
pub proof fn sending_respects_the_windows(c: ConnView, max_payload: nat, now: Nanos)
    requires
        in_step(c),
    ensures
        c.on_send(max_payload, now).1 matches Some(segment) ==> {
            &&& 0 < segment.payload.len() <= max_payload
            &&& c.on_send(max_payload, now).0.in_flight() == c.in_flight() + segment.payload.len()
            &&& c.on_send(max_payload, now).0.in_flight() <= c.tcb.cwnd
            &&& c.on_send(max_payload, now).0.in_flight() <= c.tcb.snd.wnd
        },
        c.tcb.snd.wnd == 0 ==> c.on_send(max_payload, now) == (c, None::<SegmentFields>),
        c.on_send(max_payload, now).1 is None ==> c.on_send(max_payload, now).0 == c,
{
    match c.send.next_segment(c.allowance(max_payload)) {
        Some((seq, payload)) => {
            let n = payload.len() as int;
            ahead_distance(c.tcb.snd.una, c.tcb.snd.nxt, c.in_flight() + n);
            ahead_ahead(c.tcb.snd.una, c.in_flight(), n);
        },
        None => {},
    }
}

/// A closed window is probed exactly when an established connection has something left to send: by
/// the one byte that comes next, under its number.
pub proof fn probe_is_the_next_byte(c: ConnView)
    requires
        in_step(c),
    ensures
        c.probe() is Some <==> c.tcb.state == TcbState::Established && c.tcb.snd.wnd == 0
            && c.in_flight() < c.send.data.len(),
        c.probe() matches Some(segment) ==> {
            &&& segment.seq == c.tcb.snd.nxt
            &&& segment.payload == seq![c.send.data[c.in_flight()]]
        },
{
    if c.probe() is Some {
        assert((c.probe()->0).payload =~= seq![c.send.data[c.in_flight()]]);
    }
}

/// Whatever is sent for the first time is queued for retransmission under the same number with the
/// same bytes, unless the queue is full.
pub proof fn sent_data_is_queued(c: ConnView, max_payload: nat, now: Nanos)
    requires
        c.on_send(max_payload, now).1 is Some,
    ensures
        ({
            let (next, answer) = c.on_send(max_payload, now);
            let segment = answer->0;
            next.rtx == c.rtx.pushed(segment.seq, segment.payload, now)
        }),
{
}

/// A buffer that holds a stream so far also holds any continuation of it so far.
pub proof fn streams_may_grow(v: RecvView, irs: u32, stream: Seq<u8>, more: Seq<u8>, read: int)
    requires
        receives(v, irs, stream, read),
    ensures
        receives(v, irs, stream + more, read),
{
    let longer = stream + more;
    let missing = read + v.data.len();
    assert(longer.subrange(read, missing) =~= stream.subrange(read, missing));
    assert forall|key: u32| #[trigger] v.staged.contains_key(key) implies exists|at: int|
        missing < at < missing + 0x8000_0000 && #[trigger] carries(
            irs,
            longer,
            at,
            key,
            v.staged[key],
        ) by {
        let at = choose|at: int|
            missing < at < missing + 0x8000_0000 && #[trigger] carries(
                irs,
                stream,
                at,
                key,
                v.staged[key],
            );
        let n = v.staged[key].len();
        assert(longer.subrange(at, at + n) =~= stream.subrange(at, at + n));
        assert(carries(irs, longer, at, key, v.staged[key]));
    }
}

/// Reliable delivery, the receiving end: whatever part of the peer's stream a segment carries, new
/// or old, in order or not, an established connection goes on holding the stream's bytes in order,
/// and never fewer than before. Every answer acknowledges exactly what is held, until the peer's FIN
/// is.
pub proof fn established_receives_the_stream(
    c: ConnView,
    seg: SegmentView,
    irs: u32,
    stream: Seq<u8>,
    read: int,
    at: int,
    now: Nanos,
)
    requires
        c.tcb.state == TcbState::Established,
        c.recv is Some,
        receives(c.recv->0, irs, stream, read),
        c.tcb.rcv.nxt == (c.recv->0).nxt,
        carries(irs, stream, at, seg.header.seq, seg.payload),
        -0x8000_0000 < at - (read + (c.recv->0).data.len()) < 0x8000_0000,
    ensures
        ({
            let (next, answer) = c.on_segment(seg, now);
            let held = next.recv->0;
            &&& next.recv is Some
            &&& receives(held, irs, stream, read)
            &&& held.data.len() >= (c.recv->0).data.len()
            &&& !seg.header.flags.fin ==> next.tcb.rcv.nxt == ahead(
                irs,
                1 + read + held.data.len(),
            )
            &&& answer matches Some(segment) ==> segment.flags.ack && segment.ack_num
                == next.tcb.rcv.nxt
        }),
{
    insert_keeps_the_stream(c.recv->0, irs, stream, read, at, seg.header.seq, seg.payload);
}

/// Reliable delivery, the sending end: an acknowledgment that moves the left edge of the window to
/// the first `upto` bytes of the stream frees those bytes and keeps the rest.
pub proof fn established_sends_the_stream(
    c: ConnView,
    seg: SegmentView,
    iss: u32,
    stream: Seq<u8>,
    acked: int,
    sent: int,
    upto: int,
    now: Nanos,
)
    requires
        c.tcb.state == TcbState::Established,
        in_step(c),
        sends(c.send, iss, stream, acked, sent),
        !seg.header.flags.rst,
        seg.header.flags.ack,
        seg.header.ack_num == ahead(iss, 1 + upto),
        acked < upto <= sent,
    ensures
        ({
            let next = c.on_segment(seg, now).0;
            &&& sends(next.send, iss, stream, upto, sent)
            &&& next.tcb.snd.una == ahead(iss, 1 + upto)
        }),
{
    ahead_ahead(iss, 1 + acked, upto - acked);
    ahead_ahead(iss, 1 + acked, sent - acked);
    ahead_distance(c.send.una, c.send.nxt, upto - acked);
    ahead_distance(c.send.una, c.send.nxt, sent - acked);
    ack_acceptable_range(c.tcb.snd.una, seg.header.ack_num, c.tcb.snd.nxt);
    assert(c.acks_new_data(seg));
    acknowledgment_frees_what_arrived(c.send, iss, stream, acked, sent, upto - acked);
}

/// Whether `bytes` are some part of the stream, and `seq` is the number of the first of them.
pub open spec fn in_stream(iss: u32, stream: Seq<u8>, seq: u32, bytes: Seq<u8>) -> bool {
    exists|at: int| carries(iss, stream, at, seq, bytes)
}

/// Whether every segment in flight is a part of the stream under its number.
pub open spec fn flight_carries(entries: Seq<EntryView>, iss: u32, stream: Seq<u8>) -> bool {
    forall|i: int|
        0 <= i < entries.len() ==> in_stream(
            iss,
            stream,
            (#[trigger] entries[i]).seq,
            entries[i].data,
        )
}

/// What is picked out of a flight that carries the stream is part of the stream.
proof fn picked_from_flight(
    entries: Seq<EntryView>,
    iss: u32,
    stream: Seq<u8>,
    pred: spec_fn(EntryView) -> bool,
)
    requires
        flight_carries(entries, iss, stream),
    ensures
        flight_carries(entries.filter(pred), iss, stream),
{
    let kept = entries.filter(pred);
    assert forall|i: int| 0 <= i < kept.len() implies in_stream(
        iss,
        stream,
        (#[trigger] kept[i]).seq,
        kept[i].data,
    ) by {
        assert(kept.contains(kept[i]));
        entries.lemma_filter_contains_rev(pred, kept[i]);
        let j = choose|j: int| 0 <= j < entries.len() && entries[j] == kept[i];
        assert(in_stream(iss, stream, entries[j].seq, entries[j].data));
    }
}

/// Reliable delivery, what is sent again: every segment in flight stays a part of the stream under
/// its number, through sending, acknowledgments and timeouts. So does what goes out a second time,
/// whether a timeout or the third duplicate acknowledgment has it sent.
pub proof fn resent_data_is_the_stream(
    c: ConnView,
    seg: SegmentView,
    iss: u32,
    stream: Seq<u8>,
    acked: int,
    sent: int,
    max_payload: nat,
    now: Nanos,
    i: int,
)
    requires
        c.tcb.state == TcbState::Established,
        sends(c.send, iss, stream, acked, sent),
        flight_carries(c.rtx.entries, iss, stream),
    ensures
        flight_carries(c.on_send(max_payload, now).0.rtx.entries, iss, stream),
        flight_carries(c.on_segment(seg, now).0.rtx.entries, iss, stream),
        flight_carries(c.on_timeout(now).0.rtx.entries, iss, stream),
        0 <= i < c.on_timeout(now).1.len() ==> in_stream(
            iss,
            stream,
            c.on_timeout(now).1[i].seq,
            c.on_timeout(now).1[i].payload,
        ),
        c.on_segment(seg, now).1 matches Some(again) ==> again.payload.len() > 0 ==> in_stream(
            iss,
            stream,
            again.seq,
            again.payload,
        ),
{
    let entries = c.rtx.entries;
    segments_follow_the_stream(c.send, iss, stream, acked, sent, c.allowance(max_payload));
    match c.send.next_segment(c.allowance(max_payload)) {
        Some((seq, payload)) => {
            assert(carries(iss, stream, sent, seq, payload));
        },
        None => {},
    }
    picked_from_flight(
        entries,
        iss,
        stream,
        |e: EntryView| !e.acked(seg.header.ack_num),
    );
    let rto = c.rtx.rto;
    let late = entries.filter(|e: EntryView| e.age(now) >= rto);
    picked_from_flight(entries, iss, stream, |e: EntryView| e.age(now) >= rto);
    let resent = c.on_timeout(now).1;
    if 0 <= i < resent.len() {
        assert(resent[i].seq == late[i].seq && resent[i].payload == late[i].data);
    }
}

/// Reliable delivery, end to end: a data segment carries the sender's stream from the first unsent
/// byte on, and a receiver that is missing exactly that byte takes the segment, as far as its buffer
/// has room, unless the same segment is the third duplicate acknowledgment of its own data.
pub proof fn sent_data_is_delivered(
    a: ConnView,
    b: ConnView,
    iss: u32,
    stream: Seq<u8>,
    acked: int,
    sent: int,
    read: int,
    max_payload: nat,
    t1: Nanos,
    t2: Nanos,
)
    requires
        sends(a.send, iss, stream, acked, sent),
        a.on_send(max_payload, t1).1 is Some,
        b.tcb.state == TcbState::Established,
        b.recv is Some,
        receives(b.recv->0, iss, stream, read),
        b.tcb.rcv.nxt == (b.recv->0).nxt,
        read + (b.recv->0).data.len() == sent,
        !(b.is_duplicate_ack(received(a.on_send(max_payload, t1).1->0)) && b.tcb.dup_ack_count == 2
            && b.rtx.head() is Some),
    ensures
        ({
            let (a1, segment) = a.on_send(max_payload, t1);
            let data = segment->0;
            let (b1, answer) = b.on_segment(received(data), t2);
            let held = b1.recv->0;
            let upto = sent + data.payload.len();
            &&& sends(a1.send, iss, stream, acked, upto)
            &&& data.payload == stream.subrange(sent, upto)
            &&& receives(held, iss, stream, read)
            &&& read + held.data.len() >= if upto < read + SEND_BUF_SIZE {
                upto
            } else {
                read + SEND_BUF_SIZE
            }
            &&& answer is Some
            &&& (answer->0).flags.ack
            &&& (answer->0).ack_num == ahead(iss, 1 + read + held.data.len())
        }),
{
    segments_follow_the_stream(a.send, iss, stream, acked, sent, a.allowance(max_payload));
    let (a1, segment) = a.on_send(max_payload, t1);
    let data = segment->0;
    let seg = received(data);
    assert(carries(iss, stream, sent, seg.header.seq, seg.payload));
    established_receives_the_stream(b, seg, iss, stream, read, sent, t2);
    insert_keeps_the_stream(b.recv->0, iss, stream, read, sent, seg.header.seq, seg.payload);
    let b1 = b.on_segment(seg, t2).0;
    assert(b1.recv == Some((b.recv->0).inserted(seg.header.seq, seg.payload)));
}

} // verus!
