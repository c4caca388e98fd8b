//! What a connection and its peer can rely on, segment by segment: what an arriving segment changes,
//! and what a segment that is sent says.
use vstd::prelude::*;

use crate::clock::Nanos;
use crate::tcp::header::{SegmentFields, SegmentView, TcpFlags};
use crate::tcp::laws::{established_stays_in_step, in_step, sending_respects_the_windows};
use crate::tcp::recv_buffer::{insert_only_extends, RecvView};
use crate::tcp::retransmit::{
    acknowledgment_keeps_the_rest, overdue_segments_are_sent_again, EntryView,
};
use crate::tcp::tcb::{ack_acceptable_range, ahead, distance, fresh_tcb, Tcb, TcbState};
use crate::tcp::transitions::{fresh_connection, ConnView};

verus! {

/// Whether a segment acknowledges at least one byte that is in flight, and none that was never sent.
pub open spec fn covers_something_in_flight(c: ConnView, seg: SegmentView) -> bool {
    &&& seg.header.flags.ack
    &&& 0 < distance(c.tcb.snd.una, seg.header.ack_num) <= distance(
        c.tcb.snd.una,
        c.tcb.snd.nxt,
    )
}

/// Whether less than half the circle of sequence numbers is in flight.
pub open spec fn flight_is_short(c: ConnView) -> bool {
    distance(c.tcb.snd.una, c.tcb.snd.nxt) < 0x8000_0000
}

/// Whether the receive buffer, if there is one, is what a buffer can be: it stages finitely many
/// segments and holds no more than fits.
pub open spec fn buffer_is_sound(c: ConnView) -> bool {
    c.recv matches Some(recv) ==> recv.data.len() <= 65536 && recv.staged.dom().finite()
}

/// The buffer stays sound whatever arrives.
pub proof fn buffer_stays_sound(c: ConnView, seg: SegmentView, now: Nanos)
    requires
        buffer_is_sound(c),
    ensures
        buffer_is_sound(c.on_segment(seg, now).0),
{
    match c.recv {
        Some(recv) => {
            insert_only_extends(recv, seg.header.seq, seg.payload);
        },
        None => {},
    }
}

/// The free space of the receive buffer, as far as the window field can say it. A connection that
/// has not heard from its peer yet has all of it.
pub open spec fn free_space(c: ConnView) -> int {
    let held: int = match c.recv {
        Some(recv) => recv.data.len() as int,
        None => 0,
    };
    if 65536 - held < 65535 {
        65536 - held
    } else {
        65535
    }
}

/// Whether a segment goes from this end of the connection to the other.
pub open spec fn goes_to_the_peer(c: ConnView, s: SegmentFields) -> bool {
    &&& s.src_ip == c.tcb.local_ip
    &&& s.src_port == c.tcb.local_port
    &&& s.dst_ip == c.tcb.remote_ip
    &&& s.dst_port == c.tcb.remote_port
}

/// Whether a segment acknowledges everything that was received in order, and advertises the free
/// space.
pub open spec fn tells_what_was_received(c: ConnView, s: SegmentFields) -> bool {
    &&& s.flags.ack
    &&& s.ack_num == c.tcb.rcv.nxt
    &&& s.window == free_space(c)
}

/// Whether exactly these flags are set.
pub open spec fn has_flags(f: TcpFlags, syn: bool, ack: bool, psh: bool, fin: bool, rst: bool) -> bool {
    f.syn == syn && f.ack == ack && f.psh == psh && f.fin == fin && f.rst == rst && !f.urg
}

/// Whether a segment is data: it pushes, acknowledges what was received, and carries something.
pub open spec fn is_data(c: ConnView, s: SegmentFields) -> bool {
    &&& goes_to_the_peer(c, s)
    &&& tells_what_was_received(c, s)
    &&& has_flags(s.flags, false, true, true, false, false)
}

/// Flow control: an acknowledgment of new data carries the peer's window, and from then on that is
/// the window that holds. Nothing else moves it.
pub proof fn latest_acknowledgment_sets_the_window(c: ConnView, seg: SegmentView, now: Nanos)
    requires
        c.tcb.state == TcbState::Established || c.tcb.state == TcbState::FinWait1,
        flight_is_short(c),
        !seg.header.flags.rst,
    ensures
        covers_something_in_flight(c, seg) ==> {
            &&& c.on_segment(seg, now).0.tcb.snd.wnd == seg.header.window
            &&& c.on_segment(seg, now).0.tcb.snd.una == seg.header.ack_num
        },
        !covers_something_in_flight(c, seg) ==> {
            &&& c.on_segment(seg, now).0.tcb.snd.wnd == c.tcb.snd.wnd
            &&& c.on_segment(seg, now).0.tcb.snd.una == c.tcb.snd.una
        },
        c.on_segment(seg, now).0.tcb.snd.nxt == c.tcb.snd.nxt,
{
    ack_acceptable_range(c.tcb.snd.una, seg.header.ack_num, c.tcb.snd.nxt);
}

/// The segment that completes the handshake sets the first window and acknowledges our SYN.
pub proof fn handshake_sets_the_window(c: ConnView, seg: SegmentView, now: Nanos)
    requires
        c.tcb.state == TcbState::SynSent || c.tcb.state == TcbState::SynReceived,
    ensures
        ({
            let next = c.on_segment(seg, now).0;
            next.tcb.state == TcbState::Established ==> {
                &&& next.tcb.snd.wnd == seg.header.window
                &&& next.tcb.snd.una == seg.header.ack_num
                &&& next.tcb.snd.nxt == c.tcb.snd.nxt
                &&& next.send.nxt == c.send.nxt
                &&& next.send.data == c.send.data.skip(
                    if distance(c.send.una, seg.header.ack_num) <= c.send.data.len() {
                        distance(c.send.una, seg.header.ack_num)
                    } else {
                        0
                    },
                )
                &&& next.rtx == c.rtx
            }
        }),
{
    assert(c.send.data.skip(0) =~= c.send.data);
}

/// After an acknowledgment of new data nothing is sent past the window that came with it: what is in
/// flight after the next sending fits into that window.
#[verifier::spinoff_prover]
pub proof fn sending_keeps_to_the_latest_window(
    c: ConnView,
    seg: SegmentView,
    t1: Nanos,
    max_payload: nat,
    t2: Nanos,
)
    requires
        c.tcb.state == TcbState::Established,
        in_step(c),
        !seg.header.flags.rst,
        covers_something_in_flight(c, seg),
    ensures
        ({
            let heard = c.on_segment(seg, t1).0;
            let (sent, answer) = heard.on_send(max_payload, t2);
            &&& answer is Some ==> distance(sent.tcb.snd.una, sent.tcb.snd.nxt)
                <= seg.header.window
            &&& seg.header.window == 0 ==> answer is None
        }),
{
    let heard = c.on_segment(seg, t1).0;
    latest_acknowledgment_sets_the_window(c, seg, t1);
    if heard.tcb.state == TcbState::Established {
        established_stays_in_step(c, seg, Seq::empty(), max_payload, t1);
        sending_respects_the_windows(heard, max_payload, t2);
    } else {
        let middle = c.congestion_acked(seg, t1);
        assert(heard.send == middle.send && heard.tcb.snd == middle.tcb.snd);
        assert(in_step(heard)) by {
            ack_acceptable_range(c.tcb.snd.una, seg.header.ack_num, c.tcb.snd.nxt);
            let n = distance(c.tcb.snd.una, seg.header.ack_num);
            assert(distance(seg.header.ack_num, c.tcb.snd.nxt) == distance(
                c.tcb.snd.una,
                c.tcb.snd.nxt,
            ) - n);
        }
        sending_respects_the_windows(heard, max_payload, t2);
    }
}

/// Every data segment goes from this end to the other, pushes, acknowledges everything that was
/// received in order and advertises the free space: when it is sent for the first time, when a
/// timeout has it sent again, and when it probes a closed window.
pub proof fn data_segments_acknowledge(c: ConnView, max_payload: nat, now: Nanos, i: int)
    requires
        buffer_is_sound(c),
    ensures
        c.on_send(max_payload, now).1 matches Some(s) ==> is_data(c, s),
        0 <= i < c.on_timeout(now).1.len() ==> is_data(c, c.on_timeout(now).1[i]),
        c.probe() matches Some(s) ==> is_data(c, s),
{
}

/// Sending moves only what was sent: the sequence number to send next, by as many bytes as the
/// segment holds, and the queue of segments in flight.
pub proof fn sending_changes_nothing_else(c: ConnView, max_payload: nat, now: Nanos)
    ensures
        ({
            let (next, answer) = c.on_send(max_payload, now);
            &&& next.recv == c.recv
            &&& next.send.data == c.send.data
            &&& next.send.una == c.send.una
            &&& next.time_wait_start == c.time_wait_start
            &&& next.rtx.rto == c.rtx.rto
            &&& next.rtx.rtt == c.rtx.rtt
            &&& same_but_for_sending(c.tcb, next.tcb)
            &&& next.tcb.snd.una == c.tcb.snd.una
            &&& next.tcb.snd.wnd == c.tcb.snd.wnd
            &&& answer is None ==> next == c
            &&& answer matches Some(s) ==> {
                &&& s.seq == c.send.nxt
                &&& next.send.nxt == ahead(c.send.nxt, s.payload.len() as int)
                &&& next.tcb.snd.nxt == next.send.nxt
            }
        }),
{
}

/// Whether two control blocks differ at most in their send sequence.
pub open spec fn same_but_for_sending(a: Tcb, b: Tcb) -> bool {
    &&& same_ends(a, b)
    &&& a.state == b.state
    &&& a.rcv == b.rcv
    &&& a.cwnd == b.cwnd
    &&& a.ssthresh == b.ssthresh
    &&& a.dup_ack_count == b.dup_ack_count
}

/// Whether two control blocks are of the same connection: the same ends, and the same number to
/// count from.
pub open spec fn same_ends(a: Tcb, b: Tcb) -> bool {
    &&& a.local_ip == b.local_ip
    &&& a.local_port == b.local_port
    &&& a.remote_ip == b.remote_ip
    &&& a.remote_port == b.remote_port
    &&& a.snd.iss == b.snd.iss
}

/// A connection stays the same connection whatever happens to it.
pub proof fn ends_never_change(c: ConnView, seg: SegmentView, max_payload: nat, now: Nanos)
    ensures
        same_ends(c.tcb, c.on_segment(seg, now).0.tcb),
        same_ends(c.tcb, c.on_send(max_payload, now).0.tcb),
        same_ends(c.tcb, c.on_timeout(now).0.tcb),
        same_ends(c.tcb, c.on_connect().0.tcb),
        same_ends(c.tcb, c.on_close().0.tcb),
        same_ends(c.tcb, c.on_tick(now).tcb),
{
}

/// What an answer to an arriving segment says. It goes back to the peer. A reset has the number that
/// was acknowledged and acknowledges nothing; every other answer acknowledges what was received and
/// advertises the free space, as they are after the segment: a SYN-ACK under our initial number, a
/// bare acknowledgment under the number to send next, or data that is sent again.
#[verifier::spinoff_prover]
pub proof fn answers_say_what_was_received(c: ConnView, seg: SegmentView, now: Nanos)
    requires
        buffer_is_sound(c),
    ensures
        c.on_segment(seg, now).1 matches Some(s) ==> {
            let next = c.on_segment(seg, now).0;
            &&& goes_to_the_peer(c, s)
            &&& if s.flags.rst {
                &&& has_flags(s.flags, false, false, false, false, true)
                &&& s.seq == seg.header.ack_num
                &&& s.ack_num == 0
                &&& s.payload.len() == 0
                &&& next == c
            } else if s.flags.syn {
                &&& has_flags(s.flags, true, true, false, false, false)
                &&& s.seq == c.tcb.snd.iss
                &&& tells_what_was_received(next, s)
                &&& s.payload.len() == 0
            } else if s.flags.psh {
                &&& is_data(next, s)
                &&& c.tcb.state == TcbState::Established
                &&& c.rtx.entries.len() > 0
                &&& s.seq == c.rtx.entries[0].seq
                &&& s.payload == c.rtx.entries[0].data
            } else {
                &&& has_flags(s.flags, false, true, false, false, false)
                &&& s.seq == next.tcb.snd.nxt
                &&& tells_what_was_received(next, s)
                &&& s.payload.len() == 0
            }
        },
{
    buffer_stays_sound(c, seg, now);
}

/// When an arriving segment is answered, where it is neither a reset nor has to do with the
/// handshake: an established connection answers data and a FIN, the closing states answer a FIN.
pub proof fn what_arrives_is_acknowledged(c: ConnView, seg: SegmentView, now: Nanos)
    requires
        !seg.header.flags.rst,
    ensures
        c.tcb.state == TcbState::Established && (seg.payload.len() > 0 || seg.header.flags.fin)
            ==> c.on_segment(seg, now).1 is Some,
        (c.tcb.state == TcbState::FinWait1 || c.tcb.state == TcbState::FinWait2 || c.tcb.state
            == TcbState::TimeWait) ==> (c.on_segment(seg, now).1 is Some <==> seg.header.flags.fin),
        (c.tcb.state == TcbState::CloseWait || c.tcb.state == TcbState::Closing || c.tcb.state
            == TcbState::LastAck || c.tcb.state == TcbState::Closed) ==> c.on_segment(seg, now).1
            is None,
{
}

/// Our FIN goes under the number to send next and takes one number; the SYN of an active open goes
/// under the initial number and takes one.
pub proof fn control_segments_take_a_number(c: ConnView)
    requires
        buffer_is_sound(c),
    ensures
        ({
            let (next, answer) = c.on_close();
            let may_close = c.tcb.state == TcbState::Established || c.tcb.state
                == TcbState::CloseWait;
            &&& answer is Some <==> may_close
            &&& !may_close ==> next == c
            &&& answer matches Some(s) ==> {
                &&& goes_to_the_peer(c, s)
                &&& tells_what_was_received(c, s)
                &&& has_flags(s.flags, false, true, false, true, false)
                &&& s.seq == c.tcb.snd.nxt
                &&& s.payload.len() == 0
                &&& next.tcb.snd.nxt == ahead(c.tcb.snd.nxt, 1)
                &&& next.tcb.snd.una == c.tcb.snd.una
                &&& next.tcb.snd.wnd == c.tcb.snd.wnd
                &&& next.tcb.state == if c.tcb.state == TcbState::Established {
                    TcbState::FinWait1
                } else {
                    TcbState::LastAck
                }
                &&& next.send == c.send && next.recv == c.recv && next.rtx == c.rtx
                &&& next.tcb.rcv == c.tcb.rcv && next.tcb.cwnd == c.tcb.cwnd
            }
        }),
        ({
            let (next, answer) = c.on_connect();
            &&& answer is Some <==> c.tcb.state == TcbState::Closed
            &&& c.tcb.state != TcbState::Closed ==> next == c
            &&& answer matches Some(s) ==> {
                &&& goes_to_the_peer(c, s)
                &&& has_flags(s.flags, true, false, false, false, false)
                &&& s.seq == c.tcb.snd.iss
                &&& s.ack_num == 0
                &&& s.window == free_space(c)
                &&& s.payload.len() == 0
                &&& next.tcb.snd.nxt == ahead(c.tcb.snd.iss, 1)
                &&& next.tcb.state == TcbState::SynSent
                &&& next.send == c.send && next.recv == c.recv && next.rtx == c.rtx
            }
        }),
{
}

/// Our FIN is acknowledged by exactly one number, the one to send next: however much data lies in
/// front of the FIN, an acknowledgment of less leaves the connection where it is, or in CLOSING when
/// the peer's FIN comes with it.
pub proof fn only_its_acknowledgment_ends_the_fin(c: ConnView, seg: SegmentView, now: Nanos)
    requires
        c.tcb.state == TcbState::FinWait1,
        0 < distance(c.tcb.snd.una, c.tcb.snd.nxt),
        flight_is_short(c),
        !seg.header.flags.rst,
    ensures
        ({
            let state = c.on_segment(seg, now).0.tcb.state;
            let all = seg.header.flags.ack && seg.header.ack_num == c.tcb.snd.nxt;
            &&& state == TcbState::FinWait2 <==> all && !seg.header.flags.fin
            &&& state == TcbState::TimeWait <==> all && seg.header.flags.fin
            &&& state == TcbState::Closing <==> !all && seg.header.flags.fin
            &&& state == TcbState::FinWait1 <==> !all && !seg.header.flags.fin
        }),
{
    ack_acceptable_range(c.tcb.snd.una, seg.header.ack_num, c.tcb.snd.nxt);
}

/// When the other states are left. In each, a segment that is no reset moves the connection on
/// exactly when it says what the state waits for.
#[verifier::spinoff_prover]
pub proof fn states_wait_for_their_segment(c: ConnView, seg: SegmentView, now: Nanos)
    requires
        flight_is_short(c),
        !seg.header.flags.rst,
    ensures
        ({
            let state = c.on_segment(seg, now).0.tcb.state;
            let f = seg.header.flags;
            let covers = covers_something_in_flight(c, seg);
            match c.tcb.state {
                TcbState::Listen => state == if f.syn && !f.ack {
                    TcbState::SynReceived
                } else {
                    TcbState::Listen
                },
                TcbState::SynSent => state == if f.syn && covers {
                    TcbState::Established
                } else if f.syn && !f.ack {
                    TcbState::SynReceived
                } else {
                    TcbState::SynSent
                },
                TcbState::SynReceived => state == if covers && !(f.syn && !f.ack) {
                    TcbState::Established
                } else {
                    TcbState::SynReceived
                },
                TcbState::CloseWait => state == TcbState::CloseWait,
                TcbState::FinWait2 => state == if f.fin {
                    TcbState::TimeWait
                } else {
                    TcbState::FinWait2
                },
                TcbState::Closing => state == if covers {
                    TcbState::TimeWait
                } else {
                    TcbState::Closing
                },
                TcbState::LastAck => state == if covers {
                    TcbState::Closed
                } else {
                    TcbState::LastAck
                },
                TcbState::TimeWait => state == TcbState::TimeWait,
                TcbState::Closed => state == TcbState::Closed,
                TcbState::Established => f.fin && c.rtx.entries.len() == 0 ==> state
                    == TcbState::CloseWait,
                TcbState::FinWait1 => true,
            }
        }),
        c.tcb.state == TcbState::Established && !seg.header.flags.fin ==> c.on_segment(
            seg,
            now,
        ).0.tcb.state == TcbState::Established,
{
    ack_acceptable_range(c.tcb.snd.una, seg.header.ack_num, c.tcb.snd.nxt);
}

/// TIME_WAIT is entered with the moment of the segment that led there, and nothing sets the moment
/// anew.
pub proof fn time_wait_starts_with_its_segment(c: ConnView, seg: SegmentView, now: Nanos)
    ensures
        ({
            let next = c.on_segment(seg, now).0;
            &&& next.tcb.state == TcbState::TimeWait && c.tcb.state != TcbState::TimeWait
                ==> next.time_wait_start == Some(now)
            &&& next.tcb.state != TcbState::TimeWait || c.tcb.state == TcbState::TimeWait
                ==> next.time_wait_start == c.time_wait_start
        }),
{
}

/// The peer's SYN is where the receiving side starts: a fresh buffer behind its number.
pub proof fn syn_starts_the_receiving_side(c: ConnView, seg: SegmentView, now: Nanos)
    ensures
        ({
            let next = c.on_segment(seg, now).0;
            let starts = (c.tcb.state == TcbState::Listen && next.tcb.state
                == TcbState::SynReceived) || (c.tcb.state == TcbState::SynSent && (next.tcb.state
                == TcbState::SynReceived || next.tcb.state == TcbState::Established));
            &&& starts ==> {
                &&& next.tcb.rcv.irs == seg.header.seq
                &&& next.tcb.rcv.nxt == ahead(seg.header.seq, 1)
                &&& next.recv == Some(
                    RecvView {
                        nxt: ahead(seg.header.seq, 1),
                        data: Seq::empty(),
                        staged: Map::empty(),
                    },
                )
            }
            &&& !starts ==> next.tcb.rcv.irs == c.tcb.rcv.irs
            &&& c.tcb.state == TcbState::Listen && starts ==> next.tcb.snd.nxt == ahead(
                c.tcb.snd.iss,
                1,
            )
        }),
{
}

/// What the receiving side expects next moves with what arrives in order, and past the peer's FIN by
/// one. Without data or a FIN it stays.
#[verifier::spinoff_prover]
pub proof fn expectations_follow_what_arrives(c: ConnView, seg: SegmentView, now: Nanos)
    requires
        !seg.header.flags.rst,
        !seg.header.flags.syn,
    ensures
        ({
            let (next, answer) = c.on_segment(seg, now);
            let fin_counts = seg.header.flags.fin && match c.tcb.state {
                TcbState::Established => next.tcb.state == TcbState::CloseWait,
                TcbState::FinWait1 => true,
                TcbState::FinWait2 => true,
                _ => false,
            };
            &&& fin_counts ==> next.tcb.rcv.nxt == ahead(
                seg.header.seq,
                seg.payload.len() as int + 1,
            )
            &&& !fin_counts && c.tcb.state != TcbState::Established ==> next.tcb.rcv == c.tcb.rcv
                && next.recv == c.recv
            &&& !fin_counts && seg.payload.len() == 0 ==> next.tcb.rcv == c.tcb.rcv && next.recv
                == c.recv
            &&& next.tcb.rcv.wnd == c.tcb.rcv.wnd && next.tcb.rcv.irs == c.tcb.rcv.irs
            &&& !fin_counts && c.tcb.state == TcbState::Established && next.recv != c.recv
                ==> next.tcb.rcv.nxt == (next.recv->0).nxt
        }),
{
}

/// A segment that acknowledges nothing new leaves the sending side alone: nothing is freed, nothing
/// leaves the queue, and the timeout stays.
pub proof fn only_acknowledgments_touch_the_sending_side(
    c: ConnView,
    seg: SegmentView,
    now: Nanos,
)
    requires
        flight_is_short(c),
        !covers_something_in_flight(c, seg) || seg.header.flags.rst,
    ensures
        c.on_segment(seg, now).0.send == c.send,
        c.on_segment(seg, now).0.rtx == c.rtx,
        c.on_segment(seg, now).0.tcb.snd.una == c.tcb.snd.una,
        c.on_segment(seg, now).0.tcb.snd.wnd == c.tcb.snd.wnd,
{
    ack_acceptable_range(c.tcb.snd.una, seg.header.ack_num, c.tcb.snd.nxt);
}

/// Congestion control acts in ESTABLISHED only, and there on acknowledgments only.
pub proof fn congestion_control_listens_to_acknowledgments(
    c: ConnView,
    seg: SegmentView,
    now: Nanos,
)
    requires
        c.tcb.state != TcbState::Established || seg.header.flags.rst || !seg.header.flags.ack,
    ensures
        c.on_segment(seg, now).0.tcb.cwnd == c.tcb.cwnd,
        c.on_segment(seg, now).0.tcb.ssthresh == c.tcb.ssthresh,
        c.on_segment(seg, now).0.tcb.dup_ack_count == c.tcb.dup_ack_count,
{
}

/// Whether a segment acknowledges again what was acknowledged before, with data in flight.
pub open spec fn repeats_an_acknowledgment(c: ConnView, seg: SegmentView) -> bool {
    &&& seg.header.flags.ack
    &&& seg.header.ack_num == c.tcb.snd.una
    &&& c.tcb.snd.una != c.tcb.snd.nxt
}

/// Half of a window, but at least two segments of 1460 bytes.
pub open spec fn half_or_two_segments(cwnd: u32) -> int {
    if cwnd as int / 2 > 2920 {
        cwnd as int / 2
    } else {
        2920
    }
}

/// What congestion control makes of a segment in ESTABLISHED that is no reset. New data acknowledged
/// opens the window, below the threshold by what was acknowledged but at most a segment, from it on
/// by the square of a segment over the window. A repeated acknowledgment is counted; the third halves
/// the window and lets three more segments out, and each further one lets out one more.
#[verifier::spinoff_prover]
pub proof fn congestion_window_moves(c: ConnView, seg: SegmentView, now: Nanos)
    requires
        c.tcb.state == TcbState::Established,
        !seg.header.flags.rst,
        flight_is_short(c),
        c.tcb.cwnd + 1460 * 1460 <= u32::MAX,
        c.tcb.cwnd > 0,
        c.tcb.dup_ack_count < 255,
    ensures
        ({
            let next = c.on_segment(seg, now).0.tcb;
            let acked = distance(c.tcb.snd.una, seg.header.ack_num);
            let count = c.tcb.dup_ack_count as int + 1;
            if covers_something_in_flight(c, seg) {
                &&& next.dup_ack_count == 0
                &&& next.ssthresh == c.tcb.ssthresh
                &&& c.tcb.cwnd < c.tcb.ssthresh ==> next.cwnd == c.tcb.cwnd + if acked < 1460 {
                    acked
                } else {
                    1460
                }
                &&& c.tcb.cwnd >= c.tcb.ssthresh ==> next.cwnd == c.tcb.cwnd + 2131600int / (
                c.tcb.cwnd as int)
            } else if repeats_an_acknowledgment(c, seg) {
                &&& next.dup_ack_count == count
                &&& count < 3 ==> next.cwnd == c.tcb.cwnd && next.ssthresh == c.tcb.ssthresh
                &&& count == 3 ==> next.ssthresh == half_or_two_segments(c.tcb.cwnd) && next.cwnd
                    == half_or_two_segments(c.tcb.cwnd) + 4380
                &&& count > 3 ==> next.cwnd == c.tcb.cwnd + 1460 && next.ssthresh
                    == c.tcb.ssthresh
            } else {
                next.cwnd == c.tcb.cwnd && next.ssthresh == c.tcb.ssthresh && next.dup_ack_count
                    == c.tcb.dup_ack_count
            }
        }),
{
    ack_acceptable_range(c.tcb.snd.una, seg.header.ack_num, c.tcb.snd.nxt);
    let cwnd = c.tcb.cwnd as int;
    assert(0 <= 2131600int / cwnd <= 2131600) by (nonlinear_arith)
        requires
            cwnd > 0,
    ;
}

/// The third repeated acknowledgment has the oldest segment in flight sent again at once; no other
/// one has data sent.
pub proof fn third_repetition_resends(c: ConnView, seg: SegmentView, now: Nanos)
    requires
        c.tcb.state == TcbState::Established,
        !seg.header.flags.rst,
        flight_is_short(c),
    ensures
        ({
            let answer = c.on_segment(seg, now).1;
            let third = repeats_an_acknowledgment(c, seg) && c.tcb.dup_ack_count == 2
                && c.rtx.entries.len() > 0;
            &&& third ==> (answer matches Some(s) && s.seq == c.rtx.entries[0].seq && s.payload
                == c.rtx.entries[0].data && s.flags.psh)
            &&& !third ==> (answer matches Some(s) ==> !s.flags.psh && s.payload.len() == 0)
        }),
{
    ack_acceptable_range(c.tcb.snd.una, seg.header.ack_num, c.tcb.snd.nxt);
}

/// A timeout with anything overdue leaves a window of one segment, and a threshold of half the window
/// there was; without, everything stays. Nothing else of the connection changes.
pub proof fn timeout_closes_the_window(c: ConnView, now: Nanos)
    ensures
        ({
            let (next, resent) = c.on_timeout(now);
            let any = exists|i: int|
                0 <= i < c.rtx.entries.len() && (#[trigger] c.rtx.entries[i]).sent_at + c.rtx.rto
                    <= now;
            &&& any ==> next.tcb.cwnd == 1460 && next.tcb.ssthresh == half_or_two_segments(
                c.tcb.cwnd,
            )
            &&& c.rtx.rto > 0 && !any ==> next.tcb.cwnd == c.tcb.cwnd && next.tcb.ssthresh
                == c.tcb.ssthresh && resent.len() == 0
            &&& next.tcb.snd == c.tcb.snd && next.tcb.rcv == c.tcb.rcv
            &&& next.tcb.state == c.tcb.state && next.tcb.dup_ack_count == c.tcb.dup_ack_count
            &&& next.send == c.send && next.recv == c.recv
            &&& next.time_wait_start == c.time_wait_start
            &&& next.rtx.entries.len() == c.rtx.entries.len()
        }),
{
    let any = exists|i: int|
        0 <= i < c.rtx.entries.len() && (#[trigger] c.rtx.entries[i]).sent_at + c.rtx.rto <= now;
    if any {
        let i = choose|i: int|
            0 <= i < c.rtx.entries.len() && (#[trigger] c.rtx.entries[i]).sent_at + c.rtx.rto
                <= now;
        overdue_segments_are_sent_again(c.rtx, now, i);
    }
    if c.rtx.rto > 0 && c.rtx.expired(now).len() > 0 {
        overdue_segments_are_sent_again(c.rtx, now, 0);
    }
}

/// A tick in TIME_WAIT changes the state and nothing else.
pub proof fn ticks_change_the_state_only(c: ConnView, now: Nanos)
    ensures
        ({
            let next = c.on_tick(now);
            let over = c.tcb.state == TcbState::TimeWait && (c.time_wait_start matches Some(start)
                && start + 60_000_000_000 <= now);
            &&& !over ==> next == c
            &&& over ==> next == (ConnView {
                tcb: Tcb { state: TcbState::Closed, ..c.tcb },
                ..c
            })
        }),
{
}

/// Data that continues what was received can be read at once, as far as the buffer has room, with a
/// FIN or without, unless the segment is the third repeated acknowledgment of our own data.
#[verifier::spinoff_prover]
pub proof fn in_order_data_is_readable(c: ConnView, seg: SegmentView, now: Nanos)
    requires
        c.tcb.state == TcbState::Established,
        !seg.header.flags.rst,
        buffer_is_sound(c),
        c.recv is Some,
        seg.header.seq == (c.recv->0).nxt,
        !(repeats_an_acknowledgment(c, seg) && c.tcb.dup_ack_count == 2 && c.rtx.entries.len() > 0),
        flight_is_short(c),
    ensures
        ({
            let before = c.recv->0;
            let after = c.on_segment(seg, now).0.recv->0;
            let room = 65536 - before.data.len();
            let n = if seg.payload.len() < room {
                seg.payload.len() as int
            } else {
                room
            };
            &&& c.on_segment(seg, now).0.recv is Some
            &&& after.data.len() >= before.data.len() + n
            &&& after.data.take(before.data.len() + n) == before.data + seg.payload.take(n)
        }),
{
    ack_acceptable_range(c.tcb.snd.una, seg.header.ack_num, c.tcb.snd.nxt);
    let before = c.recv->0;
    let after = c.on_segment(seg, now).0.recv->0;
    insert_only_extends(before, seg.header.seq, seg.payload);
    let room = 65536 - before.data.len();
    let n = if seg.payload.len() < room {
        seg.payload.len() as int
    } else {
        room
    };
    if seg.payload.len() > 0 {
        assert(seg.payload.skip(0) =~= seg.payload);
        let taken = before.committed(seg.payload);
        assert(taken.data =~= before.data + seg.payload.take(n));
        assert(after == before.inserted(seg.header.seq, seg.payload));
        assert(after.data.take(taken.data.len() as int) == taken.data);
    } else {
        assert(after.data.take(before.data.len() as int) =~= before.data + seg.payload.take(0));
    }
}

/// An acknowledgment of new data takes the acknowledged bytes off the front of the send buffer and
/// the segments that it covers out of the queue, in ESTABLISHED and in FIN_WAIT_1.
pub proof fn acknowledged_data_is_let_go(
    c: ConnView,
    seg: SegmentView,
    now: Nanos,
    e: EntryView,
)
    requires
        c.tcb.state == TcbState::Established || c.tcb.state == TcbState::FinWait1,
        !seg.header.flags.rst,
        flight_is_short(c),
        covers_something_in_flight(c, seg),
    ensures
        ({
            let next = c.on_segment(seg, now).0;
            let n = distance(c.send.una, seg.header.ack_num);
            &&& n <= c.send.data.len() ==> next.send.data == c.send.data.skip(n) && next.send.una
                == seg.header.ack_num
            &&& n > c.send.data.len() ==> next.send == c.send
            &&& next.send.nxt == c.send.nxt
            &&& next.rtx.entries.contains(e) <==> c.rtx.entries.contains(e) && !(distance(
                ahead(e.seq, e.data.len() as int),
                seg.header.ack_num,
            ) < 0x8000_0000)
        }),
{
    ack_acceptable_range(c.tcb.snd.una, seg.header.ack_num, c.tcb.snd.nxt);
    acknowledgment_keeps_the_rest(c.rtx, seg.header.ack_num, now, e);
}

/// A connection starts with nothing sent and nothing received, one segment of congestion window, a
/// threshold and windows as large as the field can say, and a timeout of one second.
pub proof fn connections_start_from_nothing(
    state: TcbState,
    local_ip: [u8; 4],
    local_port: u16,
    remote_ip: [u8; 4],
    remote_port: u16,
    iss: u32,
)
    ensures
        ({
            let tcb = fresh_tcb(state, local_ip, local_port, remote_ip, remote_port, iss);
            let c = fresh_connection(tcb);
            &&& c.tcb == tcb
            &&& tcb.state == state
            &&& tcb.local_ip == local_ip && tcb.local_port == local_port
            &&& tcb.remote_ip == remote_ip && tcb.remote_port == remote_port
            &&& tcb.snd.iss == iss && tcb.snd.una == iss && tcb.snd.nxt == iss
            &&& tcb.snd.wnd == 65535 && tcb.rcv.wnd == 65535
            &&& tcb.cwnd == 1460 && tcb.ssthresh == 65535 && tcb.dup_ack_count == 0
            &&& c.send.una == ahead(iss, 1) && c.send.nxt == ahead(iss, 1)
            &&& c.send.data.len() == 0
            &&& c.recv is None
            &&& c.rtx.entries.len() == 0 && c.rtx.rto == 1_000_000_000 && c.rtx.rtt.srtt is None
            &&& c.time_wait_start is None
        }),
{
}


/// What the states before ESTABLISHED answer, to a segment that is no reset. A listening connection
/// answers a SYN with a SYN-ACK and an acknowledgment with a reset. One that has sent its SYN answers
/// the SYN of the peer, with an acknowledgment when its own is acknowledged and with a SYN-ACK when it
/// is alone, and resets what acknowledges something else. One that has sent its SYN-ACK sends it again
/// when the same SYN comes again, and resets what acknowledges something else.
#[verifier::spinoff_prover]
pub proof fn handshake_answers(c: ConnView, seg: SegmentView, now: Nanos)
    requires
        !seg.header.flags.rst,
        flight_is_short(c),
    ensures
        ({
            let answer = c.on_segment(seg, now).1;
            let f = seg.header.flags;
            let covers = covers_something_in_flight(c, seg);
            match c.tcb.state {
                TcbState::Listen => {
                    &&& f.ack ==> (answer matches Some(s) && s.flags.rst)
                    &&& !f.ack && f.syn ==> (answer matches Some(s) && s.flags.syn && s.flags.ack
                        && s.ack_num == ahead(seg.header.seq, 1))
                    &&& !f.ack && !f.syn ==> answer is None
                },
                TcbState::SynSent => {
                    &&& !f.syn ==> answer is None
                    &&& f.syn && covers ==> (answer matches Some(s) && !s.flags.syn && s.flags.ack
                        && !s.flags.rst && s.ack_num == ahead(seg.header.seq, 1))
                    &&& f.syn && !f.ack ==> (answer matches Some(s) && s.flags.syn && s.flags.ack
                        && s.ack_num == ahead(seg.header.seq, 1))
                    &&& f.syn && f.ack && !covers ==> (answer matches Some(s) && s.flags.rst)
                },
                TcbState::SynReceived => {
                    &&& f.syn && !f.ack && seg.header.seq == c.tcb.rcv.irs ==> (
                    answer matches Some(s) && s.flags.syn && s.flags.ack && s.ack_num
                        == c.tcb.rcv.nxt)
                    &&& !f.ack && !(f.syn && seg.header.seq == c.tcb.rcv.irs) ==> answer is None
                    &&& covers ==> answer is None
                    &&& f.ack && !covers ==> (answer matches Some(s) && s.flags.rst)
                },
                _ => true,
            }
        }),
{
    ack_acceptable_range(c.tcb.snd.una, seg.header.ack_num, c.tcb.snd.nxt);
}

/// A reset changes the state and nothing else.
pub proof fn resets_change_the_state_only(c: ConnView, seg: SegmentView, now: Nanos)
    requires
        seg.header.flags.rst,
    ensures
        ({
            let next = c.on_segment(seg, now).0;
            next == (ConnView { tcb: Tcb { state: next.tcb.state, ..c.tcb }, ..c })
        }),
{
}

/// The acknowledgment that CLOSING and LAST_ACK wait for moves the left edge of what is in flight, and
/// nothing else of the sending side.
pub proof fn last_acknowledgments_count(c: ConnView, seg: SegmentView, now: Nanos)
    requires
        c.tcb.state == TcbState::Closing || c.tcb.state == TcbState::LastAck,
        !seg.header.flags.rst,
        flight_is_short(c),
        covers_something_in_flight(c, seg),
    ensures
        ({
            let next = c.on_segment(seg, now).0;
            &&& next.tcb.snd.una == seg.header.ack_num
            &&& next.tcb.snd.wnd == c.tcb.snd.wnd
            &&& next.tcb.snd.nxt == c.tcb.snd.nxt
            &&& next.send == c.send && next.rtx == c.rtx
            &&& next.recv == c.recv && next.tcb.rcv == c.tcb.rcv
        }),
{
    ack_acceptable_range(c.tcb.snd.una, seg.header.ack_num, c.tcb.snd.nxt);
}

/// As much is sent as may be: a segment holds all that is asked for, all that the windows leave open or
/// all that is left to send, whichever is least, and there is none only where that is nothing.
#[verifier::spinoff_prover]
pub proof fn segments_are_as_large_as_allowed(c: ConnView, max_payload: nat, now: Nanos)
    requires
        in_step(c),
    ensures
        ({
            let flight = distance(c.tcb.snd.una, c.tcb.snd.nxt);
            let open = (if c.tcb.cwnd < c.tcb.snd.wnd {
                c.tcb.cwnd as int
            } else {
                c.tcb.snd.wnd as int
            }) - flight;
            let unsent = c.send.data.len() - flight;
            let answer = c.on_send(max_payload, now).1;
            &&& answer is None <==> max_payload == 0 || open <= 0 || unsent <= 0
            &&& answer matches Some(s) ==> {
                let n = s.payload.len() as int;
                &&& n <= max_payload && n <= open && n <= unsent
                &&& n == max_payload || n == open || n == unsent
                &&& s.payload == c.send.data.subrange(flight, flight + n)
            }
        }),
{
}

/// The peer's window in its SYN is noted, and an active open leaves the other numbers alone.
pub proof fn syn_notes_the_window(c: ConnView, seg: SegmentView, now: Nanos)
    ensures
        ({
            let next = c.on_segment(seg, now).0;
            (c.tcb.state == TcbState::Listen || c.tcb.state == TcbState::SynSent)
                && next.tcb.state != c.tcb.state && next.tcb.state != TcbState::Closed
                ==> next.tcb.rcv.wnd == seg.header.window
        }),
        c.on_connect().0.tcb.snd.una == c.tcb.snd.una,
        c.on_connect().0.tcb.snd.wnd == c.tcb.snd.wnd,
        c.on_connect().0.tcb.rcv == c.tcb.rcv,
        c.on_connect().0.tcb.cwnd == c.tcb.cwnd,
        c.on_connect().0.tcb.ssthresh == c.tcb.ssthresh,
        c.on_connect().0.time_wait_start == c.time_wait_start,
        c.on_close().0.tcb.ssthresh == c.tcb.ssthresh,
        c.on_close().0.tcb.dup_ack_count == c.tcb.dup_ack_count,
        c.on_close().0.time_wait_start == c.time_wait_start,
{
}


/// At the ends of their ranges the window and the count of repetitions stop and do not start over.
#[verifier::spinoff_prover]
pub proof fn counters_do_not_start_over(c: ConnView, seg: SegmentView, now: Nanos)
    requires
        c.tcb.state == TcbState::Established,
        !seg.header.flags.rst,
        flight_is_short(c),
        c.tcb.cwnd > 0,
    ensures
        ({
            let next = c.on_segment(seg, now).0.tcb;
            &&& covers_something_in_flight(c, seg) ==> next.cwnd >= c.tcb.cwnd
            &&& repeats_an_acknowledgment(c, seg) && c.tcb.dup_ack_count >= 3 ==> next.cwnd
                >= c.tcb.cwnd && next.dup_ack_count >= c.tcb.dup_ack_count
            &&& c.tcb.cwnd == u32::MAX && covers_something_in_flight(c, seg) ==> next.cwnd
                == u32::MAX
            &&& repeats_an_acknowledgment(c, seg) && c.tcb.dup_ack_count == 255
                ==> next.dup_ack_count == 255
        }),
{
    ack_acceptable_range(c.tcb.snd.una, seg.header.ack_num, c.tcb.snd.nxt);
    let cwnd = c.tcb.cwnd as int;
    assert(0 <= 2131600int / cwnd) by (nonlinear_arith)
        requires
            cwnd > 0,
    ;
}


} // verus!
