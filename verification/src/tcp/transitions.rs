//! What a connection does, as functions from its state to its next state and what it sends.
use vstd::prelude::*;

use crate::clock::{Nanos, NANOS_PER_SEC};
use crate::tcp::header::{no_flags, SegmentFields, SegmentView, TcpFlags, RECV_WINDOW};
use crate::tcp::recv_buffer::RecvView;
use crate::tcp::retransmit::{RetransmitView, MSS};
use crate::tcp::send_buffer::SendView;
use crate::tcp::tcb::{
    ack_acceptable, ahead, distance, seq_le, RecvSequence, SendSequence, Tcb, TcbState,
};

verus! {

/// How long a closed connection waits for stray segments: twice the maximum segment lifetime.
pub const TWO_MSL: Nanos = 60 * NANOS_PER_SEC;

/// A connection: its control block, its buffers (the receive buffer from the peer's SYN on), the
/// segments in flight and, in TIME_WAIT, since when.
#[verifier::ext_equal]
pub ghost struct ConnView {
    pub tcb: Tcb,
    pub send: SendView,
    pub recv: Option<RecvView>,
    pub rtx: RetransmitView,
    pub time_wait_start: Option<Nanos>,
}

/// The congestion window after an acknowledgment of `bytes_acked` new bytes: slow start below
/// `ssthresh`, congestion avoidance from there on.
pub open spec fn grown_cwnd(cwnd: u32, ssthresh: u32, bytes_acked: int) -> u32 {
    let growth = if cwnd < ssthresh {
        if bytes_acked < MSS {
            bytes_acked
        } else {
            MSS as int
        }
    } else {
        (MSS * MSS) / (cwnd as int)
    };
    if cwnd + growth <= u32::MAX {
        (cwnd + growth) as u32
    } else {
        u32::MAX
    }
}

/// The slow start threshold after a loss: half the congestion window, and at least two segments.
pub open spec fn halved_cwnd(cwnd: u32) -> u32 {
    if cwnd / 2 > 2 * MSS {
        cwnd / 2
    } else {
        (2 * MSS) as u32
    }
}

pub open spec fn ack_flags() -> TcpFlags {
    TcpFlags { ack: true, ..no_flags() }
}

pub open spec fn data_flags() -> TcpFlags {
    TcpFlags { ack: true, psh: true, ..no_flags() }
}

pub open spec fn syn_flags() -> TcpFlags {
    TcpFlags { syn: true, ..no_flags() }
}

pub open spec fn syn_ack_flags() -> TcpFlags {
    TcpFlags { syn: true, ack: true, ..no_flags() }
}

pub open spec fn fin_ack_flags() -> TcpFlags {
    TcpFlags { fin: true, ack: true, ..no_flags() }
}

pub open spec fn rst_flags() -> TcpFlags {
    TcpFlags { rst: true, ..no_flags() }
}

/// A connection that has exchanged nothing yet.
pub open spec fn fresh_connection(tcb: Tcb) -> ConnView {
    ConnView {
        tcb,
        send: SendView::fresh(tcb.snd.iss),
        recv: None,
        rtx: RetransmitView::fresh(),
        time_wait_start: None,
    }
}

/// Whether the congestion window can be computed with: it is zero at most in slow start.
pub open spec fn usable_cwnd(tcb: Tcb) -> bool {
    tcb.cwnd > 0 || tcb.ssthresh > 0
}

impl ConnView {
    /// The window to advertise.
    pub open spec fn window(self) -> u16 {
        match self.recv {
            Some(recv) => recv.window(),
            None => RECV_WINDOW,
        }
    }

    /// What a segment to the peer consists of.
    pub open spec fn outgoing(
        self,
        seq: u32,
        ack_num: u32,
        flags: TcpFlags,
        window: u16,
        payload: Seq<u8>,
    ) -> SegmentFields {
        SegmentFields {
            src_ip: self.tcb.local_ip,
            dst_ip: self.tcb.remote_ip,
            src_port: self.tcb.local_port,
            dst_port: self.tcb.remote_port,
            seq,
            ack_num,
            flags,
            window,
            payload,
        }
    }

    /// An acknowledgment of everything received in order.
    pub open spec fn ack_segment(self) -> SegmentFields {
        self.outgoing(
            self.tcb.snd.nxt,
            self.tcb.rcv.nxt,
            ack_flags(),
            self.window(),
            Seq::empty(),
        )
    }

    /// Data under its sequence number.
    pub open spec fn data_segment(self, seq: u32, payload: Seq<u8>) -> SegmentFields {
        self.outgoing(seq, self.tcb.rcv.nxt, data_flags(), self.window(), payload)
    }

    pub open spec fn syn_segment(self) -> SegmentFields {
        self.outgoing(self.tcb.snd.iss, 0, syn_flags(), self.window(), Seq::empty())
    }

    pub open spec fn syn_ack_segment(self) -> SegmentFields {
        self.outgoing(
            self.tcb.snd.iss,
            self.tcb.rcv.nxt,
            syn_ack_flags(),
            self.window(),
            Seq::empty(),
        )
    }

    pub open spec fn fin_ack_segment(self) -> SegmentFields {
        self.outgoing(
            self.tcb.snd.nxt,
            self.tcb.rcv.nxt,
            fin_ack_flags(),
            self.window(),
            Seq::empty(),
        )
    }

    pub open spec fn rst_segment(self, seq: u32) -> SegmentFields {
        self.outgoing(seq, 0, rst_flags(), RECV_WINDOW, Seq::empty())
    }

    pub open spec fn in_state(self, state: TcbState) -> ConnView {
        ConnView { tcb: Tcb { state, ..self.tcb }, ..self }
    }

    /// In TIME_WAIT since `now`.
    pub open spec fn waiting(self, now: Nanos) -> ConnView {
        ConnView { time_wait_start: Some(now), ..self.in_state(TcbState::TimeWait) }
    }

    /// After the peer's SYN: the receive side counts from its sequence number.
    pub open spec fn synchronized(self, seg: SegmentView) -> ConnView {
        ConnView {
            recv: Some(RecvView::fresh(seg.header.seq)),
            tcb: Tcb {
                rcv: RecvSequence {
                    irs: seg.header.seq,
                    nxt: ahead(seg.header.seq, 1),
                    wnd: seg.header.window,
                },
                ..self.tcb
            },
            ..self
        }
    }

    /// After the peer's FIN: everything up to it and the FIN itself count as received.
    pub open spec fn finished_by_peer(self, seg: SegmentView) -> ConnView {
        ConnView {
            tcb: Tcb {
                rcv: RecvSequence {
                    nxt: ahead(seg.header.seq, seg.payload.len() as int + 1),
                    ..self.tcb.rcv
                },
                ..self.tcb
            },
            ..self
        }
    }

    /// After `ack` moved the left edge of the send window.
    pub open spec fn send_acked(self, ack: u32) -> ConnView {
        ConnView {
            tcb: Tcb { snd: SendSequence { una: ack, ..self.tcb.snd }, ..self.tcb },
            ..self
        }
    }

    /// The handshake is complete: the peer has acknowledged our SYN.
    pub open spec fn opened(self, seg: SegmentView) -> ConnView {
        let ack = seg.header.ack_num;
        ConnView {
            tcb: Tcb {
                state: TcbState::Established,
                snd: SendSequence { una: ack, wnd: seg.header.window, ..self.tcb.snd },
                ..self.tcb
            },
            send: self.send.acknowledged(ack),
            ..self
        }
    }

    /// After an acknowledgment of new data: the buffers let go of it, and the peer's window is
    /// taken over.
    pub open spec fn data_acked(self, seg: SegmentView, now: Nanos) -> ConnView {
        let ack = seg.header.ack_num;
        ConnView {
            tcb: Tcb {
                snd: SendSequence { una: ack, wnd: seg.header.window, ..self.tcb.snd },
                ..self.tcb
            },
            send: self.send.acknowledged(ack),
            rtx: self.rtx.acknowledged(ack, now),
            ..self
        }
    }

    /// Whether the segment acknowledges something in flight.
    pub open spec fn acks_new_data(self, seg: SegmentView) -> bool {
        seg.header.flags.ack && ack_acceptable(
            self.tcb.snd.una,
            seg.header.ack_num,
            self.tcb.snd.nxt,
        )
    }

    /// Whether the segment acknowledges the same byte again while data is in flight.
    pub open spec fn is_duplicate_ack(self, seg: SegmentView) -> bool {
        seg.header.flags.ack && seg.header.ack_num == self.tcb.snd.una && self.tcb.snd.una
            != self.tcb.snd.nxt
    }

    /// Whether a segment opens a congestion window of zero whose threshold is zero: what to open it
    /// by is not defined.
    pub open spec fn cannot_grow(self, seg: SegmentView) -> bool {
        &&& self.tcb.state == TcbState::Established
        &&& !seg.header.flags.rst
        &&& self.acks_new_data(seg)
        &&& !usable_cwnd(self.tcb)
    }

    pub open spec fn on_listen(self, seg: SegmentView) -> (ConnView, Option<SegmentFields>) {
        if seg.header.flags.rst {
            (self, None)
        } else if seg.header.flags.ack {
            (self, Some(self.rst_segment(seg.header.ack_num)))
        } else if !seg.header.flags.syn {
            (self, None)
        } else {
            let heard = self.synchronized(seg);
            let next = ConnView {
                tcb: Tcb {
                    state: TcbState::SynReceived,
                    snd: SendSequence { nxt: ahead(self.tcb.snd.iss, 1), ..heard.tcb.snd },
                    ..heard.tcb
                },
                ..heard
            };
            (next, Some(next.syn_ack_segment()))
        }
    }

    pub open spec fn on_syn_sent(self, seg: SegmentView) -> (ConnView, Option<SegmentFields>) {
        if seg.header.flags.rst {
            (self.in_state(TcbState::Closed), None)
        } else if !seg.header.flags.syn {
            (self, None)
        } else if !seg.header.flags.ack {
            let next = self.synchronized(seg).in_state(TcbState::SynReceived);
            (next, Some(next.syn_ack_segment()))
        } else if !self.acks_new_data(seg) {
            (self, Some(self.rst_segment(seg.header.ack_num)))
        } else {
            let next = self.synchronized(seg).opened(seg);
            (next, Some(next.ack_segment()))
        }
    }

    pub open spec fn on_syn_received(self, seg: SegmentView) -> (ConnView, Option<SegmentFields>) {
        if seg.header.flags.rst {
            (self.in_state(TcbState::Listen), None)
        } else if seg.header.flags.syn && !seg.header.flags.ack && seg.header.seq
            == self.tcb.rcv.irs {
            (self, Some(self.syn_ack_segment()))
        } else if !seg.header.flags.ack {
            (self, None)
        } else if !self.acks_new_data(seg) {
            (self, Some(self.rst_segment(seg.header.ack_num)))
        } else {
            (self.opened(seg), None)
        }
    }

    /// After the acknowledgment that a segment in ESTABLISHED carries: a new one opens the
    /// congestion window, the third duplicate halves it and enters fast recovery, and each one
    /// after that inflates it.
    pub open spec fn congestion_acked(self, seg: SegmentView, now: Nanos) -> ConnView {
        let tcb = self.tcb;
        if self.acks_new_data(seg) {
            let next = self.data_acked(seg, now);
            ConnView {
                tcb: Tcb {
                    cwnd: grown_cwnd(
                        tcb.cwnd,
                        tcb.ssthresh,
                        distance(tcb.snd.una, seg.header.ack_num),
                    ),
                    dup_ack_count: 0,
                    ..next.tcb
                },
                ..next
            }
        } else if self.is_duplicate_ack(seg) {
            let count = if tcb.dup_ack_count < 255 {
                (tcb.dup_ack_count + 1) as u8
            } else {
                255
            };
            let (ssthresh, cwnd) = if count < 3 {
                (tcb.ssthresh, tcb.cwnd)
            } else if count == 3 {
                (halved_cwnd(tcb.cwnd), (halved_cwnd(tcb.cwnd) + 3 * MSS) as u32)
            } else if tcb.cwnd + MSS <= u32::MAX {
                (tcb.ssthresh, (tcb.cwnd + MSS) as u32)
            } else {
                (tcb.ssthresh, u32::MAX)
            };
            ConnView { tcb: Tcb { dup_ack_count: count, ssthresh, cwnd, ..tcb }, ..self }
        } else {
            self
        }
    }

    /// After the payload of a segment went into the receive buffer.
    pub open spec fn stored(self, seg: SegmentView) -> ConnView {
        match self.recv {
            Some(recv) if seg.payload.len() > 0 => {
                let filled = recv.inserted(seg.header.seq, seg.payload);
                ConnView {
                    recv: Some(filled),
                    tcb: Tcb {
                        rcv: RecvSequence { nxt: filled.nxt, ..self.tcb.rcv },
                        ..self.tcb
                    },
                    ..self
                }
            },
            _ => self,
        }
    }

    pub open spec fn on_established(self, seg: SegmentView, now: Nanos) -> (
        ConnView,
        Option<SegmentFields>,
    ) {
        let acked = self.congestion_acked(seg, now);
        let lost = self.rtx.head();
        if seg.header.flags.rst {
            (self.in_state(TcbState::Closed), None)
        } else if self.is_duplicate_ack(seg) && self.tcb.dup_ack_count == 2 && lost is Some {
            let (seq, payload) = lost->0;
            (acked, Some(acked.data_segment(seq, payload)))
        } else if seg.header.flags.fin {
            let next = acked.stored(seg).finished_by_peer(seg).in_state(TcbState::CloseWait);
            (next, Some(next.ack_segment()))
        } else if seg.payload.len() > 0 {
            let next = acked.stored(seg);
            (next, Some(next.ack_segment()))
        } else {
            (acked, None)
        }
    }

    pub open spec fn on_close_wait(self, seg: SegmentView) -> (ConnView, Option<SegmentFields>) {
        if seg.header.flags.rst {
            (self.in_state(TcbState::Closed), None)
        } else {
            (self, None)
        }
    }

    pub open spec fn on_fin_wait_1(self, seg: SegmentView, now: Nanos) -> (
        ConnView,
        Option<SegmentFields>,
    ) {
        let fin_acked = self.acks_new_data(seg) && seq_le(self.tcb.snd.nxt, seg.header.ack_num);
        let acked = if self.acks_new_data(seg) {
            self.data_acked(seg, now)
        } else {
            self
        };
        if seg.header.flags.rst {
            (self.in_state(TcbState::Closed), None)
        } else if seg.header.flags.fin {
            let finished = acked.finished_by_peer(seg);
            let next = if fin_acked {
                finished.waiting(now)
            } else {
                finished.in_state(TcbState::Closing)
            };
            (next, Some(next.ack_segment()))
        } else if fin_acked {
            (acked.in_state(TcbState::FinWait2), None)
        } else {
            (acked, None)
        }
    }

    pub open spec fn on_fin_wait_2(self, seg: SegmentView, now: Nanos) -> (
        ConnView,
        Option<SegmentFields>,
    ) {
        if seg.header.flags.rst {
            (self.in_state(TcbState::Closed), None)
        } else if seg.header.flags.fin {
            let next = self.finished_by_peer(seg).waiting(now);
            (next, Some(next.ack_segment()))
        } else {
            (self, None)
        }
    }

    pub open spec fn on_closing(self, seg: SegmentView, now: Nanos) -> (
        ConnView,
        Option<SegmentFields>,
    ) {
        if seg.header.flags.rst {
            (self.in_state(TcbState::Closed), None)
        } else if self.acks_new_data(seg) {
            (self.send_acked(seg.header.ack_num).waiting(now), None)
        } else {
            (self, None)
        }
    }

    pub open spec fn on_last_ack(self, seg: SegmentView) -> (ConnView, Option<SegmentFields>) {
        if seg.header.flags.rst {
            (self.in_state(TcbState::Closed), None)
        } else if self.acks_new_data(seg) {
            (self.send_acked(seg.header.ack_num).in_state(TcbState::Closed), None)
        } else {
            (self, None)
        }
    }

    pub open spec fn on_time_wait(self, seg: SegmentView) -> (ConnView, Option<SegmentFields>) {
        if seg.header.flags.fin {
            (self, Some(self.ack_segment()))
        } else {
            (self, None)
        }
    }

    /// What a segment that arrives at `now` does to the connection, and what is sent in answer.
    pub open spec fn on_segment(self, seg: SegmentView, now: Nanos) -> (
        ConnView,
        Option<SegmentFields>,
    ) {
        match self.tcb.state {
            TcbState::Listen => self.on_listen(seg),
            TcbState::SynSent => self.on_syn_sent(seg),
            TcbState::SynReceived => self.on_syn_received(seg),
            TcbState::Established => self.on_established(seg, now),
            TcbState::CloseWait => self.on_close_wait(seg),
            TcbState::FinWait1 => self.on_fin_wait_1(seg, now),
            TcbState::FinWait2 => self.on_fin_wait_2(seg, now),
            TcbState::Closing => self.on_closing(seg, now),
            TcbState::LastAck => self.on_last_ack(seg),
            TcbState::TimeWait => self.on_time_wait(seg),
            TcbState::Closed => (self, None),
        }
    }

    /// An active open: our SYN is sent.
    pub open spec fn on_connect(self) -> (ConnView, Option<SegmentFields>) {
        if self.tcb.state == TcbState::Closed {
            let next = ConnView {
                tcb: Tcb {
                    state: TcbState::SynSent,
                    snd: SendSequence { nxt: ahead(self.tcb.snd.iss, 1), ..self.tcb.snd },
                    ..self.tcb
                },
                ..self
            };
            (next, Some(next.syn_segment()))
        } else {
            (self, None)
        }
    }

    /// The application closes: our FIN is sent.
    pub open spec fn on_close(self) -> (ConnView, Option<SegmentFields>) {
        let counted = ConnView {
            tcb: Tcb {
                snd: SendSequence { nxt: ahead(self.tcb.snd.nxt, 1), ..self.tcb.snd },
                ..self.tcb
            },
            ..self
        };
        match self.tcb.state {
            TcbState::Established => (
                counted.in_state(TcbState::FinWait1),
                Some(self.fin_ack_segment()),
            ),
            TcbState::CloseWait => (
                counted.in_state(TcbState::LastAck),
                Some(self.fin_ack_segment()),
            ),
            _ => (self, None),
        }
    }

    /// How many bytes may be in flight: the smaller of the congestion window and the peer's window.
    pub open spec fn effective_window(self) -> int {
        if self.tcb.cwnd < self.tcb.snd.wnd {
            self.tcb.cwnd as int
        } else {
            self.tcb.snd.wnd as int
        }
    }

    /// How many bytes are in flight.
    pub open spec fn in_flight(self) -> int {
        distance(self.tcb.snd.una, self.tcb.snd.nxt)
    }

    /// How many bytes the next segment may hold, where a segment may hold `max_payload`.
    pub open spec fn allowance(self, max_payload: nat) -> nat {
        if self.in_flight() >= self.effective_window() {
            0
        } else if self.effective_window() - self.in_flight() < max_payload {
            (self.effective_window() - self.in_flight()) as nat
        } else {
            max_payload
        }
    }

    /// The next data segment, as far as both windows allow one, is sent at `now` and queued for
    /// retransmission.
    pub open spec fn on_send(self, max_payload: nat, now: Nanos) -> (
        ConnView,
        Option<SegmentFields>,
    ) {
        match self.send.next_segment(self.allowance(max_payload)) {
            Some((seq, payload)) => {
                let send = self.send.advanced(payload.len());
                let next = ConnView {
                    send,
                    rtx: self.rtx.pushed(seq, payload, now),
                    tcb: Tcb {
                        snd: SendSequence { nxt: send.nxt, ..self.tcb.snd },
                        ..self.tcb
                    },
                    ..self
                };
                (next, Some(next.data_segment(seq, payload)))
            },
            None => (self, None),
        }
    }

    /// The overdue segments are sent again at `now`. If there are any, the connection goes back to
    /// slow start.
    pub open spec fn on_timeout(self, now: Nanos) -> (ConnView, Seq<SegmentFields>) {
        let expired = self.rtx.expired(now);
        let tcb = if expired.len() > 0 {
            Tcb { ssthresh: halved_cwnd(self.tcb.cwnd), cwnd: MSS, ..self.tcb }
        } else {
            self.tcb
        };
        let next = ConnView { rtx: self.rtx.backed_off(now), tcb, ..self };
        (next, expired.map_values(|s: (u32, Seq<u8>)| next.data_segment(s.0, s.1)))
    }

    /// The probe of a closed window: the next byte to send, while the peer offers no window.
    pub open spec fn probe(self) -> Option<SegmentFields> {
        if self.tcb.state == TcbState::Established && self.tcb.snd.wnd == 0 {
            match self.send.next_segment(1) {
                Some((seq, payload)) => Some(self.data_segment(seq, payload)),
                None => None,
            }
        } else {
            None
        }
    }

    /// Whether the wait in TIME_WAIT is over at `now`.
    pub open spec fn wait_is_over(self, now: Nanos) -> bool {
        self.tcb.state == TcbState::TimeWait && (self.time_wait_start matches Some(start) && now
            - start >= TWO_MSL)
    }

    pub open spec fn on_tick(self, now: Nanos) -> ConnView {
        if self.wait_is_over(now) {
            self.in_state(TcbState::Closed)
        } else {
            self
        }
    }
}

} // verus!
