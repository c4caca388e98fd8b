//! One TCP connection: the state machine around its buffers.
use vstd::prelude::*;

use crate::clock::{Clock, Nanos};
use crate::error::MagnumError;
use crate::tcp::header::{encode, SegmentBuilder, SegmentFields, TcpFlags, TcpSegment, RECV_WINDOW};
use crate::tcp::recv_buffer::RecvBuffer;
use crate::tcp::retransmit::{segment_views, RetransmitQueue, MSS};
use crate::tcp::ring::accepted;
use crate::tcp::send_buffer::SendBuffer;
use crate::tcp::tcb::{ack_acceptable, ahead_ahead, seq_ahead, seq_le, Tcb, TcbState};
use crate::tcp::transitions::{
    fresh_connection, grown_cwnd, halved_cwnd, usable_cwnd, ConnView, TWO_MSL,
};
use crate::wire::copy_bytes;

verus! {

pub struct Connection {
    pub tcb: Tcb,
    pub send_buf: SendBuffer,
    pub recv_buf: Option<RecvBuffer>,
    pub retransmit_queue: RetransmitQueue,
    pub time_wait_start: Option<Nanos>,
}

impl View for Connection {
    type V = ConnView;

    open spec fn view(&self) -> ConnView {
        ConnView {
            tcb: self.tcb,
            send: self.send_buf@,
            recv: match self.recv_buf {
                Some(recv) => Some(recv@),
                None => None,
            },
            rtx: self.retransmit_queue@,
            time_wait_start: self.time_wait_start,
        }
    }
}

/// The bytes of a segment to send, if there is one.
pub open spec fn encoded(answer: Option<SegmentFields>) -> Option<Seq<u8>> {
    match answer {
        Some(segment) => Some(encode(segment)),
        None => None,
    }
}

/// The bytes that were handed out, if any.
pub open spec fn bytes_of(answer: Option<Vec<u8>>) -> Option<Seq<u8>> {
    match answer {
        Some(bytes) => Some(bytes@),
        None => None,
    }
}

/// Byte strings as values.
pub open spec fn all_bytes(strings: Seq<Vec<u8>>) -> Seq<Seq<u8>> {
    strings.map_values(|s: Vec<u8>| s@)
}

impl Connection {
    pub fn new(tcb: Tcb) -> (r: Self)
        ensures
            r@ == fresh_connection(tcb),
            r.clock().was_started(),
            r.clock().latest() == 0,
    {
        let iss: u32 = tcb.snd.iss;
        Connection {
            send_buf: SendBuffer::new(iss),
            recv_buf: None,
            retransmit_queue: RetransmitQueue::new(),
            time_wait_start: None,
            tcb,
        }
    }

    /// The connection's own clock.
    pub open spec fn clock(self) -> Clock {
        self.retransmit_queue.clock()
    }

    /// What the connection's clock shows.
    pub fn now(&self) -> (r: Nanos)
        ensures
            self.clock().reads(r),
    {
        self.retransmit_queue.now()
    }

    /// Reads the connection's clock.
    pub fn read_clock(&mut self) -> (r: Nanos)
        ensures
            final(self).clock().read_from(old(self).clock(), r),
            final(self)@ == old(self)@,
    {
        self.retransmit_queue.read_clock()
    }

    /// Takes a segment that arrives now, and gives back the segment to answer with, if any.
    pub fn process_segment(&mut self, seg: &TcpSegment<'_>) -> (r: Result<
        Option<Vec<u8>>,
        MagnumError,
    >)
        requires
            !old(self)@.cannot_grow(seg@),
        ensures
            usable_cwnd(old(self).tcb) ==> usable_cwnd(final(self).tcb),
            r is Ok,
            exists|now: Nanos|
                {
                    let (next, answer) = #[trigger] old(self)@.on_segment(seg@, now);
                    final(self)@ == next && bytes_of(r->Ok_0) == encoded(answer)
                        && final(self).clock().read_from(old(self).clock(), now)
                },
    {
        let now: Nanos = self.read_clock();
        Ok(self.process_segment_at(seg, now))
    }

    /// Takes a segment that arrives at `now`, and gives back the segment to answer with, if any.
    pub fn process_segment_at(&mut self, seg: &TcpSegment<'_>, now: Nanos) -> (r: Option<Vec<u8>>)
        requires
            !old(self)@.cannot_grow(seg@),
        ensures
            final(self).clock() == old(self).clock(),
            usable_cwnd(old(self).tcb) ==> usable_cwnd(final(self).tcb),
            final(self)@ == old(self)@.on_segment(seg@, now).0,
            bytes_of(r) == encoded(old(self)@.on_segment(seg@, now).1),
    {
        match self.tcb.state {
            TcbState::Listen => self.handle_listen(seg),
            TcbState::SynSent => self.handle_syn_sent(seg),
            TcbState::SynReceived => self.handle_syn_received(seg),
            TcbState::Established => self.handle_established(seg, now),
            TcbState::CloseWait => self.handle_close_wait(seg),
            TcbState::FinWait1 => self.handle_fin_wait_1(seg, now),
            TcbState::FinWait2 => self.handle_fin_wait_2(seg, now),
            TcbState::Closing => self.handle_closing(seg, now),
            TcbState::LastAck => self.handle_last_ack(seg),
            TcbState::TimeWait => self.handle_time_wait(seg),
            TcbState::Closed => None,
        }
    }

    /// Appends as much of `data` as fits to the send buffer, and says how many bytes that were.
    pub fn write_data(&mut self, data: &[u8]) -> (n: usize)
        ensures
            final(self).clock() == old(self).clock(),
            n == accepted(old(self)@.send.data.len(), data@.len()),
            n <= data@.len(),
            final(self)@ == (ConnView { send: old(self)@.send.written(data@), ..old(self)@ }),
    {
        self.send_buf.write(data)
    }

    /// The next data segment to send now, of at most `max_payload` bytes.
    pub fn next_segment_to_send(&mut self, max_payload: usize) -> (r: Option<Vec<u8>>)
        ensures
            exists|now: Nanos|
                {
                    let (next, answer) = #[trigger] old(self)@.on_send(max_payload as nat, now);
                    final(self)@ == next && bytes_of(r) == encoded(answer)
                        && final(self).clock().read_from(old(self).clock(), now)
                },
    {
        let now: Nanos = self.read_clock();
        self.next_segment_to_send_at(max_payload, now)
    }

    /// The next data segment to send at `now`, of at most `max_payload` bytes.
    pub fn next_segment_to_send_at(&mut self, max_payload: usize, now: Nanos) -> (r: Option<
        Vec<u8>,
    >)
        ensures
            final(self).clock() == old(self).clock(),
            final(self)@ == old(self)@.on_send(max_payload as nat, now).0,
            bytes_of(r) == encoded(old(self)@.on_send(max_payload as nat, now).1),
    {
        let snd_wnd: u32 = self.tcb.snd.wnd as u32;
        let effective_window: u32 = if self.tcb.cwnd < snd_wnd { self.tcb.cwnd } else { snd_wnd };
        let inflight: u32 = self.tcb.snd.nxt.wrapping_sub(self.tcb.snd.una);
        if inflight >= effective_window {
            return None;
        }
        let window_avail: usize = (effective_window - inflight) as usize;
        let max_len: usize = if max_payload < window_avail { max_payload } else { window_avail };
        match self.send_buf.next_segment(max_len) {
            None => None,
            Some((seq, payload)) => {
                self.send_buf.advance_nxt(payload.len());
                self.retransmit_queue.push_at(seq, copy_bytes(payload.as_slice()), now);
                self.tcb.snd.nxt = self.send_buf.nxt();
                Some(self.build_data(seq, payload.as_slice()))
            },
        }
    }

    /// Moves received bytes to the front of `buf`, and says how many.
    pub fn read_received(&mut self, buf: &mut [u8]) -> (n: usize)
        ensures
            final(self).clock() == old(self).clock(),
            match old(self)@.recv {
                Some(recv) => {
                    &&& n == if recv.data.len() < old(buf)@.len() {
                        recv.data.len()
                    } else {
                        old(buf)@.len()
                    }
                    &&& final(buf)@ == recv.data.take(n as int) + old(buf)@.skip(n as int)
                    &&& final(self)@ == (ConnView {
                        recv: Some(recv.consumed(n as nat)),
                        ..old(self)@
                    })
                },
                None => n == 0 && final(buf)@ == old(buf)@ && final(self)@ == old(self)@,
            },
            final(self).tcb == old(self).tcb,
    {
        match &mut self.recv_buf {
            Some(rb) => rb.read(buf),
            None => 0,
        }
    }

    pub fn received_available(&self) -> (r: usize)
        ensures
            r == match self@.recv {
                Some(recv) => recv.data.len(),
                None => 0,
            },
    {
        match &self.recv_buf {
            Some(rb) => rb.available(),
            None => 0,
        }
    }

    /// The overdue segments, to be sent again now.
    pub fn take_retransmits(&mut self) -> (r: Vec<Vec<u8>>)
        ensures
            exists|now: Nanos|
                {
                    let (next, resent) = #[trigger] old(self)@.on_timeout(now);
                    final(self)@ == next && all_bytes(r@) == resent.map_values(
                        |s: SegmentFields| encode(s),
                    ) && final(self).clock().read_from(old(self).clock(), now)
                },
    {
        let now: Nanos = self.read_clock();
        self.take_retransmits_at(now)
    }

    /// The overdue segments, to be sent again at `now`.
    pub fn take_retransmits_at(&mut self, now: Nanos) -> (r: Vec<Vec<u8>>)
        ensures
            final(self).clock() == old(self).clock(),
            final(self)@ == old(self)@.on_timeout(now).0,
            all_bytes(r@) == old(self)@.on_timeout(now).1.map_values(|s: SegmentFields| encode(s)),
    {
        let expired = self.retransmit_queue.expired_at(now);
        if expired.len() > 0 {
            self.tcb.ssthresh = halve_cwnd(self.tcb.cwnd);
            self.tcb.cwnd = MSS;
        }
        let ghost next = old(self)@.on_timeout(now).0;
        let ghost segments = old(self)@.on_timeout(now).1;
        let mut out: Vec<Vec<u8>> = Vec::new();
        let mut i: usize = 0;
        assert(segment_views(expired@).len() == expired@.len());
        while i < expired.len()
            invariant
                i <= expired@.len(),
                self@ == next,
                self.clock() == old(self).clock(),
                segments.len() == expired@.len(),
                forall|j: int|
                    0 <= j < expired@.len() ==> #[trigger] segments[j] == next.data_segment(
                        expired@[j].0,
                        expired@[j].1@,
                    ),
                out@.len() == i,
                forall|j: int| 0 <= j < i ==> (#[trigger] out@[j])@ == encode(segments[j]),
            decreases expired@.len() - i,
        {
            out.push(self.build_data(expired[i].0, expired[i].1.as_slice()));
            i = i + 1;
        }
        assert(all_bytes(out@) =~= segments.map_values(|s: SegmentFields| encode(s)));
        out
    }

    /// The probe to send while the peer offers no window.
    pub fn zero_window_probe(&self) -> (r: Option<Vec<u8>>)
        ensures
            bytes_of(r) == encoded(self@.probe()),
    {
        if self.tcb.state != TcbState::Established || self.tcb.snd.wnd != 0 {
            return None;
        }
        match self.send_buf.next_segment(1) {
            Some((seq, payload)) => Some(self.build_data(seq, payload.as_slice())),
            None => None,
        }
    }

    /// Opens the connection actively: the SYN to send, if the connection is closed.
    pub fn connect(&mut self) -> (r: Option<Vec<u8>>)
        ensures
            final(self).clock() == old(self).clock(),
            final(self)@ == old(self)@.on_connect().0,
            bytes_of(r) == encoded(old(self)@.on_connect().1),
            usable_cwnd(old(self).tcb) ==> usable_cwnd(final(self).tcb),
    {
        if self.tcb.state != TcbState::Closed {
            return None;
        }
        self.tcb.snd.nxt = seq_ahead(self.tcb.snd.iss, 1);
        self.tcb.state = TcbState::SynSent;
        Some(self.build_syn())
    }

    /// Closes our side: the FIN to send, if there is a side to close.
    pub fn initiate_close(&mut self) -> (r: Option<Vec<u8>>)
        ensures
            final(self).clock() == old(self).clock(),
            final(self)@ == old(self)@.on_close().0,
            bytes_of(r) == encoded(old(self)@.on_close().1),
            usable_cwnd(old(self).tcb) ==> usable_cwnd(final(self).tcb),
    {
        match self.tcb.state {
            TcbState::Established => {
                let fin = self.build_fin_ack();
                self.tcb.snd.nxt = seq_ahead(self.tcb.snd.nxt, 1);
                self.tcb.state = TcbState::FinWait1;
                Some(fin)
            },
            TcbState::CloseWait => {
                let fin = self.build_fin_ack();
                self.tcb.snd.nxt = seq_ahead(self.tcb.snd.nxt, 1);
                self.tcb.state = TcbState::LastAck;
                Some(fin)
            },
            _ => None,
        }
    }

    /// Closes the connection if its wait in TIME_WAIT is over at `now`, a moment on the
    /// connection's own clock, and says whether it was.
    pub fn tick_time_wait(&mut self, now: Nanos) -> (r: bool)
        ensures
            final(self).clock() == old(self).clock(),
            r == old(self)@.wait_is_over(now),
            final(self)@ == old(self)@.on_tick(now),
            usable_cwnd(old(self).tcb) ==> usable_cwnd(final(self).tcb),
    {
        if self.tcb.state != TcbState::TimeWait {
            return false;
        }
        if let Some(start) = self.time_wait_start {
            if now >= start && now - start >= TWO_MSL {
                self.tcb.state = TcbState::Closed;
                return true;
            }
        }
        false
    }

    fn current_window(&self) -> (r: u16)
        ensures
            r == self@.window(),
    {
        match &self.recv_buf {
            Some(rb) => rb.window(),
            None => RECV_WINDOW,
        }
    }

    fn build(
        &self,
        seq: u32,
        ack_num: u32,
        flags: TcpFlags,
        window: u16,
        payload: &[u8],
    ) -> (r: Vec<u8>)
        ensures
            r@ == encode(self@.outgoing(seq, ack_num, flags, window, payload@)),
    {
        SegmentBuilder::new(
            self.tcb.local_ip,
            self.tcb.remote_ip,
            self.tcb.local_port,
            self.tcb.remote_port,
        ).seq(seq).ack(ack_num).flags(flags).window(window).payload(payload).build()
    }

    fn build_data(&self, seq: u32, payload: &[u8]) -> (r: Vec<u8>)
        ensures
            r@ == encode(self@.data_segment(seq, payload@)),
    {
        let flags = TcpFlags {
            urg: false,
            ack: true,
            psh: true,
            rst: false,
            syn: false,
            fin: false,
        };
        self.build(seq, self.tcb.rcv.nxt, flags, self.current_window(), payload)
    }

    fn build_syn(&self) -> (r: Vec<u8>)
        ensures
            r@ == encode(self@.syn_segment()),
    {
        let flags = TcpFlags {
            urg: false,
            ack: false,
            psh: false,
            rst: false,
            syn: true,
            fin: false,
        };
        self.build(self.tcb.snd.iss, 0, flags, self.current_window(), &[])
    }

    fn build_syn_ack(&self) -> (r: Vec<u8>)
        ensures
            r@ == encode(self@.syn_ack_segment()),
    {
        let flags = TcpFlags {
            urg: false,
            ack: true,
            psh: false,
            rst: false,
            syn: true,
            fin: false,
        };
        self.build(self.tcb.snd.iss, self.tcb.rcv.nxt, flags, self.current_window(), &[])
    }

    fn build_ack(&self) -> (r: Vec<u8>)
        ensures
            r@ == encode(self@.ack_segment()),
    {
        let flags = TcpFlags {
            urg: false,
            ack: true,
            psh: false,
            rst: false,
            syn: false,
            fin: false,
        };
        self.build(self.tcb.snd.nxt, self.tcb.rcv.nxt, flags, self.current_window(), &[])
    }

    fn build_fin_ack(&self) -> (r: Vec<u8>)
        ensures
            r@ == encode(self@.fin_ack_segment()),
    {
        let flags = TcpFlags {
            urg: false,
            ack: true,
            psh: false,
            rst: false,
            syn: false,
            fin: true,
        };
        self.build(self.tcb.snd.nxt, self.tcb.rcv.nxt, flags, self.current_window(), &[])
    }

    fn build_rst(&self, seq: u32) -> (r: Vec<u8>)
        ensures
            r@ == encode(self@.rst_segment(seq)),
    {
        let flags = TcpFlags {
            urg: false,
            ack: false,
            psh: false,
            rst: true,
            syn: false,
            fin: false,
        };
        self.build(seq, 0, flags, RECV_WINDOW, &[])
    }

    /// Starts to count what the peer sends from its SYN on.
    fn synchronize(&mut self, seg: &TcpSegment<'_>)
        ensures
            final(self).clock() == old(self).clock(),
            final(self)@ == old(self)@.synchronized(seg@),
    {
        self.recv_buf = Some(RecvBuffer::new(seg.header.seq));
        self.tcb.rcv.irs = seg.header.seq;
        self.tcb.rcv.nxt = seq_ahead(seg.header.seq, 1);
        self.tcb.rcv.wnd = seg.header.window;
    }

    fn open(&mut self, seg: &TcpSegment<'_>)
        ensures
            final(self).clock() == old(self).clock(),
            final(self)@ == old(self)@.opened(seg@),
    {
        self.tcb.snd.una = seg.header.ack_num;
        self.send_buf.acknowledge(seg.header.ack_num);
        self.tcb.snd.wnd = seg.header.window;
        self.tcb.state = TcbState::Established;
    }

    /// Counts the peer's FIN, and everything before it, as received.
    fn finish_by_peer(&mut self, seg: &TcpSegment<'_>)
        ensures
            final(self).clock() == old(self).clock(),
            final(self)@ == old(self)@.finished_by_peer(seg@),
    {
        proof {
            ahead_ahead(seg.header.seq, seg.payload@.len() as int, 1);
        }
        self.tcb.rcv.nxt = seq_ahead(seq_ahead(seg.header.seq, seg.payload.len()), 1);
    }

    /// Lets go of the data that the peer has acknowledged.
    fn ack_data(&mut self, seg: &TcpSegment<'_>, now: Nanos)
        ensures
            final(self).clock() == old(self).clock(),
            final(self)@ == old(self)@.data_acked(seg@, now),
    {
        self.tcb.snd.una = seg.header.ack_num;
        self.send_buf.acknowledge(seg.header.ack_num);
        self.retransmit_queue.acknowledge_at(seg.header.ack_num, now);
        self.tcb.snd.wnd = seg.header.window;
    }

    fn acks_new_data(&self, seg: &TcpSegment<'_>) -> (r: bool)
        ensures
            r == self@.acks_new_data(seg@),
    {
        seg.header.flags.ack && ack_acceptable(
            self.tcb.snd.una,
            seg.header.ack_num,
            self.tcb.snd.nxt,
        )
    }

    fn handle_listen(&mut self, seg: &TcpSegment<'_>) -> (r: Option<Vec<u8>>)
        ensures
            final(self).clock() == old(self).clock(),
            usable_cwnd(old(self).tcb) ==> usable_cwnd(final(self).tcb),
            final(self)@ == old(self)@.on_listen(seg@).0,
            bytes_of(r) == encoded(old(self)@.on_listen(seg@).1),
    {
        if seg.header.flags.rst {
            return None;
        }
        if seg.header.flags.ack {
            return Some(self.build_rst(seg.header.ack_num));
        }
        if !seg.header.flags.syn {
            return None;
        }
        self.synchronize(seg);
        self.tcb.snd.nxt = seq_ahead(self.tcb.snd.iss, 1);
        self.tcb.state = TcbState::SynReceived;
        Some(self.build_syn_ack())
    }

    fn handle_syn_sent(&mut self, seg: &TcpSegment<'_>) -> (r: Option<Vec<u8>>)
        ensures
            final(self).clock() == old(self).clock(),
            usable_cwnd(old(self).tcb) ==> usable_cwnd(final(self).tcb),
            final(self)@ == old(self)@.on_syn_sent(seg@).0,
            bytes_of(r) == encoded(old(self)@.on_syn_sent(seg@).1),
    {
        if seg.header.flags.rst {
            self.tcb.state = TcbState::Closed;
            return None;
        }
        if !seg.header.flags.syn {
            return None;
        }
        if !seg.header.flags.ack {
            self.synchronize(seg);
            self.tcb.state = TcbState::SynReceived;
            return Some(self.build_syn_ack());
        }
        if !self.acks_new_data(seg) {
            return Some(self.build_rst(seg.header.ack_num));
        }
        self.synchronize(seg);
        self.open(seg);
        Some(self.build_ack())
    }

    fn handle_syn_received(&mut self, seg: &TcpSegment<'_>) -> (r: Option<Vec<u8>>)
        ensures
            final(self).clock() == old(self).clock(),
            usable_cwnd(old(self).tcb) ==> usable_cwnd(final(self).tcb),
            final(self)@ == old(self)@.on_syn_received(seg@).0,
            bytes_of(r) == encoded(old(self)@.on_syn_received(seg@).1),
    {
        if seg.header.flags.rst {
            self.tcb.state = TcbState::Listen;
            return None;
        }
        if seg.header.flags.syn && !seg.header.flags.ack && seg.header.seq == self.tcb.rcv.irs {
            return Some(self.build_syn_ack());
        }
        if !seg.header.flags.ack {
            return None;
        }
        if !self.acks_new_data(seg) {
            return Some(self.build_rst(seg.header.ack_num));
        }
        self.open(seg);
        None
    }

    fn handle_established(&mut self, seg: &TcpSegment<'_>, now: Nanos) -> (r: Option<Vec<u8>>)
        requires
            old(self).tcb.state == TcbState::Established,
            !old(self)@.cannot_grow(seg@),
        ensures
            final(self).clock() == old(self).clock(),
            usable_cwnd(old(self).tcb) ==> usable_cwnd(final(self).tcb),
            final(self)@ == old(self)@.on_established(seg@, now).0,
            bytes_of(r) == encoded(old(self)@.on_established(seg@, now).1),
    {
        if seg.header.flags.rst {
            self.tcb.state = TcbState::Closed;
            return None;
        }
        let dup_ack_count: u8 = self.tcb.dup_ack_count;
        if self.acks_new_data(seg) {
            let bytes_acked: u32 = seg.header.ack_num.wrapping_sub(self.tcb.snd.una);
            self.tcb.cwnd = grow_cwnd(self.tcb.cwnd, self.tcb.ssthresh, bytes_acked);
            self.tcb.dup_ack_count = 0;
            self.ack_data(seg, now);
        } else if seg.header.flags.ack && seg.header.ack_num == self.tcb.snd.una
            && self.tcb.snd.una != self.tcb.snd.nxt {
            self.tcb.dup_ack_count = dup_ack_count.saturating_add(1);
            if self.tcb.dup_ack_count == 3 {
                self.tcb.ssthresh = halve_cwnd(self.tcb.cwnd);
                self.tcb.cwnd = self.tcb.ssthresh + 3 * MSS;
                if let Some(retransmit) = self.fast_retransmit_segment() {
                    return Some(retransmit);
                }
            } else if self.tcb.dup_ack_count > 3 {
                self.tcb.cwnd = self.tcb.cwnd.saturating_add(MSS);
            }
        }
        assert(self@ == old(self)@.congestion_acked(seg@, now));
        if seg.payload.len() > 0 {
            self.store(seg);
            if !seg.header.flags.fin {
                return Some(self.build_ack());
            }
        }
        if seg.header.flags.fin {
            self.finish_by_peer(seg);
            self.tcb.state = TcbState::CloseWait;
            return Some(self.build_ack());
        }
        None
    }

    /// Puts the payload of a segment into the receive buffer.
    fn store(&mut self, seg: &TcpSegment<'_>)
        requires
            seg.payload@.len() > 0,
        ensures
            final(self).clock() == old(self).clock(),
            final(self)@ == old(self)@.stored(seg@),
    {
        if let Some(rb) = &mut self.recv_buf {
            rb.insert(seg.header.seq, seg.payload);
            self.tcb.rcv.nxt = rb.next_expected();
        }
    }

    fn handle_close_wait(&mut self, seg: &TcpSegment<'_>) -> (r: Option<Vec<u8>>)
        ensures
            final(self).clock() == old(self).clock(),
            usable_cwnd(old(self).tcb) ==> usable_cwnd(final(self).tcb),
            final(self)@ == old(self)@.on_close_wait(seg@).0,
            bytes_of(r) == encoded(old(self)@.on_close_wait(seg@).1),
    {
        if seg.header.flags.rst {
            self.tcb.state = TcbState::Closed;
        }
        None
    }

    fn handle_fin_wait_1(&mut self, seg: &TcpSegment<'_>, now: Nanos) -> (r: Option<Vec<u8>>)
        ensures
            final(self).clock() == old(self).clock(),
            usable_cwnd(old(self).tcb) ==> usable_cwnd(final(self).tcb),
            final(self)@ == old(self)@.on_fin_wait_1(seg@, now).0,
            bytes_of(r) == encoded(old(self)@.on_fin_wait_1(seg@, now).1),
    {
        if seg.header.flags.rst {
            self.tcb.state = TcbState::Closed;
            return None;
        }
        if self.acks_new_data(seg) {
            let fin_acked = seq_le(self.tcb.snd.nxt, seg.header.ack_num);
            self.ack_data(seg, now);
            if fin_acked && seg.header.flags.fin {
                self.finish_by_peer(seg);
                self.tcb.state = TcbState::TimeWait;
                self.time_wait_start = Some(now);
                return Some(self.build_ack());
            }
            if fin_acked {
                self.tcb.state = TcbState::FinWait2;
                return None;
            }
        }
        if seg.header.flags.fin {
            self.finish_by_peer(seg);
            self.tcb.state = TcbState::Closing;
            return Some(self.build_ack());
        }
        None
    }

    fn handle_fin_wait_2(&mut self, seg: &TcpSegment<'_>, now: Nanos) -> (r: Option<Vec<u8>>)
        ensures
            final(self).clock() == old(self).clock(),
            usable_cwnd(old(self).tcb) ==> usable_cwnd(final(self).tcb),
            final(self)@ == old(self)@.on_fin_wait_2(seg@, now).0,
            bytes_of(r) == encoded(old(self)@.on_fin_wait_2(seg@, now).1),
    {
        if seg.header.flags.rst {
            self.tcb.state = TcbState::Closed;
            return None;
        }
        if seg.header.flags.fin {
            self.finish_by_peer(seg);
            self.tcb.state = TcbState::TimeWait;
            self.time_wait_start = Some(now);
            return Some(self.build_ack());
        }
        None
    }

    fn handle_closing(&mut self, seg: &TcpSegment<'_>, now: Nanos) -> (r: Option<Vec<u8>>)
        ensures
            final(self).clock() == old(self).clock(),
            usable_cwnd(old(self).tcb) ==> usable_cwnd(final(self).tcb),
            final(self)@ == old(self)@.on_closing(seg@, now).0,
            bytes_of(r) == encoded(old(self)@.on_closing(seg@, now).1),
    {
        if seg.header.flags.rst {
            self.tcb.state = TcbState::Closed;
            return None;
        }
        if self.acks_new_data(seg) {
            self.tcb.snd.una = seg.header.ack_num;
            self.tcb.state = TcbState::TimeWait;
            self.time_wait_start = Some(now);
        }
        None
    }

    fn handle_last_ack(&mut self, seg: &TcpSegment<'_>) -> (r: Option<Vec<u8>>)
        ensures
            final(self).clock() == old(self).clock(),
            usable_cwnd(old(self).tcb) ==> usable_cwnd(final(self).tcb),
            final(self)@ == old(self)@.on_last_ack(seg@).0,
            bytes_of(r) == encoded(old(self)@.on_last_ack(seg@).1),
    {
        if seg.header.flags.rst {
            self.tcb.state = TcbState::Closed;
            return None;
        }
        if self.acks_new_data(seg) {
            self.tcb.snd.una = seg.header.ack_num;
            self.tcb.state = TcbState::Closed;
        }
        None
    }

    fn handle_time_wait(&mut self, seg: &TcpSegment<'_>) -> (r: Option<Vec<u8>>)
        ensures
            final(self).clock() == old(self).clock(),
            usable_cwnd(old(self).tcb) ==> usable_cwnd(final(self).tcb),
            final(self)@ == old(self)@.on_time_wait(seg@).0,
            bytes_of(r) == encoded(old(self)@.on_time_wait(seg@).1),
    {
        if seg.header.flags.fin {
            return Some(self.build_ack());
        }
        None
    }

    fn fast_retransmit_segment(&self) -> (r: Option<Vec<u8>>)
        ensures
            bytes_of(r) == match self@.rtx.head() {
                Some((seq, payload)) => Some(encode(self@.data_segment(seq, payload))),
                None => None,
            },
    {
        match self.retransmit_queue.first_unacked() {
            Some((seq, payload)) => Some(self.build_data(seq, payload.as_slice())),
            None => None,
        }
    }
}

fn grow_cwnd(cwnd: u32, ssthresh: u32, bytes_acked: u32) -> (r: u32)
    requires
        cwnd > 0 || ssthresh > 0,
    ensures
        r == grown_cwnd(cwnd, ssthresh, bytes_acked as int),
{
    if cwnd < ssthresh {
        let growth: u32 = if bytes_acked < MSS { bytes_acked } else { MSS };
        cwnd.saturating_add(growth)
    } else {
        cwnd.saturating_add(MSS * MSS / cwnd)
    }
}

fn halve_cwnd(cwnd: u32) -> (r: u32)
    ensures
        r == halved_cwnd(cwnd),
{
    if cwnd / 2 > 2 * MSS {
        cwnd / 2
    } else {
        2 * MSS
    }
}

} // verus!
