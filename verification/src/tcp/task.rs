//! The life of a connection as steps: what happens to it, and what is to be sent and handed to the
//! application thereupon.
use vstd::prelude::*;

use crate::clock::{Clock, Nanos};
use crate::tcp::connection::{all_bytes, bytes_of, encoded, Connection};
use crate::tcp::header::{encode, SegmentFields, SegmentView, TcpSegmentOwned};
use crate::tcp::laws::established_receives_the_stream;
use crate::tcp::recv_buffer::{carries, read_follows_the_stream, receives};
use crate::tcp::retransmit::{overdue_segments_are_sent_again, MSS};
use crate::tcp::send_buffer::SEND_BUF_SIZE;
use crate::tcp::tcb::{ahead_ahead, ahead_distance, distance, TcbState};
use crate::tcp::transitions::{usable_cwnd, ConnView};

verus! {

/// How often a connection looks for overdue segments, in milliseconds.
pub const RETRANSMIT_INTERVAL_MS: u64 = 100;

/// How often a connection probes a closed window, in seconds.
pub const ZWP_INTERVAL_SECS: u64 = 1;

/// A segment for a connection.
#[derive(Debug)]
pub struct InboundMsg {
    pub seg: TcpSegmentOwned,
}

/// A segment from a connection, with the addresses to frame it with.
#[derive(Debug)]
pub struct OutboundMsg {
    pub src_ip: [u8; 4],
    pub dst_ip: [u8; 4],
    pub tcp_bytes: Vec<u8>,
    pub ether_src: [u8; 6],
    pub ether_dst: [u8; 6],
}

#[verifier::ext_equal]
pub ghost struct OutboundView {
    pub src_ip: [u8; 4],
    pub dst_ip: [u8; 4],
    pub tcp_bytes: Seq<u8>,
    pub ether_src: [u8; 6],
    pub ether_dst: [u8; 6],
}

impl View for OutboundMsg {
    type V = OutboundView;

    open spec fn view(&self) -> OutboundView {
        OutboundView {
            src_ip: self.src_ip,
            dst_ip: self.dst_ip,
            tcp_bytes: self.tcp_bytes@,
            ether_src: self.ether_src,
            ether_dst: self.ether_dst,
        }
    }
}

/// What can happen to a connection.
pub enum TaskEvent {
    /// A segment arrived.
    Inbound(InboundMsg),
    /// It is time to look for overdue segments.
    RetransmitTick,
    /// It is time to probe a closed window.
    ProbeTick,
    /// The application wants to send.
    AppSend(Vec<u8>),
    /// The application closes.
    Close,
}

pub ghost enum EventView {
    Inbound(SegmentView),
    RetransmitTick,
    ProbeTick,
    AppSend(Seq<u8>),
    Close,
}

impl View for TaskEvent {
    type V = EventView;

    open spec fn view(&self) -> EventView {
        match self {
            TaskEvent::Inbound(msg) => EventView::Inbound(msg.seg@),
            TaskEvent::RetransmitTick => EventView::RetransmitTick,
            TaskEvent::ProbeTick => EventView::ProbeTick,
            TaskEvent::AppSend(data) => EventView::AppSend(data@),
            TaskEvent::Close => EventView::Close,
        }
    }
}

/// What a step asks for.
pub struct TaskOutput {
    /// The segments to send, in order.
    pub outbound: Vec<OutboundMsg>,
    /// What the application is to receive.
    pub app_data: Option<Vec<u8>>,
    /// Whether the connection is over.
    pub done: bool,
}

/// A connection and whether its application has closed it.
#[verifier::ext_equal]
pub ghost struct TaskView {
    pub conn: ConnView,
    pub close_initiated: bool,
}

/// A connection in the middle of a step: what it has sent and handed to the application so far.
#[verifier::ext_equal]
pub ghost struct StepView {
    pub task: TaskView,
    pub sent: Seq<SegmentFields>,
    pub app_data: Option<Seq<u8>>,
}

/// Sends what the windows allow, segment by segment.
pub open spec fn flushed(c: ConnView, now: Nanos) -> (ConnView, Seq<SegmentFields>)
    decreases c.send.data.len() - distance(c.send.una, c.send.nxt),
    when c.send.data.len() <= SEND_BUF_SIZE
    via flushing_ends
{
    match c.on_send(MSS as nat, now) {
        (next, Some(segment)) => {
            let (end, rest) = flushed(next, now);
            (end, seq![segment] + rest)
        },
        (_, None) => (c, Seq::empty()),
    }
}

#[via_fn]
proof fn flushing_ends(c: ConnView, now: Nanos) {
    match c.on_send(MSS as nat, now) {
        (next, Some(segment)) => {
            sending_advances(c, now);
        },
        (_, None) => {},
    }
}

/// Each segment leaves less to send.
proof fn sending_advances(c: ConnView, now: Nanos)
    requires
        c.send.data.len() <= SEND_BUF_SIZE,
        c.on_send(MSS as nat, now).1 is Some,
    ensures
        ({
            let next = c.on_send(MSS as nat, now).0;
            &&& next.send.data == c.send.data
            &&& distance(c.send.una, c.send.nxt) < distance(next.send.una, next.send.nxt)
                <= c.send.data.len()
        }),
{
    let (seq, payload) = c.send.next_segment(c.allowance(MSS as nat))->0;
    let in_flight = distance(c.send.una, c.send.nxt);
    let n = payload.len() as int;
    ahead_distance(c.send.una, c.send.nxt, in_flight + n);
    ahead_ahead(c.send.una, in_flight, n);
}

/// Hands all received bytes to the application.
pub open spec fn forwarded(c: ConnView) -> (ConnView, Option<Seq<u8>>) {
    match c.recv {
        Some(recv) if recv.data.len() > 0 => (
            ConnView { recv: Some(recv.consumed(recv.data.len())), ..c },
            Some(recv.data),
        ),
        _ => (c, None),
    }
}

pub open spec fn one_or_none(segment: Option<SegmentFields>) -> Seq<SegmentFields> {
    match segment {
        Some(segment) => seq![segment],
        None => Seq::empty(),
    }
}

impl TaskView {
    /// What an event at `now` does, before the clock is looked at.
    pub open spec fn on_event(self, event: EventView, now: Nanos) -> StepView {
        match event {
            EventView::Inbound(seg) => {
                let (heard, answer) = self.conn.on_segment(seg, now);
                let (read, app_data) = forwarded(heard);
                let (conn, data) = flushed(read, now);
                StepView {
                    task: TaskView { conn, ..self },
                    sent: one_or_none(answer) + data,
                    app_data,
                }
            },
            EventView::RetransmitTick => {
                let (conn, sent) = self.conn.on_timeout(now);
                StepView { task: TaskView { conn, ..self }, sent, app_data: None }
            },
            EventView::ProbeTick => {
                StepView { task: self, sent: one_or_none(self.conn.probe()), app_data: None }
            },
            EventView::AppSend(data) => {
                let written = ConnView { send: self.conn.send.written(data), ..self.conn };
                let (conn, sent) = flushed(written, now);
                StepView { task: TaskView { conn, ..self }, sent, app_data: None }
            },
            EventView::Close => {
                if self.close_initiated {
                    StepView { task: self, sent: Seq::empty(), app_data: None }
                } else {
                    let (conn, fin) = self.conn.on_close();
                    StepView {
                        task: TaskView { conn, close_initiated: true },
                        sent: one_or_none(fin),
                        app_data: None,
                    }
                }
            },
        }
    }

    /// What a step at `now` does: the event, and then the end of TIME_WAIT when it has come.
    pub open spec fn step(self, event: EventView, now: Nanos) -> StepView {
        let after = self.on_event(event, now);
        StepView { task: TaskView { conn: after.task.conn.on_tick(now), ..after.task }, ..after }
    }
}

/// The message that carries `segment` between the given hardware addresses.
pub open spec fn message(
    segment: SegmentFields,
    ether_src: [u8; 6],
    ether_dst: [u8; 6],
) -> OutboundView {
    OutboundView {
        src_ip: segment.src_ip,
        dst_ip: segment.dst_ip,
        tcp_bytes: encode(segment),
        ether_src,
        ether_dst,
    }
}

/// The messages that carry `segments`.
pub open spec fn messages(
    segments: Seq<SegmentFields>,
    ether_src: [u8; 6],
    ether_dst: [u8; 6],
) -> Seq<OutboundView> {
    segments.map_values(|s: SegmentFields| message(s, ether_src, ether_dst))
}

pub open spec fn message_views(messages: Seq<OutboundMsg>) -> Seq<OutboundView> {
    messages.map_values(|m: OutboundMsg| m@)
}

/// A connection with its frame addresses.
pub struct ConnectionTask {
    pub conn: Connection,
    pub close_initiated: bool,
    pub ether_src: [u8; 6],
    pub ether_dst: [u8; 6],
}

impl View for ConnectionTask {
    type V = TaskView;

    open spec fn view(&self) -> TaskView {
        TaskView { conn: self.conn@, close_initiated: self.close_initiated }
    }
}

impl TaskOutput {
    /// Whether this is what a step asks for.
    pub open spec fn shows(self, after: StepView, ether_src: [u8; 6], ether_dst: [u8; 6]) -> bool {
        &&& message_views(self.outbound@) == messages(after.sent, ether_src, ether_dst)
        &&& bytes_of(self.app_data) == after.app_data
        &&& self.done == (after.task.conn.tcb.state == TcbState::Closed)
    }
}

impl ConnectionTask {
    /// A task for `conn` whose frames go from `ether_src` to `ether_dst`.
    pub fn new(conn: Connection, ether_src: [u8; 6], ether_dst: [u8; 6]) -> (r: Self)
        ensures
            r@ == (TaskView { conn: conn@, close_initiated: false }),
            r.ether_src == ether_src,
            r.ether_dst == ether_dst,
            r.conn == conn,
    {
        ConnectionTask { conn, close_initiated: false, ether_src, ether_dst }
    }

    /// One step of the connection's life, now.
    pub fn step(&mut self, event: TaskEvent) -> (r: TaskOutput)
        requires
            event@ matches EventView::Inbound(seg) ==> !old(self)@.conn.cannot_grow(seg),
        ensures
            usable_cwnd(old(self).conn.tcb) ==> usable_cwnd(final(self).conn.tcb),
            final(self).ether_src == old(self).ether_src,
            final(self).ether_dst == old(self).ether_dst,
            exists|now: Nanos|
                {
                    let after = #[trigger] old(self)@.step(event@, now);
                    final(self)@ == after.task && r.shows(
                        after,
                        old(self).ether_src,
                        old(self).ether_dst,
                    ) && final(self).conn.clock().read_from(old(self).conn.clock(), now)
                },
    {
        let now: Nanos = self.conn.read_clock();
        self.step_at(event, now)
    }

    /// One step of the connection's life at `now`, a moment on the connection's own clock.
    pub fn step_at(&mut self, event: TaskEvent, now: Nanos) -> (r: TaskOutput)
        requires
            event@ matches EventView::Inbound(seg) ==> !old(self)@.conn.cannot_grow(seg),
        ensures
            final(self).conn.clock() == old(self).conn.clock(),
            usable_cwnd(old(self).conn.tcb) ==> usable_cwnd(final(self).conn.tcb),
            final(self).ether_src == old(self).ether_src,
            final(self).ether_dst == old(self).ether_dst,
            final(self)@ == old(self)@.step(event@, now).task,
            r.shows(old(self)@.step(event@, now), old(self).ether_src, old(self).ether_dst),
    {
        let ghost after = self@.on_event(event@, now);
        let mut outbound: Vec<OutboundMsg> = Vec::new();
        let mut app_data: Option<Vec<u8>> = None;
        proof {
            assert(message_views(outbound@) =~= messages(
                Seq::empty(),
                self.ether_src,
                self.ether_dst,
            ));
        }
        match event {
            TaskEvent::Inbound(msg) => {
                let seg = msg.seg.as_seg();
                let answer = self.conn.process_segment_at(&seg, now);
                let ghost segment = old(self)@.conn.on_segment(msg.seg@, now).1;
                self.emit(&mut outbound, answer, Ghost(Seq::empty()), Ghost(segment));
                app_data = self.forward_received_data();
                self.flush_send_buf(
                    &mut outbound,
                    now,
                    Ghost(Seq::empty() + one_or_none(segment)),
                );
                assert(Seq::empty() + one_or_none(segment) =~= one_or_none(segment));
            },
            TaskEvent::RetransmitTick => {
                let resent = self.conn.take_retransmits_at(now);
                let ghost segments = old(self)@.conn.on_timeout(now).1;
                let ghost all = resent@;
                assert(all_bytes(all).len() == segments.len());
                proof {
                    assert(segments.take(0) =~= Seq::<SegmentFields>::empty());
                    assert forall|j: int| 0 <= j < segments.len() implies (
                    #[trigger] all[j])@ == encode(segments[j]) by {
                        assert(all_bytes(all)[j] == all[j]@);
                    }
                }
                for tcp_bytes in it: resent
                    invariant
                        it.seq() == all,
                        all.len() == segments.len(),
                        forall|j: int|
                            0 <= j < segments.len() ==> (#[trigger] all[j])@ == encode(
                                segments[j],
                            ),
                        forall|j: int|
                            0 <= j < segments.len() ==> (#[trigger] segments[j]).src_ip
                                == self.conn.tcb.local_ip && segments[j].dst_ip
                                == self.conn.tcb.remote_ip,
                        message_views(outbound@) == messages(
                            segments.take(it.index() as int),
                            self.ether_src,
                            self.ether_dst,
                        ),
                {
                    let ghost k = it.index() as int;
                    self.emit(
                        &mut outbound,
                        Some(tcp_bytes),
                        Ghost(segments.take(k)),
                        Ghost(Some(segments[k])),
                    );
                    assert(segments.take(k) + one_or_none(Some(segments[k]))
                        =~= segments.take(k + 1));
                }
                assert(segments.take(segments.len() as int) =~= segments);
            },
            TaskEvent::ProbeTick => {
                let probe = self.conn.zero_window_probe();
                let ghost segment = self@.conn.probe();
                self.emit(&mut outbound, probe, Ghost(Seq::empty()), Ghost(segment));
                assert(Seq::empty() + one_or_none(segment) =~= one_or_none(segment));
            },
            TaskEvent::AppSend(data) => {
                self.conn.write_data(data.as_slice());
                self.flush_send_buf(&mut outbound, now, Ghost(Seq::empty()));
                assert(after.sent =~= Seq::empty() + after.sent);
            },
            TaskEvent::Close => {
                if !self.close_initiated {
                    self.close_initiated = true;
                    let fin = self.conn.initiate_close();
                    let ghost segment = old(self)@.conn.on_close().1;
                    self.emit(&mut outbound, fin, Ghost(Seq::empty()), Ghost(segment));
                    assert(Seq::empty() + one_or_none(segment) =~= one_or_none(segment));
                }
            },
        }
        assert(self@ == after.task);
        self.conn.tick_time_wait(now);
        let done = self.conn.tcb.state == TcbState::Closed;
        TaskOutput { outbound, app_data, done }
    }

    /// Adds the message with `bytes`, if there are any, to what is to be sent.
    fn emit(
        &self,
        outbound: &mut Vec<OutboundMsg>,
        bytes: Option<Vec<u8>>,
        Ghost(before): Ghost<Seq<SegmentFields>>,
        Ghost(segment): Ghost<Option<SegmentFields>>,
    )
        requires
            message_views(old(outbound)@) == messages(before, self.ether_src, self.ether_dst),
            bytes_of(bytes) == encoded(segment),
            segment matches Some(s) ==> s.src_ip == self.conn.tcb.local_ip && s.dst_ip
                == self.conn.tcb.remote_ip,
        ensures
            message_views(final(outbound)@) == messages(
                before + one_or_none(segment),
                self.ether_src,
                self.ether_dst,
            ),
    {
        let ghost added = messages(one_or_none(segment), self.ether_src, self.ether_dst);
        if let Some(tcp_bytes) = bytes {
            outbound.push(
                OutboundMsg {
                    src_ip: self.conn.tcb.local_ip,
                    dst_ip: self.conn.tcb.remote_ip,
                    tcp_bytes,
                    ether_src: self.ether_src,
                    ether_dst: self.ether_dst,
                },
            );
        }
        assert(message_views(outbound@) =~= message_views(old(outbound)@) + added);
        assert(messages(before + one_or_none(segment), self.ether_src, self.ether_dst) =~= messages(
            before,
            self.ether_src,
            self.ether_dst,
        ) + added);
    }

    /// Sends what the windows allow.
    fn flush_send_buf(
        &mut self,
        outbound: &mut Vec<OutboundMsg>,
        now: Nanos,
        Ghost(before): Ghost<Seq<SegmentFields>>,
    )
        requires
            message_views(old(outbound)@) == messages(
                before,
                old(self).ether_src,
                old(self).ether_dst,
            ),
        ensures
            final(self).conn.clock() == old(self).conn.clock(),
            usable_cwnd(old(self).conn.tcb) ==> usable_cwnd(final(self).conn.tcb),
            final(self).ether_src == old(self).ether_src,
            final(self).ether_dst == old(self).ether_dst,
            final(self)@ == (TaskView {
                conn: flushed(old(self)@.conn, now).0,
                ..old(self)@
            }),
            message_views(final(outbound)@) == messages(
                before + flushed(old(self)@.conn, now).1,
                old(self).ether_src,
                old(self).ether_dst,
            ),
    {
        // What is buffered is bounded, and every segment leaves less of it to send.
        let buffered: usize = self.conn.send_buf.buffered();
        assert(buffered <= SEND_BUF_SIZE);
        let ghost mut sent: Seq<SegmentFields> = Seq::empty();
        assert(before + sent =~= before);
        assert(sent + flushed(self@.conn, now).1 =~= flushed(self@.conn, now).1);
        loop
            invariant
                usable_cwnd(old(self).conn.tcb) ==> usable_cwnd(self.conn.tcb),
                self.conn.clock() == old(self).conn.clock(),
                self.ether_src == old(self).ether_src,
                self.ether_dst == old(self).ether_dst,
                self.close_initiated == old(self).close_initiated,
                self@.conn.send.data.len() <= SEND_BUF_SIZE,
                flushed(old(self)@.conn, now).0 == flushed(self@.conn, now).0,
                flushed(old(self)@.conn, now).1 == sent + flushed(self@.conn, now).1,
                message_views(outbound@) == messages(
                    before + sent,
                    self.ether_src,
                    self.ether_dst,
                ),
            decreases
                    self@.conn.send.data.len() - distance(
                        self@.conn.send.una,
                        self@.conn.send.nxt,
                    ),
        {
            let ghost c = self@.conn;
            match self.conn.next_segment_to_send_at(MSS as usize, now) {
                None => {
                    assert(sent + Seq::<SegmentFields>::empty() =~= sent);
                    return;
                },
                Some(tcp_bytes) => {
                    let ghost segment = c.on_send(MSS as nat, now).1;
                    proof {
                        sending_advances(c, now);
                    }
                    self.emit(outbound, Some(tcp_bytes), Ghost(before + sent), Ghost(segment));
                    proof {
                        assert(before + sent + one_or_none(segment) =~= before + (sent
                            + one_or_none(segment)));
                        assert(sent + flushed(c, now).1 =~= sent + one_or_none(segment) + flushed(
                            self@.conn,
                            now,
                        ).1);
                        sent = sent + one_or_none(segment);
                    }
                },
            }
        }
    }

    /// Takes all received bytes out of the connection, for the application.
    fn forward_received_data(&mut self) -> (r: Option<Vec<u8>>)
        ensures
            final(self).conn.clock() == old(self).conn.clock(),
            final(self).conn.tcb == old(self).conn.tcb,
            final(self).ether_src == old(self).ether_src,
            final(self).ether_dst == old(self).ether_dst,
            final(self)@ == (TaskView { conn: forwarded(old(self)@.conn).0, ..old(self)@ }),
            bytes_of(r) == forwarded(old(self)@.conn).1,
    {
        let available: usize = self.conn.received_available();
        if available == 0 {
            return None;
        }
        let mut buf: Vec<u8> = vec![0; available];
        self.conn.read_received(buf.as_mut_slice());
        assert(buf@ =~= (old(self)@.conn.recv->0).data);
        Some(buf)
    }
}

/// Sending what the windows allow does not touch the receiving side or the connection's state.
proof fn flushing_only_sends(c: ConnView, now: Nanos)
    requires
        c.send.data.len() <= SEND_BUF_SIZE,
    ensures
        flushed(c, now).0.recv == c.recv,
        flushed(c, now).0.tcb.rcv == c.tcb.rcv,
        flushed(c, now).0.tcb.state == c.tcb.state,
        flushed(c, now).0.time_wait_start == c.time_wait_start,
    decreases c.send.data.len() - distance(c.send.una, c.send.nxt),
{
    match c.on_send(MSS as nat, now) {
        (next, Some(segment)) => {
            sending_advances(c, now);
            flushing_only_sends(next, now);
        },
        (_, None) => {},
    }
}

/// What the application receives is the peer's stream: a step with a segment that carries any part
/// of it hands over exactly the bytes that follow those handed over before, and leaves none behind.
#[verifier::spinoff_prover]
pub proof fn application_receives_the_stream(
    t: TaskView,
    seg: SegmentView,
    irs: u32,
    stream: Seq<u8>,
    read: int,
    at: int,
    now: Nanos,
)
    requires
        t.conn.tcb.state == TcbState::Established,
        t.conn.send.data.len() <= SEND_BUF_SIZE,
        t.conn.recv is Some,
        receives(t.conn.recv->0, irs, stream, read),
        t.conn.tcb.rcv.nxt == (t.conn.recv->0).nxt,
        carries(irs, stream, at, seg.header.seq, seg.payload),
        -0x8000_0000 < at - (read + (t.conn.recv->0).data.len()) < 0x8000_0000,
    ensures
        ({
            let after = t.step(EventView::Inbound(seg), now);
            let held = after.task.conn.recv->0;
            let n = match after.app_data {
                Some(data) => data.len(),
                None => 0,
            };
            &&& after.task.conn.recv is Some
            &&& after.app_data matches Some(data) ==> data == stream.subrange(read, read + n)
            &&& held.data.len() == 0
            &&& receives(held, irs, stream, read + n)
        }),
{
    established_receives_the_stream(t.conn, seg, irs, stream, read, at, now);
    let heard = t.conn.on_segment(seg, now).0;
    let held = heard.recv->0;
    read_follows_the_stream(held, irs, stream, read, held.data.len());
    assert(held.data.take(held.data.len() as int) =~= held.data);
    let (read_out, app_data) = forwarded(heard);
    assert(read_out.send.data.len() <= SEND_BUF_SIZE);
    flushing_only_sends(read_out, now);
}

/// The application's first close sends our FIN, and a second one does nothing.
pub proof fn close_happens_once(t: TaskView, now: Nanos, later: Nanos)
    ensures
        ({
            let first = t.on_event(EventView::Close, now);
            let second = first.task.on_event(EventView::Close, later);
            &&& first.task.close_initiated
            &&& !t.close_initiated ==> first.sent == one_or_none(t.conn.on_close().1)
            &&& second.task == first.task
            &&& second.sent.len() == 0
        }),
{
}

/// Whether one of `segments` carries `data` under the number `seq`.
pub open spec fn sends_again(segments: Seq<SegmentFields>, seq: u32, data: Seq<u8>) -> bool {
    exists|k: int|
        0 <= k < segments.len() && (#[trigger] segments[k]).seq == seq && segments[k].payload
            == data
}

/// Lost data is sent again in time: a segment whose timeout had passed by an earlier reading of the
/// connection's clock is among those that a retransmission tick sends, under its number and with its
/// bytes.
pub proof fn overdue_data_is_resent(t: TaskView, before: Clock, after: Clock, now: Nanos, i: int)
    requires
        after.read_from(before, now),
        0 <= i < t.conn.rtx.entries.len(),
        t.conn.rtx.entries[i].sent_at + t.conn.rtx.rto <= before.latest(),
    ensures
        sends_again(
            t.step(EventView::RetransmitTick, now).sent,
            t.conn.rtx.entries[i].seq,
            t.conn.rtx.entries[i].data,
        ),
{
    let rtx = t.conn.rtx;
    overdue_segments_are_sent_again(rtx, now, i);
    let e = rtx.entries[i];
    let k = choose|k: int| 0 <= k < rtx.expired(now).len() && rtx.expired(now)[k] == (e.seq, e.data);
    let sent = t.step(EventView::RetransmitTick, now).sent;
    assert(sent[k].seq == e.seq && sent[k].payload == e.data);
}

/// TIME_WAIT ends in time: whatever happens once twice the maximum segment lifetime had passed by an
/// earlier reading of the connection's clock, the connection is over after that step.
#[verifier::spinoff_prover]
pub proof fn time_wait_ends_in_time(
    t: TaskView,
    event: EventView,
    before: Clock,
    after: Clock,
    now: Nanos,
)
    requires
        after.read_from(before, now),
        t.conn.tcb.state == TcbState::TimeWait,
        t.conn.time_wait_start is Some,
        t.conn.time_wait_start->0 + 60_000_000_000 <= before.latest(),
        t.conn.send.data.len() <= SEND_BUF_SIZE,
    ensures
        t.step(event, now).task.conn.tcb.state == TcbState::Closed,
{
    match event {
        EventView::Inbound(seg) => {
            let heard = t.conn.on_segment(seg, now).0;
            hearing_only_frees(t.conn, seg, now);
            flushing_only_sends(forwarded(heard).0, now);
        },
        EventView::AppSend(data) => {
            let written = ConnView { send: t.conn.send.written(data), ..t.conn };
            flushing_only_sends(written, now);
        },
        _ => {},
    }
}

/// No step ends TIME_WAIT early.
#[verifier::spinoff_prover]
pub proof fn time_wait_does_not_end_early(t: TaskView, event: EventView, now: Nanos)
    requires
        t.conn.tcb.state == TcbState::TimeWait,
        t.conn.time_wait_start is Some,
        now < t.conn.time_wait_start->0 + 60_000_000_000,
        t.conn.send.data.len() <= SEND_BUF_SIZE,
    ensures
        t.step(event, now).task.conn.tcb.state == TcbState::TimeWait,
{
    match event {
        EventView::Inbound(seg) => {
            let heard = t.conn.on_segment(seg, now).0;
            hearing_only_frees(t.conn, seg, now);
            flushing_only_sends(forwarded(heard).0, now);
        },
        EventView::AppSend(data) => {
            let written = ConnView { send: t.conn.send.written(data), ..t.conn };
            flushing_only_sends(written, now);
        },
        _ => {},
    }
}

/// What arrives never makes the send buffer longer.
#[verifier::spinoff_prover]
proof fn hearing_only_frees(c: ConnView, seg: SegmentView, now: Nanos)
    ensures
        c.on_segment(seg, now).0.send.data.len() <= c.send.data.len(),
        forwarded(c.on_segment(seg, now).0).0.send == c.on_segment(seg, now).0.send,
{
}

/// What the windows allow is sent at once: after a step in which something arrived, or in which the
/// application sent, no further segment may go out.
#[verifier::spinoff_prover]
pub proof fn nothing_sendable_is_held_back(t: TaskView, event: EventView, now: Nanos)
    requires
        event is Inbound || event is AppSend,
        t.conn.send.data.len() <= SEND_BUF_SIZE,
    ensures
        ({
            let after = t.on_event(event, now).task.conn;
            after.on_send(MSS as nat, now).1 is None
        }),
{
    match event {
        EventView::Inbound(seg) => {
            let heard = t.conn.on_segment(seg, now).0;
            hearing_only_frees(t.conn, seg, now);
            flush_is_complete(forwarded(heard).0, now);
        },
        EventView::AppSend(data) => {
            let written = ConnView { send: t.conn.send.written(data), ..t.conn };
            flush_is_complete(written, now);
        },
        _ => {},
    }
}

proof fn flush_is_complete(c: ConnView, now: Nanos)
    requires
        c.send.data.len() <= SEND_BUF_SIZE,
    ensures
        flushed(c, now).0.on_send(MSS as nat, now).1 is None,
        flushed(c, now).0.send.data == c.send.data,
        flushed(c, now).0.send.una == c.send.una,
    decreases c.send.data.len() - distance(c.send.una, c.send.nxt),
{
    match c.on_send(MSS as nat, now) {
        (next, Some(segment)) => {
            sending_advances(c, now);
            flush_is_complete(next, now);
        },
        (_, None) => {},
    }
}

/// All the bytes in a row of segments.
pub open spec fn payloads(segments: Seq<SegmentFields>) -> Seq<u8>
    decreases segments.len(),
{
    if segments.len() == 0 {
        Seq::empty()
    } else {
        segments[0].payload + payloads(segments.skip(1))
    }
}

/// What the application sends goes behind what it sent before, as far as it fits, and the segments of
/// the step carry the buffered bytes from the first unsent one on, without a gap and in order.
#[verifier::spinoff_prover]
pub proof fn application_data_is_sent_in_order(t: TaskView, data: Seq<u8>, now: Nanos)
    requires
        t.conn.send.data.len() <= SEND_BUF_SIZE,
        distance(t.conn.send.una, t.conn.send.nxt) <= t.conn.send.data.len(),
    ensures
        ({
            let after = t.on_event(EventView::AppSend(data), now);
            let room = SEND_BUF_SIZE - t.conn.send.data.len();
            let taken = if data.len() < room {
                data.len() as int
            } else {
                room
            };
            let in_flight = distance(t.conn.send.una, t.conn.send.nxt);
            let all = payloads(after.sent);
            &&& after.task.conn.send.data == t.conn.send.data + data.take(taken)
            &&& in_flight + all.len() <= after.task.conn.send.data.len()
            &&& all == after.task.conn.send.data.subrange(in_flight, in_flight + all.len())
            &&& after.app_data is None
            &&& after.task.close_initiated == t.close_initiated
        }),
{
    let written = ConnView { send: t.conn.send.written(data), ..t.conn };
    flush_is_complete(written, now);
    flush_carries_the_buffer(written, now);
}

proof fn flush_carries_the_buffer(c: ConnView, now: Nanos)
    requires
        c.send.data.len() <= SEND_BUF_SIZE,
        distance(c.send.una, c.send.nxt) <= c.send.data.len(),
    ensures
        ({
            let in_flight = distance(c.send.una, c.send.nxt);
            let all = payloads(flushed(c, now).1);
            &&& in_flight + all.len() <= c.send.data.len()
            &&& all == c.send.data.subrange(in_flight, in_flight + all.len())
        }),
    decreases c.send.data.len() - distance(c.send.una, c.send.nxt),
{
    let in_flight = distance(c.send.una, c.send.nxt);
    match c.on_send(MSS as nat, now) {
        (next, Some(segment)) => {
            sending_advances(c, now);
            flush_carries_the_buffer(next, now);
            let n = segment.payload.len() as int;
            ahead_distance(c.send.una, c.send.nxt, in_flight + n);
            ahead_ahead(c.send.una, in_flight, n);
            let rest = flushed(next, now).1;
            let sent = flushed(c, now).1;
            assert(sent.skip(1) =~= rest);
            assert(sent[0] == segment);
            assert(payloads(sent) =~= segment.payload + payloads(rest));
            assert(segment.payload =~= c.send.data.subrange(in_flight, in_flight + n));
            assert(payloads(sent) =~= c.send.data.subrange(
                in_flight,
                in_flight + payloads(sent).len(),
            ));
        },
        (_, None) => {
            assert(c.send.data.subrange(in_flight, in_flight) =~= Seq::<u8>::empty());
        },
    }
}

/// The timers do no more than they say: a retransmission tick sends what a timeout sends, a probe tick
/// the probe, and neither hands anything to the application or marks it as closed.
pub proof fn ticks_only_send(t: TaskView, now: Nanos)
    ensures
        ({
            let retransmit = t.on_event(EventView::RetransmitTick, now);
            let probe = t.on_event(EventView::ProbeTick, now);
            &&& retransmit.sent == t.conn.on_timeout(now).1
            &&& retransmit.task.conn == t.conn.on_timeout(now).0
            &&& retransmit.app_data is None && probe.app_data is None
            &&& probe.task == t
            &&& probe.sent.len() == 1 <==> t.conn.probe() is Some
            &&& t.conn.probe() matches Some(s) ==> probe.sent == seq![s]
            &&& t.conn.probe() is None ==> probe.sent.len() == 0
            &&& retransmit.task.close_initiated == t.close_initiated
        }),
{
}

/// The answer to a segment goes out first, before any data of ours.
pub proof fn answer_goes_first(t: TaskView, seg: SegmentView, now: Nanos)
    ensures
        t.conn.on_segment(seg, now).1 matches Some(answer) ==> {
            let sent = t.step(EventView::Inbound(seg), now).sent;
            sent.len() > 0 && sent[0] == answer
        },
{
}


/// A message carries its segment's bytes between its segment's addresses, in a frame from our hardware
/// address to the peer's, and a step's messages are its segments in order.
pub proof fn messages_carry_their_segments(
    segments: Seq<SegmentFields>,
    ether_src: [u8; 6],
    ether_dst: [u8; 6],
    i: int,
)
    requires
        0 <= i < segments.len(),
    ensures
        ({
            let all = messages(segments, ether_src, ether_dst);
            &&& all.len() == segments.len()
            &&& all[i].src_ip == segments[i].src_ip
            &&& all[i].dst_ip == segments[i].dst_ip
            &&& all[i].tcp_bytes == encode(segments[i])
            &&& all[i].ether_src == ether_src
            &&& all[i].ether_dst == ether_dst
        }),
{
}

/// All that can be read goes to the application at once, and nothing is handed over twice.
#[verifier::spinoff_prover]
pub proof fn received_data_is_handed_over(t: TaskView, seg: SegmentView, now: Nanos)
    requires
        t.conn.send.data.len() <= SEND_BUF_SIZE,
    ensures
        ({
            let heard = t.conn.on_segment(seg, now).0;
            let after = t.step(EventView::Inbound(seg), now);
            &&& match heard.recv {
                Some(recv) => {
                    &&& after.task.conn.recv matches Some(left) && left.data.len() == 0 && left.nxt
                        == recv.nxt && left.staged == recv.staged
                    &&& recv.data.len() > 0 ==> after.app_data == Some(recv.data)
                    &&& recv.data.len() == 0 ==> after.app_data is None
                },
                None => after.app_data is None && after.task.conn.recv is None,
            }
            &&& after.task.close_initiated == t.close_initiated
        }),
{
    let heard = t.conn.on_segment(seg, now).0;
    let (read, app_data) = forwarded(heard);
    hearing_only_frees(t.conn, seg, now);
    flushing_only_sends(read, now);
}


/// What the windows allow goes out in segments of 1460 bytes, each the next that may be sent, until none
/// may.
pub proof fn data_goes_out_in_full_segments(c: ConnView, now: Nanos)
    requires
        c.send.data.len() <= SEND_BUF_SIZE,
    ensures
        match c.on_send(1460, now) {
            (next, Some(segment)) => {
                let sent = flushed(c, now).1;
                &&& sent.len() > 0
                &&& sent[0] == segment
                &&& sent.skip(1) == flushed(next, now).1
                &&& flushed(c, now).0 == flushed(next, now).0
            },
            (_, None) => flushed(c, now).1.len() == 0 && flushed(c, now).0 == c,
        },
{
    match c.on_send(1460, now) {
        (next, Some(segment)) => {
            sending_advances(c, now);
            assert(flushed(c, now).1.skip(1) =~= flushed(next, now).1);
        },
        (_, None) => {},
    }
}


} // verus!
