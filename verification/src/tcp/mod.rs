//! TCP: segments, connections, and the demultiplexing of segments to connections.
use std::collections::HashMap;
use vstd::arithmetic::div_mod::lemma_fundamental_div_mod_converse;
use vstd::prelude::*;

use crate::clock::{wall_clock_reads, Clock, Nanos};
use crate::tcp::connection::{encoded, Connection};
use crate::tcp::header::{encode, SegmentView, TcpFlags, TcpSegment};
use crate::tcp::listener::Listener;
use crate::tcp::tcb::{ahead, fresh_tcb, isn_at, Tcb, TcbState};
use crate::tcp::transitions::{fresh_connection, usable_cwnd, ConnView};
use crate::wire::{be32, native_order, read_be32, ByteOrder};

pub mod connection;
pub mod exchange;
pub mod header;
pub mod laws;
pub mod listener;
pub mod recv_buffer;
pub mod retransmit;
pub mod ring;
pub mod send_buffer;
pub mod task;
pub mod tcb;
pub mod transitions;

verus! {

broadcast use vstd::std_specs::hash::group_hash_axioms;

/// What tells one connection from another: both ends' addresses and ports.
#[derive(Debug, Clone, Copy, PartialEq, Eq, Hash)]
pub struct FourTuple {
    pub remote_ip: [u8; 4],
    pub remote_port: u16,
    pub local_ip: [u8; 4],
    pub local_port: u16,
}

spec fn address(ip: [u8; 4]) -> u32 {
    be32(ip[0], ip[1], ip[2], ip[3])
}

/// A four-tuple as one number.
spec fn packed(t: FourTuple) -> u128 {
    (address(t.remote_ip) * 0x1_0000_0000_0000_0000 + t.remote_port * 0x1_0000_0000_0000 + address(
        t.local_ip,
    ) * 0x1_0000 + t.local_port) as u128
}

/// A number has one last digit to a base, and one number in front of it.
proof fn last_digit(high: int, low: int, other_high: int, other_low: int, base: int)
    requires
        0 <= low < base,
        0 <= other_low < base,
        high * base + low == other_high * base + other_low,
    ensures
        high == other_high,
        low == other_low,
{
    lemma_fundamental_div_mod_converse(high * base + low, base, high, low);
    lemma_fundamental_div_mod_converse(high * base + low, base, other_high, other_low);
}

proof fn address_is_injective(a: [u8; 4], b: [u8; 4])
    requires
        address(a) == address(b),
    ensures
        a == b,
{
    let (a2, b2) = (a[0] * 0x100 + a[1], b[0] * 0x100 + b[1]);
    let (a3, b3) = (a2 * 0x100 + a[2], b2 * 0x100 + b[2]);
    last_digit(a3, a[3] as int, b3, b[3] as int, 0x100);
    last_digit(a2, a[2] as int, b2, b[2] as int, 0x100);
    last_digit(a[0] as int, a[1] as int, b[0] as int, b[1] as int, 0x100);
    assert(forall|i: int| 0 <= i < 4 ==> a[i] == b[i]);
    assert(a =~= b);
}

/// Different four-tuples are different numbers.
proof fn packed_is_injective(a: FourTuple, b: FourTuple)
    requires
        packed(a) == packed(b),
    ensures
        a == b,
{
    let (ar, br) = (address(a.remote_ip) as int, address(b.remote_ip) as int);
    let (al, bl) = (address(a.local_ip) as int, address(b.local_ip) as int);
    let (a2, b2) = (ar * 0x1_0000 + a.remote_port, br * 0x1_0000 + b.remote_port);
    let (a3, b3) = (a2 * 0x1_0000_0000 + al, b2 * 0x1_0000_0000 + bl);
    last_digit(a3, a.local_port as int, b3, b.local_port as int, 0x1_0000);
    last_digit(a2, al, b2, bl, 0x1_0000_0000);
    last_digit(ar, a.remote_port as int, br, b.remote_port as int, 0x1_0000);
    address_is_injective(a.remote_ip, b.remote_ip);
    address_is_injective(a.local_ip, b.local_ip);
}

impl FourTuple {
    fn pack(&self) -> (r: u128)
        ensures
            r == packed(*self),
    {
        let remote: u32 = read_be32(
            self.remote_ip[0],
            self.remote_ip[1],
            self.remote_ip[2],
            self.remote_ip[3],
        );
        let local: u32 = read_be32(
            self.local_ip[0],
            self.local_ip[1],
            self.local_ip[2],
            self.local_ip[3],
        );
        remote as u128 * 0x1_0000_0000_0000_0000 + self.remote_port as u128 * 0x1_0000_0000_0000
            + local as u128 * 0x1_0000 + self.local_port as u128
    }
}

/// The connection that a segment from `remote_ip` to `local_ip` belongs to.
pub open spec fn four_tuple(
    remote_ip: [u8; 4],
    local_ip: [u8; 4],
    seg: SegmentView,
) -> FourTuple {
    FourTuple {
        remote_ip,
        remote_port: seg.header.src_port,
        local_ip,
        local_port: seg.header.dst_port,
    }
}

/// Whether a segment with these flags asks for a connection.
#[verifier::allow_in_spec]
pub fn asks_to_connect(flags: TcpFlags) -> bool
    returns
        flags.syn && !flags.ack,
{
    flags.syn && !flags.ack
}

/// A segment to send, with its addresses.
#[derive(Debug)]
pub struct OutboundPacket {
    pub src_ip: [u8; 4],
    pub dst_ip: [u8; 4],
    pub tcp_bytes: Vec<u8>,
}

/// The ports that accept connections, and the connections there are.
#[verifier::ext_equal]
pub ghost struct StackView {
    pub ports: Set<u16>,
    pub connections: Map<FourTuple, ConnView>,
}

impl StackView {
    /// The connection that takes a segment: the one there is, or a new one on a listening port for
    /// a segment that asks for it.
    pub open spec fn receiver(self, key: FourTuple, seg: SegmentView, iss: u32) -> Option<
        ConnView,
    > {
        if self.connections.contains_key(key) {
            Some(self.connections[key])
        } else if asks_to_connect(seg.header.flags) && self.ports.contains(key.local_port) {
            Some(accepted_connection(key, iss))
        } else {
            None
        }
    }

    /// After a segment arrived at `now`; a connection that it opens counts from `iss`.
    pub open spec fn processed(self, key: FourTuple, seg: SegmentView, iss: u32, now: Nanos) -> (
        StackView,
        Option<Seq<u8>>,
    ) {
        match self.receiver(key, seg, iss) {
            Some(conn) => {
                let (next, answer) = conn.on_segment(seg, now);
                (
                    StackView { connections: self.connections.insert(key, next), ..self },
                    encoded(answer),
                )
            },
            None => (self, None),
        }
    }
}

/// A connection under `key` that waits for its SYN and will count from `iss`.
pub open spec fn accepted_connection(key: FourTuple, iss: u32) -> ConnView {
    fresh_connection(
        fresh_tcb(
            TcbState::Listen,
            key.local_ip,
            key.local_port,
            key.remote_ip,
            key.remote_port,
            iss,
        ),
    )
}

/// The initial sequence number of a connection under `key` at the given nanosecond of a second.
pub open spec fn isn_of(key: FourTuple, nanos: u32, order: ByteOrder) -> u32 {
    isn_at(key.local_ip, key.local_port, key.remote_ip, key.remote_port, nanos, order)
}

/// Whether the wall clock was read at that nanosecond, on a machine with that byte order.
pub open spec fn drawn_at(nanos: u32, order: ByteOrder) -> bool {
    native_order(order) && exists|secs: u64| wall_clock_reads(secs, nanos)
}

/// Whether `clock` was started and then read once, as `now`.
pub open spec fn started(clock: Clock, now: Nanos) -> bool {
    exists|fresh: Clock|
        fresh.was_started() && fresh.latest() == 0 && #[trigger] clock.read_from(fresh, now)
}

/// A whole TCP endpoint: listening ports and connections.
pub struct Stack {
    listeners: HashMap<u16, Listener>,
    connections: HashMap<u128, Connection>,
}

impl View for Stack {
    type V = StackView;

    closed spec fn view(&self) -> StackView {
        StackView {
            ports: self.listeners@.dom(),
            connections: Map::new(
                |t: FourTuple| self.connections@.contains_key(packed(t)),
                |t: FourTuple| self.connections@[packed(t)]@,
            ),
        }
    }
}

impl Stack {
    /// Every connection can take segments.
    pub closed spec fn valid(self) -> bool {
        forall|k: u128| #[trigger]
            self.connections@.contains_key(k) ==> usable_cwnd(self.connections@[k].tcb)
    }

    pub fn new() -> (r: Self)
        ensures
            r.valid(),
            r@ == (StackView { ports: Set::empty(), connections: Map::empty() }),
    {
        let r = Stack { listeners: HashMap::new(), connections: HashMap::new() };
        assert(r@.ports =~= Set::<u16>::empty());
        assert(r@.connections =~= Map::<FourTuple, ConnView>::empty());
        r
    }

    pub fn listen(&mut self, port: u16)
        requires
            old(self).valid(),
        ensures
            final(self).valid(),
            final(self)@ == (StackView { ports: old(self)@.ports.insert(port), ..old(self)@ }),
    {
        self.listeners.insert(port, Listener::new(port));
        assert(self@.ports =~= old(self)@.ports.insert(port));
    }

    /// The clock of the connection under `key`.
    pub closed spec fn clock(self, key: FourTuple) -> Clock {
        self.connections@[packed(key)].clock()
    }

    /// Takes a segment that arrives now, by the clock of its connection, and gives back the answer to
    /// send, if any. A new connection draws its initial sequence number and starts its clock.
    pub fn process(
        &mut self,
        remote_ip: [u8; 4],
        local_ip: [u8; 4],
        seg: &TcpSegment<'_>,
    ) -> (r: Option<OutboundPacket>)
        requires
            old(self).valid(),
        ensures
            final(self).valid(),
            exists|nanos: u32, order: ByteOrder, now: Nanos|
                {
                    let key = four_tuple(remote_ip, local_ip, seg@);
                    let (next, answer) = #[trigger] old(self)@.processed(
                        four_tuple(remote_ip, local_ip, seg@),
                        seg@,
                        isn_at(
                            local_ip,
                            seg.header.dst_port,
                            remote_ip,
                            seg.header.src_port,
                            nanos,
                            order,
                        ),
                        now,
                    );
                    &&& nanos < 1_000_000_000
                    &&& final(self)@ == next
                    &&& answers(r, local_ip, remote_ip, answer)
                    &&& old(self)@.connections.contains_key(key) ==> final(self).clock(
                        key,
                    ).read_from(old(self).clock(key), now)
                    &&& !old(self)@.connections.contains_key(key) && next.connections.contains_key(
                        key,
                    ) ==> drawn_at(nanos, order) && started(final(self).clock(key), now)
                },
    {
        let key = FourTuple {
            remote_ip,
            remote_port: seg.header.src_port,
            local_ip,
            local_port: seg.header.dst_port,
        };
        assert(key == four_tuple(remote_ip, local_ip, seg@));
        match self.take_known(key) {
            Some(conn) => {
                let mut conn = conn;
                let now: Nanos = conn.read_clock();
                let ghost iss = isn_of(key, 0, ByteOrder::Big);
                self.deliver(key, conn, seg, now, Ghost(old(self)@), Ghost(iss))
            },
            None => {
                if !self.accepts(key, seg.header.flags) {
                    let ghost iss = isn_of(key, 0, ByteOrder::Big);
                    assert(old(self)@.processed(key, seg@, iss, 0) == (
                        old(self)@,
                        None::<Seq<u8>>,
                    ));
                    return None;
                }
                let (conn, now) = Self::accepted(key);
                let ghost (nanos, order) = choose|nanos: u32, order: ByteOrder|
                    nanos < 1_000_000_000 && drawn_at(nanos, order) && conn.tcb.snd.iss
                        == #[trigger] isn_of(key, nanos, order);
                let ghost iss = isn_of(key, nanos, order);
                self.deliver(key, conn, seg, now, Ghost(old(self)@), Ghost(iss))
            },
        }
    }

    /// A new connection under `key`, and what its clock shows.
    fn accepted(key: FourTuple) -> (r: (Connection, Nanos))
        ensures
            usable_cwnd(r.0.tcb),
            r.0@ == accepted_connection(key, r.0.tcb.snd.iss),
            exists|nanos: u32, order: ByteOrder|
                nanos < 1_000_000_000 && drawn_at(nanos, order) && r.0.tcb.snd.iss
                    == #[trigger] isn_of(key, nanos, order),
            started(r.0.clock(), r.1),
    {
        let tcb = Tcb::new_for_listen(
            key.local_ip,
            key.local_port,
            key.remote_ip,
            key.remote_port,
        );
        proof {
            let (secs, nanos, order) = choose|secs: u64, nanos: u32, order: ByteOrder|
                #[trigger] wall_clock_reads(secs, nanos) && nanos < 1_000_000_000 && native_order(
                    order,
                ) && tcb.snd.iss == #[trigger] isn_at(
                    key.local_ip,
                    key.local_port,
                    key.remote_ip,
                    key.remote_port,
                    nanos,
                    order,
                );
            assert(tcb.snd.iss == isn_of(key, nanos, order));
            assert(drawn_at(nanos, order));
        }
        let mut conn = Connection::new(tcb);
        let ghost fresh = conn.clock();
        let now: Nanos = conn.read_clock();
        assert(conn.clock().read_from(fresh, now));
        (conn, now)
    }

    /// Takes a segment that arrives at `now`, and gives back the answer to send, if any. A
    /// connection that the segment opens counts from `iss`.
    pub fn process_at(
        &mut self,
        remote_ip: [u8; 4],
        local_ip: [u8; 4],
        seg: &TcpSegment<'_>,
        iss: u32,
        now: Nanos,
    ) -> (r: Option<OutboundPacket>)
        requires
            old(self).valid(),
        ensures
            final(self).valid(),
            final(self)@ == old(self)@.processed(
                four_tuple(remote_ip, local_ip, seg@),
                seg@,
                iss,
                now,
            ).0,
            answers(
                r,
                local_ip,
                remote_ip,
                old(self)@.processed(four_tuple(remote_ip, local_ip, seg@), seg@, iss, now).1,
            ),
    {
        let key = FourTuple {
            remote_ip,
            remote_port: seg.header.src_port,
            local_ip,
            local_port: seg.header.dst_port,
        };
        match self.take_known(key) {
            Some(conn) => self.deliver(key, conn, seg, now, Ghost(old(self)@), Ghost(iss)),
            None => {
                if !self.accepts(key, seg.header.flags) {
                    return None;
                }
                let tcb = Tcb::with_iss(
                    TcbState::Listen,
                    local_ip,
                    key.local_port,
                    remote_ip,
                    key.remote_port,
                    iss,
                );
                self.deliver(
                    key,
                    Connection::new(tcb),
                    seg,
                    now,
                    Ghost(old(self)@),
                    Ghost(iss),
                )
            },
        }
    }

    /// Takes out the connection under `key`, if there is one.
    fn take_known(&mut self, key: FourTuple) -> (r: Option<Connection>)
        requires
            old(self).valid(),
        ensures
            final(self).valid(),
            final(self)@.ports == old(self)@.ports,
            final(self)@.connections == old(self)@.connections.remove(key),
            match r {
                Some(conn) => usable_cwnd(conn.tcb) && old(self)@.connections.contains_key(key)
                    && old(self)@.connections[key] == conn@ && conn.clock() == old(self).clock(
                    key,
                ),
                None => !old(self)@.connections.contains_key(key) && final(self)@ == old(self)@,
            },
    {
        let packed_key: u128 = key.pack();
        let taken = self.connections.remove(&packed_key);
        proof {
            assert forall|t: FourTuple| packed(t) == packed(key) implies t == key by {
                packed_is_injective(t, key);
            }
            assert(self@.connections =~= old(self)@.connections.remove(key));
            if taken is None {
                assert(self@.connections =~= old(self)@.connections);
            }
        }
        taken
    }

    /// Whether a segment with these flags opens a connection under `key`.
    fn accepts(&self, key: FourTuple, flags: TcpFlags) -> (r: bool)
        ensures
            r == (asks_to_connect(flags) && self@.ports.contains(key.local_port)),
    {
        asks_to_connect(flags) && self.listeners.contains_key(&key.local_port)
    }

    /// Hands a segment to the connection that was taken out for it, and puts it back.
    fn deliver(
        &mut self,
        key: FourTuple,
        conn: Connection,
        seg: &TcpSegment<'_>,
        now: Nanos,
        Ghost(before): Ghost<StackView>,
        Ghost(iss): Ghost<u32>,
    ) -> (r: Option<OutboundPacket>)
        requires
            old(self).valid(),
            usable_cwnd(conn.tcb),
            before.receiver(key, seg@, iss) == Some(conn@),
            old(self)@.ports == before.ports,
            old(self)@.connections == before.connections.remove(key),
        ensures
            final(self).valid(),
            final(self)@ == before.processed(key, seg@, iss, now).0,
            answers(
                r,
                key.local_ip,
                key.remote_ip,
                before.processed(key, seg@, iss, now).1,
            ),
            final(self).clock(key) == conn.clock(),
    {
        let mut conn = conn;
        let answer = conn.process_segment_at(seg, now);
        let ghost served = conn;
        let packed_key: u128 = key.pack();
        self.connections.insert(packed_key, conn);
        assert(self.connections@ == old(self).connections@.insert(packed_key, served));
        proof {
            assert forall|t: FourTuple| packed(t) == packed(key) implies t == key by {
                packed_is_injective(t, key);
            }
            assert forall|t: FourTuple| t != key implies #[trigger] self@.connections.contains_key(t)
                == before.connections.contains_key(t) && (self@.connections.contains_key(t)
                ==> self@.connections[t] == before.connections[t]) by {
                assert(packed(t) != packed(key));
                let rest = before.connections.remove(key);
                assert(rest.contains_key(t) == before.connections.contains_key(t));
                assert(old(self)@.connections.contains_key(t) == rest.contains_key(t));
                assert(self@.connections.contains_key(t) == old(self)@.connections.contains_key(t));
                if rest.contains_key(t) {
                    assert(rest[t] == before.connections[t]);
                    assert(old(self)@.connections[t] == rest[t]);
                }
            }
            assert(self@.connections =~= before.connections.insert(key, served@));
        }
        match answer {
            Some(tcp_bytes) => Some(
                OutboundPacket { src_ip: key.local_ip, dst_ip: key.remote_ip, tcp_bytes },
            ),
            None => None,
        }
    }
}

/// Whether `packet` carries exactly `answer`, from our address back to where the segment came from.
pub open spec fn answers(
    packet: Option<OutboundPacket>,
    src_ip: [u8; 4],
    dst_ip: [u8; 4],
    answer: Option<Seq<u8>>,
) -> bool {
    match (packet, answer) {
        (Some(packet), Some(bytes)) => packet.src_ip == src_ip && packet.dst_ip == dst_ip
            && packet.tcp_bytes@ == bytes,
        (None, None) => true,
        _ => false,
    }
}

impl Default for Stack {
    fn default() -> (r: Self)
        ensures
            r.valid(),
            r@ == (StackView { ports: Set::empty(), connections: Map::empty() }),
    {
        Stack::new()
    }
}

/// A segment for no known connection is dropped without an answer, unless it asks for a connection
/// on a listening port.
pub proof fn strangers_are_dropped(
    s: StackView,
    key: FourTuple,
    seg: SegmentView,
    iss: u32,
    now: Nanos,
)
    requires
        !s.connections.contains_key(key),
        !(asks_to_connect(seg.header.flags) && s.ports.contains(key.local_port)),
    ensures
        s.processed(key, seg, iss, now) == (s, None::<Seq<u8>>),
{
}

/// A segment only ever touches the connection it belongs to, and never the listening ports.
pub proof fn connections_are_isolated(
    s: StackView,
    key: FourTuple,
    seg: SegmentView,
    iss: u32,
    now: Nanos,
    other: FourTuple,
)
    requires
        other != key,
    ensures
        ({
            let next = s.processed(key, seg, iss, now).0;
            &&& next.ports == s.ports
            &&& next.connections.contains_key(other) == s.connections.contains_key(other)
            &&& s.connections.contains_key(other) ==> next.connections[other]
                == s.connections[other]
        }),
{
}

/// A SYN on a listening port is answered with a SYN-ACK from the new connection, and the
/// acknowledgment of that establishes it.
pub proof fn listening_port_accepts(
    s: StackView,
    key: FourTuple,
    syn: SegmentView,
    ack: SegmentView,
    iss: u32,
    t1: Nanos,
    t2: Nanos,
)
    requires
        !s.connections.contains_key(key),
        s.ports.contains(key.local_port),
        asks_to_connect(syn.header.flags) && !syn.header.flags.rst,
        ack.header.flags.ack && !ack.header.flags.rst,
        ack.header.ack_num == ahead(iss, 1),
    ensures
        ({
            let (s1, answer1) = s.processed(key, syn, iss, t1);
            let (s2, answer2) = s1.processed(key, ack, iss, t2);
            let heard = s1.connections[key];
            &&& answer1 == Some(encode(heard.syn_ack_segment()))
            &&& heard.tcb.rcv.nxt == ahead(syn.header.seq, 1)
            &&& answer2 is None
            &&& s2.connections[key].tcb.state == TcbState::Established
        }),
{
}

/// What to do with a segment.
#[derive(Debug, Clone, Copy, PartialEq, Eq, Structural)]
pub enum Route {
    /// Hand it to the task of its connection.
    Forward,
    /// Start a task for a new connection and hand it to that.
    Open,
    /// Drop it.
    Discard,
}

/// What became of a segment that was handed to a task.
#[derive(Debug, Clone, Copy, PartialEq, Eq, Structural)]
pub enum Delivery {
    /// The task will take it.
    Accepted,
    /// The task has too much to do already.
    Full,
    /// The task is over.
    Gone,
}

/// The ports that accept connections, and the connections that have a task.
#[verifier::ext_equal]
pub ghost struct DispatchView {
    pub ports: Set<u16>,
    pub tasks: Set<FourTuple>,
}

impl DispatchView {
    pub open spec fn route(self, key: FourTuple, flags: TcpFlags) -> Route {
        if self.tasks.contains(key) {
            Route::Forward
        } else if asks_to_connect(flags) && self.ports.contains(key.local_port) {
            Route::Open
        } else {
            Route::Discard
        }
    }
}

/// Which segment goes to which connection's task.
pub struct DispatchTable {
    listeners: HashMap<u16, Listener>,
    tasks: HashMap<u128, FourTuple>,
}

impl View for DispatchTable {
    type V = DispatchView;

    closed spec fn view(&self) -> DispatchView {
        DispatchView {
            ports: self.listeners@.dom(),
            tasks: Set::new(|t: FourTuple| self.tasks@.contains_key(packed(t))),
        }
    }
}

impl DispatchTable {
    pub fn new() -> (r: Self)
        ensures
            r@ == (DispatchView { ports: Set::empty(), tasks: Set::empty() }),
    {
        let r = DispatchTable { listeners: HashMap::new(), tasks: HashMap::new() };
        assert(r@.ports =~= Set::<u16>::empty());
        assert(r@.tasks =~= Set::<FourTuple>::empty());
        r
    }

    pub fn listen(&mut self, port: u16)
        ensures
            final(self)@ == (DispatchView { ports: old(self)@.ports.insert(port), ..old(self)@ }),
    {
        self.listeners.insert(port, Listener::new(port));
        assert(self@.ports =~= old(self)@.ports.insert(port));
    }

    /// What to do with a segment of the connection `key`. A connection that is to be opened counts
    /// as having a task from then on.
    pub fn route(&mut self, key: FourTuple, flags: TcpFlags) -> (r: Route)
        ensures
            r == old(self)@.route(key, flags),
            final(self)@ == (if r == Route::Open {
                DispatchView { tasks: old(self)@.tasks.insert(key), ..old(self)@ }
            } else {
                old(self)@
            }),
    {
        let packed_key: u128 = key.pack();
        if self.tasks.contains_key(&packed_key) {
            return Route::Forward;
        }
        if asks_to_connect(flags) && self.listeners.contains_key(&key.local_port) {
            self.tasks.insert(packed_key, key);
            proof {
                assert forall|t: FourTuple| packed(t) == packed(key) implies t == key by {
                    packed_is_injective(t, key);
                }
                assert(self@.tasks =~= old(self)@.tasks.insert(key));
            }
            return Route::Open;
        }
        Route::Discard
    }

    /// Takes note of what became of a segment: a connection whose task is over is forgotten. A
    /// segment for a task that has too much to do is lost, and nothing else.
    pub fn settle(&mut self, key: FourTuple, outcome: Delivery)
        ensures
            final(self)@ == (if outcome == Delivery::Gone {
                DispatchView { tasks: old(self)@.tasks.remove(key), ..old(self)@ }
            } else {
                old(self)@
            }),
    {
        if outcome == Delivery::Gone {
            let packed_key: u128 = key.pack();
            self.tasks.remove(&packed_key);
            proof {
                assert forall|t: FourTuple| packed(t) == packed(key) implies t == key by {
                    packed_is_injective(t, key);
                }
                assert(self@.tasks =~= old(self)@.tasks.remove(key));
            }
        }
    }
}

/// The first SYN of a connection on a listening port opens it, what follows goes to its task, and
/// once the task is gone the same connection can be opened again.
pub proof fn connection_tasks_come_and_go(
    d: DispatchView,
    key: FourTuple,
    syn: TcpFlags,
    flags: TcpFlags,
)
    requires
        !d.tasks.contains(key),
        d.ports.contains(key.local_port),
        asks_to_connect(syn),
    ensures
        ({
            let opened = DispatchView { tasks: d.tasks.insert(key), ..d };
            let evicted = DispatchView { tasks: opened.tasks.remove(key), ..opened };
            &&& d.route(key, syn) == Route::Open
            &&& opened.route(key, flags) == Route::Forward
            &&& evicted.route(key, syn) == Route::Open
        }),
{
}

/// A segment for a known connection is that connection's alone: it takes it as it would by itself, and
/// its answer is what goes out.
pub proof fn known_connection_takes_its_segment(
    s: StackView,
    key: FourTuple,
    seg: SegmentView,
    iss: u32,
    now: Nanos,
)
    requires
        s.connections.contains_key(key),
    ensures
        ({
            let (next, answer) = s.processed(key, seg, iss, now);
            let (conn, segment) = s.connections[key].on_segment(seg, now);
            &&& next.connections.contains_key(key)
            &&& next.connections[key] == conn
            &&& answer is Some <==> segment is Some
            &&& segment matches Some(f) ==> answer == Some(encode(f))
        }),
{
}

/// A new connection is between the ends that its first segment names, and counts from the number
/// drawn for it.
pub proof fn new_connection_has_its_ends(
    s: StackView,
    key: FourTuple,
    seg: SegmentView,
    iss: u32,
    now: Nanos,
)
    requires
        !s.connections.contains_key(key),
    ensures
        ({
            let next = s.processed(key, seg, iss, now).0;
            let opens = seg.header.flags.syn && !seg.header.flags.ack && s.ports.contains(
                key.local_port,
            );
            &&& next.connections.contains_key(key) <==> opens
            &&& opens ==> {
                let tcb = next.connections[key].tcb;
                &&& tcb.local_ip == key.local_ip && tcb.local_port == key.local_port
                &&& tcb.remote_ip == key.remote_ip && tcb.remote_port == key.remote_port
                &&& tcb.snd.iss == iss
            }
        }),
{
}

/// A segment belongs to the connection from where it came to where it went.
pub proof fn segments_name_their_connection(
    remote_ip: [u8; 4],
    local_ip: [u8; 4],
    seg: SegmentView,
)
    ensures
        ({
            let key = four_tuple(remote_ip, local_ip, seg);
            &&& key.remote_ip == remote_ip && key.local_ip == local_ip
            &&& key.remote_port == seg.header.src_port
            &&& key.local_port == seg.header.dst_port
        }),
{
}


/// Where a segment goes: to the task of its connection if it has one; to a new task if it asks for a
/// connection, with a SYN alone, on a listening port; nowhere otherwise.
pub proof fn segments_go_where_they_belong(d: DispatchView, key: FourTuple, flags: TcpFlags)
    ensures
        d.route(key, flags) == Route::Forward <==> d.tasks.contains(key),
        d.route(key, flags) == Route::Open <==> !d.tasks.contains(key) && flags.syn && !flags.ack
            && d.ports.contains(key.local_port),
        d.route(key, flags) == Route::Discard <==> !d.tasks.contains(key) && !(flags.syn
            && !flags.ack && d.ports.contains(key.local_port)),
{
}


} // verus!
