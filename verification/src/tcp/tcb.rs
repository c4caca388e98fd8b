//! The transmission control block: connection states, sequence numbers and their order.
use std::collections::hash_map::DefaultHasher;
use std::hash::Hasher;
use vstd::prelude::*;
use vstd::std_specs::hash::DefaultHasherAdditionalSpecFns;

use crate::clock::{wall_clock, wall_clock_reads};
use crate::tcp::retransmit::MSS;
use crate::wire::{
    be16_bytes, be32_bytes, in_order, native_order, push_u16_in_order, push_u32_in_order, this_order,
    ByteOrder,
};

verus! {

#[derive(Debug, Clone, Copy, PartialEq, Eq, Structural)]
pub enum TcbState {
    Listen,
    SynSent,
    SynReceived,
    Established,
    FinWait1,
    FinWait2,
    CloseWait,
    Closing,
    LastAck,
    TimeWait,
    Closed,
}

#[derive(Debug, Clone, Copy)]
pub struct SendSequence {
    pub una: u32,
    pub nxt: u32,
    pub wnd: u16,
    pub iss: u32,
}

#[derive(Debug, Clone, Copy)]
pub struct RecvSequence {
    pub nxt: u32,
    pub wnd: u16,
    pub irs: u32,
}

#[derive(Debug, Clone, Copy)]
pub struct Tcb {
    pub state: TcbState,
    pub local_ip: [u8; 4],
    pub local_port: u16,
    pub remote_ip: [u8; 4],
    pub remote_port: u16,
    pub snd: SendSequence,
    pub rcv: RecvSequence,
    pub cwnd: u32,
    pub ssthresh: u32,
    pub dup_ack_count: u8,
}

/// How many steps lead from the sequence number `a` forward to `b`, around the 32-bit circle.
pub open spec fn distance(a: u32, b: u32) -> int {
    if a <= b {
        b - a
    } else {
        b - a + 0x1_0000_0000
    }
}

/// The sequence number `n` steps ahead of `a`.
pub open spec fn ahead(a: u32, n: int) -> u32 {
    ((a + n) % 0x1_0000_0000) as u32
}

/// Whether `a` comes before `b`: `b` is less than half the circle ahead.
#[verifier::allow_in_spec]
pub fn seq_lt(a: u32, b: u32) -> bool
    returns
        0 < distance(a, b) < 0x8000_0000,
{
    a != b && b.wrapping_sub(a) < 0x8000_0000
}

#[verifier::allow_in_spec]
pub fn seq_le(a: u32, b: u32) -> bool
    returns
        distance(a, b) < 0x8000_0000,
{
    a == b || seq_lt(a, b)
}

/// Whether `ack` acknowledges something that is in flight: it lies beyond `una` and not beyond
/// `nxt`.
#[verifier::allow_in_spec]
pub fn ack_acceptable(una: u32, ack: u32, nxt: u32) -> bool
    returns
        seq_lt(una, ack) && seq_le(ack, nxt),
{
    seq_lt(una, ack) && seq_le(ack, nxt)
}

/// The sequence number `n` steps ahead of `a`.
pub fn seq_ahead(a: u32, n: usize) -> (r: u32)
    ensures
        r == ahead(a, n as int),
{
    a.wrapping_add((n as u64 % 0x1_0000_0000) as u32)
}

/// Going ahead by the distance to a number arrives at it, and the distance to a number `n` steps
/// ahead is `n` while `n` is less than the whole circle.
pub proof fn ahead_distance(a: u32, b: u32, n: int)
    requires
        0 <= n < 0x1_0000_0000,
    ensures
        ahead(a, distance(a, b)) == b,
        distance(a, ahead(a, n)) == n,
{
}

/// Steps add up.
pub proof fn ahead_ahead(a: u32, m: int, n: int)
    ensures
        ahead(ahead(a, m), n) == ahead(a, m + n),
{
}

/// No number comes before itself, no two numbers come before each other, and of two different
/// numbers one comes before the other unless they lie exactly half the circle apart.
pub proof fn seq_lt_is_an_order(a: u32, b: u32)
    ensures
        !seq_lt(a, a),
        !(seq_lt(a, b) && seq_lt(b, a)),
        a != b && distance(a, b) != 0x8000_0000 ==> seq_lt(a, b) || seq_lt(b, a),
        seq_le(a, b) <==> a == b || seq_lt(a, b),
{
}

/// The order of sequence numbers does not change when both move ahead by the same number of steps,
/// through the wraparound or not.
pub proof fn seq_lt_is_invariant(a: u32, b: u32, n: int)
    requires
        0 <= n,
    ensures
        seq_lt(ahead(a, n), ahead(b, n)) == seq_lt(a, b),
        distance(ahead(a, n), ahead(b, n)) == distance(a, b),
{
}

/// With less than half the circle in flight, an acknowledgment is acceptable exactly when it covers
/// at least one byte of what is in flight and nothing beyond it.
pub proof fn ack_acceptable_range(una: u32, ack: u32, nxt: u32)
    requires
        distance(una, nxt) < 0x8000_0000,
    ensures
        ack_acceptable(una, ack, nxt) <==> 0 < distance(una, ack) <= distance(una, nxt),
{
}

/// The block of a connection that has exchanged nothing yet and will count from `iss`.
pub open spec fn fresh_tcb(
    state: TcbState,
    local_ip: [u8; 4],
    local_port: u16,
    remote_ip: [u8; 4],
    remote_port: u16,
    iss: u32,
) -> Tcb {
    Tcb {
        state,
        local_ip,
        local_port,
        remote_ip,
        remote_port,
        snd: SendSequence { una: iss, nxt: iss, wnd: 65535, iss },
        rcv: RecvSequence { nxt: 0, wnd: 65535, irs: 0 },
        cwnd: MSS,
        ssthresh: 65535,
        dup_ack_count: 0,
    }
}

/// The length of an address as a number of the machine's word size, which goes before the address.
pub open spec fn address_length(order: ByteOrder) -> Seq<u8> {
    in_order(Seq::new((usize::BITS / 8 - 1) as nat, |i: int| 0u8).push(4), order)
}

/// The initial sequence number drawn for a connection at the given nanosecond of a second: the low
/// half of the hash of both ends and the time, each value fed to the hasher in the machine's own
/// byte order, and each address behind its length.
pub open spec fn isn_at(
    local_ip: [u8; 4],
    local_port: u16,
    remote_ip: [u8; 4],
    remote_port: u16,
    nanos: u32,
    order: ByteOrder,
) -> u32 {
    let hash = DefaultHasher::spec_finish(
        seq![
            address_length(order),
            local_ip@,
            in_order(be16_bytes(local_port), order),
            address_length(order),
            remote_ip@,
            in_order(be16_bytes(remote_port), order),
            in_order(be32_bytes(nanos), order),
        ],
    );
    (hash % 0x1_0000_0000) as u32
}

impl Tcb {
    /// The block of a connection that has exchanged nothing yet and will count from `iss`.
    pub fn with_iss(
        state: TcbState,
        local_ip: [u8; 4],
        local_port: u16,
        remote_ip: [u8; 4],
        remote_port: u16,
        iss: u32,
    ) -> (r: Self)
        ensures
            r == fresh_tcb(state, local_ip, local_port, remote_ip, remote_port, iss),
    {
        Tcb {
            state,
            local_ip,
            local_port,
            remote_ip,
            remote_port,
            snd: SendSequence { una: iss, nxt: iss, wnd: 65535, iss },
            rcv: RecvSequence { nxt: 0, wnd: 65535, irs: 0 },
            cwnd: MSS,
            ssthresh: 65535,
            dup_ack_count: 0,
        }
    }

    pub fn new_for_listen(
        local_ip: [u8; 4],
        local_port: u16,
        remote_ip: [u8; 4],
        remote_port: u16,
    ) -> (r: Self)
        ensures
            r == fresh_tcb(
                TcbState::Listen,
                local_ip,
                local_port,
                remote_ip,
                remote_port,
                r.snd.iss,
            ),
            exists|secs: u64, nanos: u32, order: ByteOrder|
                #[trigger] wall_clock_reads(secs, nanos) && nanos < 1_000_000_000 && native_order(
                    order,
                ) && r.snd.iss == #[trigger] isn_at(
                    local_ip,
                    local_port,
                    remote_ip,
                    remote_port,
                    nanos,
                    order,
                ),
    {
        let iss: u32 = generate_isn(local_ip, local_port, remote_ip, remote_port);
        Tcb::with_iss(TcbState::Listen, local_ip, local_port, remote_ip, remote_port, iss)
    }

    pub fn new_for_connect(
        local_ip: [u8; 4],
        local_port: u16,
        remote_ip: [u8; 4],
        remote_port: u16,
    ) -> (r: Self)
        ensures
            r == fresh_tcb(
                TcbState::Closed,
                local_ip,
                local_port,
                remote_ip,
                remote_port,
                r.snd.iss,
            ),
            exists|secs: u64, nanos: u32, order: ByteOrder|
                #[trigger] wall_clock_reads(secs, nanos) && nanos < 1_000_000_000 && native_order(
                    order,
                ) && r.snd.iss == #[trigger] isn_at(
                    local_ip,
                    local_port,
                    remote_ip,
                    remote_port,
                    nanos,
                    order,
                ),
    {
        let iss: u32 = generate_isn(local_ip, local_port, remote_ip, remote_port);
        Tcb::with_iss(TcbState::Closed, local_ip, local_port, remote_ip, remote_port, iss)
    }
}

/// An initial sequence number drawn now.
fn generate_isn(local_ip: [u8; 4], local_port: u16, remote_ip: [u8; 4], remote_port: u16) -> (r:
    u32)
    ensures
        exists|secs: u64, nanos: u32, order: ByteOrder|
            #[trigger] wall_clock_reads(secs, nanos) && nanos < 1_000_000_000 && native_order(
                    order,
                ) && r == #[trigger] isn_at(
                local_ip,
                local_port,
                remote_ip,
                remote_port,
                nanos,
                order,
            ),
{
    let order = this_order();
    let (secs, nanos) = wall_clock();
    isn_for(local_ip, local_port, remote_ip, remote_port, nanos, order)
}

/// The initial sequence number for a connection at the given nanosecond of a second, on a machine
/// with the given byte order.
pub fn isn_for(
    local_ip: [u8; 4],
    local_port: u16,
    remote_ip: [u8; 4],
    remote_port: u16,
    nanos: u32,
    order: ByteOrder,
) -> (r: u32)
    ensures
        r == isn_at(local_ip, local_port, remote_ip, remote_port, nanos, order),
{
    let length = address_length_bytes(order);
    let mut local: Vec<u8> = Vec::new();
    push_u16_in_order(&mut local, local_port, order);
    let mut remote: Vec<u8> = Vec::new();
    push_u16_in_order(&mut remote, remote_port, order);
    let mut time: Vec<u8> = Vec::new();
    push_u32_in_order(&mut time, nanos, order);
    let mut hasher = DefaultHasher::new();
    hasher.write(length.as_slice());
    hasher.write(&local_ip);
    hasher.write(local.as_slice());
    hasher.write(length.as_slice());
    hasher.write(&remote_ip);
    hasher.write(remote.as_slice());
    hasher.write(time.as_slice());
    proof {
        assert(local@ =~= in_order(be16_bytes(local_port), order));
        assert(remote@ =~= in_order(be16_bytes(remote_port), order));
        assert(time@ =~= in_order(be32_bytes(nanos), order));
        assert(hasher@ =~= seq![
            address_length(order),
            local_ip@,
            in_order(be16_bytes(local_port), order),
            address_length(order),
            remote_ip@,
            in_order(be16_bytes(remote_port), order),
            in_order(be32_bytes(nanos), order),
        ]);
    }
    (hasher.finish() % 0x1_0000_0000) as u32
}

fn address_length_bytes(order: ByteOrder) -> (r: Vec<u8>)
    ensures
        r@ == address_length(order),
{
    let width: u32 = usize::BITS / 8;
    let mut out: Vec<u8> = Vec::new();
    let mut i: u32 = 0;
    while i < width
        invariant
            i <= width,
            width == usize::BITS / 8,
            width == 4 || width == 8,
            out@.len() == i,
            forall|k: int| 0 <= k < i ==> out@[k] == address_length(order)[k],
        decreases width - i,
    {
        let at_end = match order {
            ByteOrder::Big => i == width - 1,
            ByteOrder::Little => i == 0,
        };
        out.push(if at_end { 4 } else { 0 });
        i = i + 1;
    }
    assert(out@ =~= address_length(order));
    out
}

} // verus!
