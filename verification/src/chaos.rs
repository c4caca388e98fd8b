//! Faults on purpose: outgoing frames are dropped, delayed and put out of order.
use std::collections::VecDeque;
use vstd::prelude::*;

use crate::clock::{Nanos, NANOS_PER_MILLI};

verus! {

/// The rate of what always happens. Rates are counted in units of its inverse.
pub const RATE_ONE: u64 = 0x20_0000_0000_0000;

/// How often frames are dropped and held back, and how long they are delayed at most.
#[derive(Debug, Clone, Copy)]
pub struct ChaosConfig {
    pub drop_rate: u64,
    pub reorder_rate: u64,
    pub max_jitter_ms: u64,
}

impl ChaosConfig {
    /// Only drops, at the given rate or always.
    pub fn packet_loss(rate: u64) -> (r: Self)
        ensures
            r == (ChaosConfig {
                drop_rate: if rate < RATE_ONE {
                    rate
                } else {
                    RATE_ONE
                },
                reorder_rate: 0,
                max_jitter_ms: 0,
            }),
    {
        let drop_rate: u64 = if rate < RATE_ONE { rate } else { RATE_ONE };
        ChaosConfig { drop_rate, reorder_rate: 0, max_jitter_ms: 0 }
    }

    /// Whether any fault is to be made.
    pub fn is_active(&self) -> (r: bool)
        ensures
            r == (self.drop_rate > 0 || self.reorder_rate > 0 || self.max_jitter_ms > 0),
    {
        self.drop_rate > 0 || self.reorder_rate > 0 || self.max_jitter_ms > 0
    }

    /// No faults.
    pub fn none() -> (r: Self)
        ensures
            r == (ChaosConfig { drop_rate: 0, reorder_rate: 0, max_jitter_ms: 0 }),
    {
        ChaosConfig { drop_rate: 0, reorder_rate: 0, max_jitter_ms: 0 }
    }
}

/// The number that the xorshift64 generator draws after `x`.
pub open spec fn xorshift64(x: u64) -> u64 {
    let a = x ^ (x << 13u64);
    let b = a ^ (a >> 7u64);
    b ^ (b << 17u64)
}

/// Whether what happens at `rate` happens on the number `draw`, whose top 53 bits decide.
pub open spec fn hits(draw: u64, rate: u64) -> bool {
    (draw >> 11u64) < rate
}

/// A frame that is held back until a moment.
#[verifier::ext_equal]
pub ghost struct DelayedView {
    pub bytes: Seq<u8>,
    pub release: Nanos,
}

/// How many frames at the front of the queue may go out at `now`.
pub open spec fn ready(queue: Seq<DelayedView>, now: Nanos) -> nat
    decreases queue.len(),
{
    if queue.len() == 0 || queue[0].release > now {
        0
    } else {
        1 + ready(queue.skip(1), now)
    }
}

/// The frames in a queue.
pub open spec fn frames(queue: Seq<DelayedView>) -> Seq<Seq<u8>> {
    queue.map_values(|d: DelayedView| d.bytes)
}

/// The frames at the front of the queue that may go out at `now`.
pub open spec fn released(queue: Seq<DelayedView>, now: Nanos) -> Seq<Seq<u8>> {
    frames(queue.take(ready(queue, now) as int))
}

/// What is left of the queue then.
pub open spec fn left(queue: Seq<DelayedView>, now: Nanos) -> Seq<DelayedView> {
    queue.skip(ready(queue, now) as int)
}

/// The faults to make, the frames that are delayed, the frames that wait to be overtaken, and the
/// generator's state.
#[verifier::ext_equal]
pub ghost struct ChaosView {
    pub config: ChaosConfig,
    pub pending: Seq<DelayedView>,
    pub held: Seq<DelayedView>,
    pub rng: u64,
}

/// What was drawn for a frame: the generator's state after it, and what is to happen to the frame.
pub ghost struct Fate {
    pub rng: u64,
    pub dropped: bool,
    pub delay_ms: u64,
    pub reordered: bool,
}

/// The moment `millis` after `now`, as far as it can be said.
pub open spec fn later(now: Nanos, millis: u64) -> Nanos {
    if now + millis * NANOS_PER_MILLI <= u128::MAX {
        (now + millis * NANOS_PER_MILLI) as u128
    } else {
        u128::MAX
    }
}

/// The first moment after `now`.
pub open spec fn just_after(now: Nanos) -> Nanos {
    if now < u128::MAX {
        (now + 1) as u128
    } else {
        u128::MAX
    }
}

impl ChaosView {
    /// What the next frame is in for.
    pub open spec fn fate(self) -> Fate {
        let first = xorshift64(self.rng);
        let second = if self.config.max_jitter_ms > 0 {
            xorshift64(first)
        } else {
            first
        };
        let third = xorshift64(second);
        if hits(first, self.config.drop_rate) {
            Fate { rng: first, dropped: true, delay_ms: 0, reordered: false }
        } else {
            Fate {
                rng: third,
                dropped: false,
                delay_ms: if self.config.max_jitter_ms > 0 {
                    (second as int % (self.config.max_jitter_ms + 1)) as u64
                } else {
                    0
                },
                reordered: hits(third, self.config.reorder_rate),
            }
        }
    }

    /// Releases the delayed frames whose time has come, and with the last of `passing` those that
    /// waited to be overtaken. Without any frame to overtake them they stay.
    pub open spec fn passed(self, passing: Seq<Seq<u8>>, now: Nanos) -> (ChaosView, Seq<Seq<u8>>) {
        let out = released(self.pending, now) + passing;
        let after = ChaosView { pending: left(self.pending, now), ..self };
        if out.len() > 0 {
            (ChaosView { held: Seq::empty(), ..after }, out + frames(self.held))
        } else {
            (after, out)
        }
    }

    /// What becomes of a frame that is sent at `now`, and the frames that go out.
    pub open spec fn intercepted(self, packet: Seq<u8>, now: Nanos) -> (
        ChaosView,
        Seq<Seq<u8>>,
    ) {
        let fate = self.fate();
        let drawn = ChaosView { rng: fate.rng, ..self };
        if fate.dropped {
            (drawn, Seq::empty())
        } else if fate.delay_ms > 0 {
            let delayed = DelayedView { bytes: packet, release: later(now, fate.delay_ms) };
            ChaosView { pending: drawn.pending.push(delayed), ..drawn }.passed(Seq::empty(), now)
        } else if fate.reordered {
            let (after, out) = drawn.passed(Seq::empty(), now);
            let waiting = DelayedView { bytes: packet, release: just_after(now) };
            (ChaosView { held: after.held.push(waiting), ..after }, out)
        } else {
            drawn.passed(seq![packet], now)
        }
    }

    /// The frames that go out at `now` without a new one: the delayed ones whose time has come, and
    /// those that waited to be overtaken since before.
    pub open spec fn flushed(self, now: Nanos) -> (ChaosView, Seq<Seq<u8>>) {
        (
            ChaosView {
                pending: left(self.pending, now),
                held: left(self.held, now),
                ..self
            },
            released(self.pending, now) + released(self.held, now),
        )
    }
}

struct Delayed {
    bytes: Vec<u8>,
    release: Nanos,
}

impl View for Delayed {
    type V = DelayedView;

    closed spec fn view(&self) -> DelayedView {
        DelayedView { bytes: self.bytes@, release: self.release }
    }
}

spec fn queue_views(queue: Seq<Delayed>) -> Seq<DelayedView> {
    queue.map_values(|d: Delayed| d@)
}

/// Byte strings as values.
pub open spec fn packet_views(packets: Seq<Vec<u8>>) -> Seq<Seq<u8>> {
    packets.map_values(|p: Vec<u8>| p@)
}

pub struct ChaosMiddleware {
    config: ChaosConfig,
    pending: VecDeque<Delayed>,
    held: VecDeque<Delayed>,
    rng: u64,
}

impl View for ChaosMiddleware {
    type V = ChaosView;

    closed spec fn view(&self) -> ChaosView {
        ChaosView {
            config: self.config,
            pending: queue_views(self.pending@),
            held: queue_views(self.held@),
            rng: self.rng,
        }
    }
}

/// A middleware before its first frame.
pub open spec fn fresh_chaos(config: ChaosConfig) -> ChaosView {
    ChaosView {
        config,
        pending: Seq::empty(),
        held: Seq::empty(),
        rng: 0x1234_5678_9abc_def0,
    }
}

proof fn release_step(queue: Seq<DelayedView>, now: Nanos)
    requires
        queue.len() > 0,
        queue[0].release <= now,
    ensures
        ready(queue, now) <= queue.len(),
        released(queue, now) == seq![queue[0].bytes] + released(queue.skip(1), now),
        left(queue, now) == left(queue.skip(1), now),
{
    let rest = queue.skip(1);
    ready_is_a_prefix(rest, now);
    let n = ready(rest, now) as int;
    assert(queue.take(n + 1) =~= seq![queue[0]] + rest.take(n));
    assert(released(queue, now) =~= seq![queue[0].bytes] + released(rest, now));
    assert(left(queue, now) =~= left(rest, now));
}

/// The frames that may go out are at the front of the queue, and the one behind them may not.
proof fn ready_is_a_prefix(queue: Seq<DelayedView>, now: Nanos)
    ensures
        ready(queue, now) <= queue.len(),
        forall|i: int| 0 <= i < ready(queue, now) ==> queue[i].release <= now,
        ready(queue, now) < queue.len() ==> queue[ready(queue, now) as int].release > now,
    decreases queue.len(),
{
    if queue.len() > 0 && queue[0].release <= now {
        let rest = queue.skip(1);
        ready_is_a_prefix(rest, now);
        assert forall|i: int| 0 <= i < ready(queue, now) implies queue[i].release <= now by {
            if i > 0 {
                assert(queue[i] == rest[i - 1]);
            }
        }
    }
}

/// Moves the frames that may go out at `now` from the front of `queue` to the end of `out`.
fn release(queue: &mut VecDeque<Delayed>, now: Nanos, out: &mut Vec<Vec<u8>>)
    ensures
        queue_views(final(queue)@) == left(queue_views(old(queue)@), now),
        packet_views(final(out)@) == packet_views(old(out)@) + released(
            queue_views(old(queue)@),
            now,
        ),
{
    let ghost start = queue_views(queue@);
    let ghost before = packet_views(out@);
    loop
        invariant
            before + released(start, now) == packet_views(out@) + released(
                queue_views(queue@),
                now,
            ),
            left(start, now) == left(queue_views(queue@), now),
        ensures
            queue_views(queue@) == left(start, now),
            packet_views(out@) == before + released(start, now),
        decreases queue@.len(),
    {
        let ghost current = queue_views(queue@);
        if queue.len() == 0 || queue[0].release > now {
            proof {
                assert(current.take(0) =~= Seq::empty());
                assert(current.skip(0) =~= current);
                assert(released(current, now) =~= Seq::<Seq<u8>>::empty());
                assert(packet_views(out@) + Seq::<Seq<u8>>::empty() =~= packet_views(out@));
            }
            break ;
        }
        if let Some(frame) = queue.pop_front() {
            proof {
                release_step(current, now);
                assert(queue_views(queue@) =~= current.skip(1));
            }
            let ghost so_far = packet_views(out@);
            out.push(frame.bytes);
            proof {
                assert(packet_views(out@) =~= so_far.push(current[0].bytes));
                assert(so_far + (seq![current[0].bytes] + released(current.skip(1), now))
                    =~= so_far.push(current[0].bytes) + released(current.skip(1), now));
            }
        }
    }
}

impl ChaosMiddleware {
    pub fn new(config: ChaosConfig) -> (r: Self)
        ensures
            r@ == fresh_chaos(config),
    {
        let r = ChaosMiddleware {
            config,
            pending: VecDeque::new(),
            held: VecDeque::new(),
            rng: 0x1234_5678_9abc_def0,
        };
        assert(r@ =~= fresh_chaos(config));
        r
    }

    /// Takes a frame that is sent at `now`, and gives back the frames that go out.
    pub fn intercept(&mut self, packet: Vec<u8>, now: Nanos) -> (r: Vec<Vec<u8>>)
        ensures
            final(self)@ == old(self)@.intercepted(packet@, now).0,
            packet_views(r@) == old(self)@.intercepted(packet@, now).1,
    {
        let ghost fate = self@.fate();
        let ghost drawn = ChaosView { rng: fate.rng, ..self@ };
        let mut out: Vec<Vec<u8>> = Vec::new();
        assert(packet_views(out@) =~= Seq::<Seq<u8>>::empty());
        let first: u64 = self.next_u64();
        if (first >> 11u64) < self.config.drop_rate {
            return out;
        }
        let delay_ms: u64 = if self.config.max_jitter_ms > 0 {
            let second: u64 = self.next_u64();
            if self.config.max_jitter_ms < u64::MAX {
                second % (self.config.max_jitter_ms + 1)
            } else {
                assert(second as int % 0x1_0000_0000_0000_0000 == second);
                second
            }
        } else {
            0
        };
        let third: u64 = self.next_u64();
        let reorder = (third >> 11u64) < self.config.reorder_rate;
        assert(delay_ms == fate.delay_ms && reorder == fate.reordered);
        assert(self@ =~= drawn);
        if delay_ms > 0 {
            let release_at: Nanos = now.saturating_add(delay_ms as u128 * NANOS_PER_MILLI);
            self.pending.push_back(Delayed { bytes: packet, release: release_at });
            let ghost delayed = DelayedView { bytes: packet@, release: later(now, delay_ms) };
            assert(self@.pending =~= drawn.pending.push(delayed));
            self.pass(None, now)
        } else if reorder {
            let out = self.pass(None, now);
            let ghost after = self@;
            self.held.push_back(Delayed { bytes: packet, release: now.saturating_add(1) });
            let ghost waiting = DelayedView { bytes: packet@, release: just_after(now) };
            assert(self@.held =~= after.held.push(waiting));
            out
        } else {
            self.pass(Some(packet), now)
        }
    }

    /// Releases what may go out at `now`, then `passing`, and behind them the frames that waited to
    /// be overtaken.
    fn pass(&mut self, passing: Option<Vec<u8>>, now: Nanos) -> (r: Vec<Vec<u8>>)
        ensures
            ({
                let (next, out) = old(self)@.passed(
                    match passing {
                        Some(packet) => seq![packet@],
                        None => Seq::empty(),
                    },
                    now,
                );
                final(self)@ == next && packet_views(r@) == out
            }),
    {
        let mut out: Vec<Vec<u8>> = Vec::new();
        assert(packet_views(out@) =~= Seq::<Seq<u8>>::empty());
        release(&mut self.pending, now, &mut out);
        let ghost due = released(old(self)@.pending, now);
        assert(packet_views(out@) =~= due);
        match passing {
            Some(packet) => {
                out.push(packet);
                assert(packet_views(out@) =~= due + seq![packet@]);
            },
            None => {
                assert(packet_views(out@) =~= due + Seq::<Seq<u8>>::empty());
            },
        }
        if out.len() > 0 {
            let ghost waiting = self@.held;
            let ghost ahead = packet_views(out@);
            release(&mut self.held, u128::MAX, &mut out);
            proof {
                all_are_ready(waiting);
                assert(self@.held =~= Seq::<DelayedView>::empty());
                assert(packet_views(out@) =~= ahead + frames(waiting));
            }
        }
        out
    }

    /// The frames that go out at `now` without a new one.
    pub fn flush_ready(&mut self, now: Nanos) -> (r: Vec<Vec<u8>>)
        ensures
            final(self)@ == old(self)@.flushed(now).0,
            packet_views(r@) == old(self)@.flushed(now).1,
    {
        let mut out: Vec<Vec<u8>> = Vec::new();
        assert(packet_views(out@) =~= Seq::<Seq<u8>>::empty());
        release(&mut self.pending, now, &mut out);
        assert(packet_views(out@) =~= released(old(self)@.pending, now));
        release(&mut self.held, now, &mut out);
        out
    }

    fn next_u64(&mut self) -> (r: u64)
        ensures
            r == xorshift64(old(self)@.rng),
            final(self)@ == (ChaosView { rng: r, ..old(self)@ }),
    {
        let x: u64 = self.rng;
        let a: u64 = x ^ (x << 13u64);
        let b: u64 = a ^ (a >> 7u64);
        let c: u64 = b ^ (b << 17u64);
        self.rng = c;
        c
    }
}

/// At the end of time every frame may go out.
proof fn all_are_ready(queue: Seq<DelayedView>)
    ensures
        released(queue, u128::MAX) == frames(queue),
        left(queue, u128::MAX).len() == 0,
{
    ready_is_a_prefix(queue, u128::MAX);
    assert(ready(queue, u128::MAX) == queue.len());
    assert(queue.take(queue.len() as int) =~= queue);
}

/// The generator never falls into zero, from which it could not leave, and each number comes from
/// one number only.
pub proof fn generator_never_stops(x: u64, y: u64)
    requires
        x != 0,
    ensures
        xorshift64(x) != 0,
        xorshift64(x) == xorshift64(y) ==> x == y,
{
    xor_shift_left_13(x, y);
    let a = x ^ (x << 13u64);
    let b = y ^ (y << 13u64);
    xor_shift_right_7(a, b);
    let c = a ^ (a >> 7u64);
    let d = b ^ (b >> 7u64);
    xor_shift_left_17(c, d);
}

proof fn xor_shift_left_13(x: u64, y: u64)
    ensures
        x ^ (x << 13u64) == y ^ (y << 13u64) ==> x == y,
        x != 0 ==> x ^ (x << 13u64) != 0,
{
    assert(x ^ (x << 13u64) == y ^ (y << 13u64) ==> x == y) by (bit_vector);
    assert(x != 0 ==> x ^ (x << 13u64) != 0) by (bit_vector);
}

proof fn xor_shift_right_7(x: u64, y: u64)
    ensures
        x ^ (x >> 7u64) == y ^ (y >> 7u64) ==> x == y,
        x != 0 ==> x ^ (x >> 7u64) != 0,
{
    assert(x ^ (x >> 7u64) == y ^ (y >> 7u64) ==> x == y) by (bit_vector);
    assert(x != 0 ==> x ^ (x >> 7u64) != 0) by (bit_vector);
}

proof fn xor_shift_left_17(x: u64, y: u64)
    ensures
        x ^ (x << 17u64) == y ^ (y << 17u64) ==> x == y,
        x != 0 ==> x ^ (x << 17u64) != 0,
{
    assert(x ^ (x << 17u64) == y ^ (y << 17u64) ==> x == y) by (bit_vector);
    assert(x != 0 ==> x ^ (x << 17u64) != 0) by (bit_vector);
}

/// What has rate zero never happens, and what has the full rate always does.
pub proof fn extreme_rates_are_certain(draw: u64)
    ensures
        !hits(draw, 0),
        hits(draw, RATE_ONE),
{
    assert(draw >> 11u64 < 0x20_0000_0000_0000u64) by (bit_vector);
}

/// Without faults every frame goes out at once, alone and unchanged, and nothing stays behind.
pub proof fn no_faults_pass_everything(v: ChaosView, packet: Seq<u8>, now: Nanos)
    requires
        v.config == (ChaosConfig { drop_rate: 0, reorder_rate: 0, max_jitter_ms: 0 }),
        v.pending.len() == 0,
        v.held.len() == 0,
    ensures
        v.intercepted(packet, now).1 == seq![packet],
        v.intercepted(packet, now).0.pending.len() == 0,
        v.intercepted(packet, now).0.held.len() == 0,
        v.intercepted(packet, now).0.config == v.config,
{
    extreme_rates_are_certain(xorshift64(v.rng));
    extreme_rates_are_certain(xorshift64(xorshift64(v.rng)));
    assert(v.intercepted(packet, now).1 =~= seq![packet]);
}

/// At the full drop rate no frame goes out and none is kept.
pub proof fn full_drop_rate_drops_everything(v: ChaosView, packet: Seq<u8>, now: Nanos)
    requires
        v.config.drop_rate >= RATE_ONE,
    ensures
        v.intercepted(packet, now).1.len() == 0,
        v.intercepted(packet, now).0.pending == v.pending,
        v.intercepted(packet, now).0.held == v.held,
{
    extreme_rates_are_certain(xorshift64(v.rng));
}

/// All the frames that are inside.
pub open spec fn inside(v: ChaosView) -> Seq<Seq<u8>> {
    frames(v.pending) + frames(v.held)
}

proof fn release_splits(queue: Seq<DelayedView>, now: Nanos)
    ensures
        released(queue, now) + frames(left(queue, now)) == frames(queue),
{
    ready_is_a_prefix(queue, now);
    assert(released(queue, now) + frames(left(queue, now)) =~= frames(queue));
}

proof fn multiset_of_sum(a: Seq<Seq<u8>>, b: Seq<Seq<u8>>)
    ensures
        (a + b).to_multiset() == a.to_multiset().add(b.to_multiset()),
{
    vstd::seq_lib::lemma_multiset_commutative(a, b);
}

proof fn passing_conserves(v: ChaosView, passing: Seq<Seq<u8>>, now: Nanos)
    ensures
        ({
            let (next, out) = v.passed(passing, now);
            out.to_multiset().add(inside(next).to_multiset()) == inside(v).to_multiset().add(
                passing.to_multiset(),
            )
        }),
{
    let due = released(v.pending, now);
    let rest = left(v.pending, now);
    let (next, out) = v.passed(passing, now);
    release_splits(v.pending, now);
    multiset_of_sum(due, frames(rest));
    multiset_of_sum(frames(v.pending), frames(v.held));
    multiset_of_sum(due, passing);
    if (due + passing).len() > 0 {
        multiset_of_sum(due + passing, frames(v.held));
        assert(inside(next) =~= frames(rest));
    } else {
        multiset_of_sum(frames(rest), frames(v.held));
    }
    assert(out.to_multiset().add(inside(next).to_multiset()) =~= inside(v).to_multiset().add(
        passing.to_multiset(),
    ));
}

/// No frame is made up, doubled or changed: what goes out and what stays inside are together what was
/// inside before and the new frame, unless that was dropped.
pub proof fn frames_are_conserved(v: ChaosView, packet: Seq<u8>, now: Nanos)
    ensures
        ({
            let (next, out) = v.intercepted(packet, now);
            out.to_multiset().add(inside(next).to_multiset()) == if v.fate().dropped {
                inside(v).to_multiset()
            } else {
                inside(v).to_multiset().insert(packet)
            }
        }),
        ({
            let (next, out) = v.flushed(now);
            out.to_multiset().add(inside(next).to_multiset()) == inside(v).to_multiset()
        }),
{
    broadcast use vstd::seq_lib::group_to_multiset_ensures;

    let fate = v.fate();
    let drawn = ChaosView { rng: fate.rng, ..v };
    let (next, out) = v.intercepted(packet, now);
    let whole = inside(v).to_multiset();
    let one = seq![packet];
    assert(Seq::<Seq<u8>>::empty().push(packet) =~= one);
    assert(one.to_multiset() =~= Seq::<Seq<u8>>::empty().to_multiset().insert(packet));
    multiset_of_sum(frames(v.pending), frames(v.held));
    if fate.dropped {
        assert(out.to_multiset().add(inside(next).to_multiset()) =~= whole);
    } else if fate.delay_ms > 0 {
        let delayed = DelayedView { bytes: packet, release: later(now, fate.delay_ms) };
        let queued = ChaosView { pending: drawn.pending.push(delayed), ..drawn };
        passing_conserves(queued, Seq::empty(), now);
        assert(frames(queued.pending) =~= frames(v.pending).push(packet));
        multiset_of_sum(frames(queued.pending), frames(v.held));
        assert(out.to_multiset().add(inside(next).to_multiset()) =~= whole.insert(packet));
    } else if fate.reordered {
        passing_conserves(drawn, Seq::empty(), now);
        let after = drawn.passed(Seq::empty(), now).0;
        assert(frames(next.held) =~= frames(after.held).push(packet));
        multiset_of_sum(frames(next.pending), frames(next.held));
        multiset_of_sum(frames(after.pending), frames(after.held));
        assert(frames(next.held).to_multiset() =~= frames(after.held).to_multiset().insert(packet));
        assert(inside(next).to_multiset() =~= inside(after).to_multiset().insert(packet));
        assert(out.to_multiset().add(inside(after).to_multiset()) =~= whole);
        assert(out.to_multiset().add(inside(next).to_multiset()) =~= whole.insert(packet));
    } else {
        passing_conserves(drawn, one, now);
        assert(out.to_multiset().add(inside(next).to_multiset()) =~= whole.insert(packet));
    }
    let (kept, gone) = v.flushed(now);
    release_splits(v.pending, now);
    release_splits(v.held, now);
    multiset_of_sum(released(v.pending, now), frames(left(v.pending, now)));
    multiset_of_sum(released(v.held, now), frames(left(v.held, now)));
    multiset_of_sum(released(v.pending, now), released(v.held, now));
    multiset_of_sum(frames(left(v.pending, now)), frames(left(v.held, now)));
    assert(gone.to_multiset().add(inside(kept).to_multiset()) =~= whole);
}

/// A frame is never released before its time, and once the time of all has come a flush releases
/// every frame, the delayed ones in the order they were sent.
pub proof fn every_frame_is_released_in_time(v: ChaosView, now: Nanos)
    ensures
        ({
            let (next, out) = v.flushed(now);
            let n = ready(v.pending, now) as int;
            let m = ready(v.held, now) as int;
            &&& n <= v.pending.len() && m <= v.held.len()
            &&& out == frames(v.pending.take(n)) + frames(v.held.take(m))
            &&& forall|i: int| 0 <= i < n ==> v.pending[i].release <= now
            &&& forall|i: int| 0 <= i < m ==> v.held[i].release <= now
            &&& (forall|i: int| 0 <= i < v.pending.len() ==> v.pending[i].release <= now) && (
            forall|i: int| 0 <= i < v.held.len() ==> v.held[i].release <= now) ==> out == inside(v)
                && inside(next).len() == 0
        }),
{
    ready_is_a_prefix(v.pending, now);
    ready_is_a_prefix(v.held, now);
    assert(v.pending.take(v.pending.len() as int) =~= v.pending);
    assert(v.held.take(v.held.len() as int) =~= v.held);
}

/// Whether every frame in the queue may go out at `moment`.
pub open spec fn due_by(queue: Seq<DelayedView>, moment: Nanos) -> bool {
    forall|i: int| 0 <= i < queue.len() ==> (#[trigger] queue[i]).release <= moment
}

/// Whether nothing inside that was sent up to `t` waits longer than it may: a delayed frame for the
/// longest delay, one that waits to be overtaken for a moment.
pub open spec fn waits_bounded(v: ChaosView, t: Nanos) -> bool {
    due_by(v.pending, later(t, v.config.max_jitter_ms)) && due_by(v.held, just_after(t))
}

/// No frame is delayed for longer than the longest delay: whatever is sent up to `t`, everything
/// inside may go out by the end of the delay after `t`, and a flush from then on leaves nothing.
pub proof fn no_frame_waits_too_long(
    v: ChaosView,
    packet: Seq<u8>,
    now: Nanos,
    t: Nanos,
    end: Nanos,
)
    requires
        waits_bounded(v, t),
        now <= t,
    ensures
        waits_bounded(v.intercepted(packet, now).0, t),
        waits_bounded(v.flushed(now).0, t),
        end >= later(t, v.config.max_jitter_ms) && end >= just_after(t) ==> v.flushed(end).1
            == inside(v) && inside(v.flushed(end).0).len() == 0,
{
    let fate = v.fate();
    let jitter = v.config.max_jitter_ms;
    let limit = later(t, jitter);
    assert(fate.delay_ms <= jitter);
    assert(later(now, fate.delay_ms) <= limit);
    let delayed = DelayedView { bytes: packet, release: later(now, fate.delay_ms) };
    assert(due_by(v.pending.push(delayed), limit));
    rest_is_due(v.pending, now, limit);
    rest_is_due(v.pending.push(delayed), now, limit);
    rest_is_due(v.held, now, just_after(t));
    every_frame_is_released_in_time(v, end);
}

/// What a release leaves in a queue is due when the queue was.
proof fn rest_is_due(queue: Seq<DelayedView>, now: Nanos, moment: Nanos)
    requires
        due_by(queue, moment),
    ensures
        due_by(left(queue, now), moment),
{
    ready_is_a_prefix(queue, now);
}

/// A frame that is picked for reordering comes out behind the frame that is sent after it, when that
/// one is neither dropped nor held back.
pub proof fn reordered_frame_is_overtaken(
    v: ChaosView,
    first: Seq<u8>,
    second: Seq<u8>,
    t1: Nanos,
    t2: Nanos,
)
    requires
        v.pending.len() == 0,
        v.held.len() == 0,
        !v.fate().dropped && v.fate().delay_ms == 0 && v.fate().reordered,
        ({
            let fate = v.intercepted(first, t1).0.fate();
            !fate.dropped && fate.delay_ms == 0 && !fate.reordered
        }),
    ensures
        v.intercepted(first, t1).1.len() == 0,
        v.intercepted(first, t1).0.intercepted(second, t2).1 == seq![second, first],
{
    let after = v.intercepted(first, t1).0;
    assert(v.pending.take(0) =~= Seq::<DelayedView>::empty());
    assert(after.intercepted(second, t2).1 =~= seq![second, first]);
}

/// What happens to a frame follows the numbers drawn: it is dropped when the top bits of the first lie
/// below the rate, delayed by the remainder of the second, and held back when the top bits of the last
/// lie below the rate.
pub proof fn faults_follow_the_draws(v: ChaosView)
    ensures
        ({
            let first = xorshift64(v.rng);
            let second = xorshift64(first);
            let fate = v.fate();
            &&& fate.dropped <==> first / 2048 < v.config.drop_rate
            &&& !fate.dropped && v.config.max_jitter_ms == 0 ==> fate.delay_ms == 0 && fate.rng
                == second && (fate.reordered <==> second / 2048 < v.config.reorder_rate)
            &&& !fate.dropped && v.config.max_jitter_ms > 0 ==> fate.delay_ms == second as int % (
            v.config.max_jitter_ms + 1) && fate.rng == xorshift64(second) && (fate.reordered
                <==> xorshift64(second) / 2048 < v.config.reorder_rate)
            &&& fate.delay_ms <= v.config.max_jitter_ms
            &&& fate.dropped ==> fate.rng == first
        }),
{
    let first = xorshift64(v.rng);
    let second = xorshift64(first);
    let third = xorshift64(second);
    assert(first >> 11u64 == first / 2048) by (bit_vector);
    assert(second >> 11u64 == second / 2048) by (bit_vector);
    assert(third >> 11u64 == third / 2048) by (bit_vector);
}

/// A delayed frame waits for its delay, to the nanosecond, behind the frames that were delayed before
/// it; one that is neither dropped, delayed nor held back goes out at once.
pub proof fn frames_wait_for_their_delay(v: ChaosView, packet: Seq<u8>, now: Nanos)
    requires
        v.pending.len() == 0,
        v.held.len() == 0,
        now + v.config.max_jitter_ms * 1_000_000 <= u128::MAX,
    ensures
        ({
            let (next, out) = v.intercepted(packet, now);
            let fate = v.fate();
            &&& next.config == v.config && next.rng == fate.rng
            &&& fate.dropped ==> out.len() == 0 && next.pending.len() == 0 && next.held.len() == 0
            &&& !fate.dropped && fate.delay_ms > 0 ==> {
                &&& out.len() == 0 && next.held.len() == 0
                &&& next.pending == seq![
                    DelayedView {
                        bytes: packet,
                        release: (now + fate.delay_ms * 1_000_000) as Nanos,
                    },
                ]
            }
            &&& !fate.dropped && fate.delay_ms == 0 && !fate.reordered ==> out == seq![packet]
                && next.pending.len() == 0 && next.held.len() == 0
        }),
{
    let (next, out) = v.intercepted(packet, now);
    let fate = v.fate();
    assert(fate.delay_ms <= v.config.max_jitter_ms);
    if !fate.dropped && fate.delay_ms > 0 {
        let delayed = DelayedView {
            bytes: packet,
            release: (now + fate.delay_ms * 1_000_000) as Nanos,
        };
        let queued = v.pending.push(delayed);
        assert(later(now, fate.delay_ms) == delayed.release);
        assert(ready(queued, now) == 0);
        assert(queued.take(0) =~= Seq::<DelayedView>::empty());
        assert(queued.skip(0) =~= seq![delayed]);
        assert(out =~= Seq::<Seq<u8>>::empty());
    }
    if !fate.dropped && fate.delay_ms == 0 && !fate.reordered {
        assert(out =~= seq![packet]);
    }
}


/// Delays are counted in milliseconds, and a frame that waits to be overtaken waits for a nanosecond
/// at most.
pub proof fn moments_are_exact(now: Nanos, millis: u64)
    requires
        now + millis * 1_000_000 < u128::MAX,
    ensures
        later(now, millis) == now + millis * 1_000_000,
        just_after(now) == now + 1,
        RATE_ONE == 9_007_199_254_740_992,
{
}

/// A frame that is held back goes out with the next frame that goes out at all, behind it, or with the
/// first flush after its moment.
pub proof fn held_frames_follow_the_next_one(
    v: ChaosView,
    packet: Seq<u8>,
    now: Nanos,
)
    requires
        v.pending.len() == 0,
        !v.fate().dropped,
        v.fate().delay_ms == 0,
        !v.fate().reordered,
    ensures
        v.intercepted(packet, now).1 == seq![packet] + frames(v.held),
        v.intercepted(packet, now).0.held.len() == 0,
{
    assert(v.pending.take(0) =~= Seq::<DelayedView>::empty());
    assert(v.intercepted(packet, now).1 =~= seq![packet] + frames(v.held));
}

/// A frame that is held back joins those that wait, and nothing goes out on its account.
pub proof fn held_frames_wait(v: ChaosView, packet: Seq<u8>, now: Nanos)
    requires
        v.pending.len() == 0,
        now < u128::MAX,
        !v.fate().dropped,
        v.fate().delay_ms == 0,
        v.fate().reordered,
    ensures
        v.intercepted(packet, now).1.len() == 0,
        v.intercepted(packet, now).0.held == v.held.push(
            DelayedView { bytes: packet, release: (now + 1) as Nanos },
        ),
{
    assert(v.pending.take(0) =~= Seq::<DelayedView>::empty());
    assert(v.intercepted(packet, now).1 =~= Seq::<Seq<u8>>::empty());
}


/// A frame that is sent takes the delayed ones along whose time has come: they go out first, in their
/// order, and afterwards the first one that waits is not due. A dropped frame moves nothing.
pub proof fn sending_releases_what_is_due(v: ChaosView, packet: Seq<u8>, now: Nanos, n: int)
    requires
        0 <= n <= v.pending.len(),
        forall|i: int| 0 <= i < n ==> (#[trigger] v.pending[i]).release <= now,
        n < v.pending.len() ==> v.pending[n].release > now,
    ensures
        ({
            let (next, out) = v.intercepted(packet, now);
            &&& v.fate().dropped ==> out.len() == 0 && next.pending == v.pending && next.held
                == v.held
            &&& !v.fate().dropped ==> {
                &&& out.len() >= n
                &&& forall|i: int| 0 <= i < n ==> #[trigger] out[i] == v.pending[i].bytes
                &&& next.pending.len() > 0 && n < v.pending.len() ==> next.pending[0]
                    == v.pending[n]
            }
        }),
{
    let fate = v.fate();
    let (next, out) = v.intercepted(packet, now);
    if !fate.dropped {
        let delayed = DelayedView { bytes: packet, release: later(now, fate.delay_ms) };
        let queue = if fate.delay_ms > 0 {
            v.pending.push(delayed)
        } else {
            v.pending
        };
        ready_is_a_prefix(queue, now);
        let m = ready(queue, now) as int;
        assert(m >= n) by {
            if m < n {
                assert(queue[m] == v.pending[m]);
            }
        }
        if n < v.pending.len() {
            assert(m == n) by {
                if m > n {
                    assert(queue[n] == v.pending[n]);
                }
            }
            assert(left(queue, now)[0] == queue[n]);
        }
        let first = released(queue, now);
        assert forall|i: int| 0 <= i < n implies #[trigger] out[i] == v.pending[i].bytes by {
            assert(first[i] == queue[i].bytes);
            assert(out[i] == first[i]);
        }
    }
}


} // verus!
