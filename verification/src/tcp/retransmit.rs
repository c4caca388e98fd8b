//! The retransmission queue: segments in flight, their timeout and what is measured on them.
use vstd::prelude::*;

use crate::clock::{Clock, Nanos, NANOS_PER_MILLI, NANOS_PER_SEC};
use crate::tcp::tcb::{ahead, distance, seq_ahead, seq_le};
use crate::wire::copy_bytes;

verus! {

pub const MSS: u32 = 1460;

pub const RETRANSMIT_QUEUE_MAX: usize = 128;

pub const INITIAL_RTO: Nanos = 1000 * NANOS_PER_MILLI;

pub const MIN_RTO: Nanos = 200 * NANOS_PER_MILLI;

pub const MAX_RTO: Nanos = 60 * NANOS_PER_SEC;

/// The estimator counts in parts of a nanosecond, so that smoothing loses nothing that matters.
pub const PARTS_PER_NANO: u128 = 0x1_0000;

/// A round trip counts for at most this long: 64 bits of seconds, and the nanoseconds beyond them.
pub const LONGEST_RTT: Nanos = 18_446_744_073_709_551_615_999_999_999;

/// A segment in flight: its number, its bytes, when it was last sent, and whether that was not the
/// first time.
#[verifier::ext_equal]
pub ghost struct EntryView {
    pub seq: u32,
    pub data: Seq<u8>,
    pub sent_at: Nanos,
    pub retransmitted: bool,
}

impl EntryView {
    /// Whether the peer has acknowledged the whole segment by acknowledging everything before
    /// `ack`.
    pub open spec fn acked(self, ack: u32) -> bool {
        seq_le(ahead(self.seq, self.data.len() as int), ack)
    }

    /// How long ago the segment was last sent.
    pub open spec fn age(self, now: Nanos) -> Nanos {
        if now >= self.sent_at {
            (now - self.sent_at) as Nanos
        } else {
            0
        }
    }

    /// The segment after it was sent again.
    pub open spec fn resent(self, now: Nanos) -> EntryView {
        EntryView { sent_at: now, retransmitted: true, ..self }
    }
}

/// The smoothed round-trip time, once there is one, and its variation, both in parts of a
/// nanosecond.
#[verifier::ext_equal]
pub ghost struct RttView {
    pub srtt: Option<nat>,
    pub rttvar: nat,
}

impl RttView {
    /// Nothing was measured yet.
    pub open spec fn fresh() -> RttView {
        RttView { srtt: None, rttvar: 0 }
    }

    /// After a round trip of `rtt` was measured, as RFC 6298 has it. The first one is taken as it is,
    /// with half of it for its variation. From then on an eighth of each one goes into the smoothed
    /// time, and a quarter of its distance from that time into the variation.
    pub open spec fn updated(self, rtt: Nanos) -> RttView {
        let r = parts_of(rtt);
        match self.srtt {
            None => RttView { srtt: Some(r), rttvar: r / 2 },
            Some(srtt) => RttView {
                srtt: Some((7 * srtt + r) / 8),
                rttvar: (3 * self.rttvar + apart(srtt, r)) / 4,
            },
        }
    }

    /// The timeout that the estimate gives: the smoothed time and four times its variation, to the
    /// nearest nanosecond, within the shortest and the longest timeout allowed.
    pub open spec fn timeout(self) -> Nanos {
        let srtt = match self.srtt {
            Some(srtt) => srtt,
            None => 0,
        };
        clamped_rto((srtt + 4 * self.rttvar + PARTS_PER_NANO / 2) / (PARTS_PER_NANO as int))
    }
}

/// A round-trip time in parts of a nanosecond.
pub open spec fn parts_of(rtt: Nanos) -> nat {
    if rtt <= LONGEST_RTT {
        rtt as nat * PARTS_PER_NANO as nat
    } else {
        LONGEST_RTT as nat * PARTS_PER_NANO as nat
    }
}

/// How far two times are apart.
pub open spec fn apart(a: nat, b: nat) -> nat {
    if a < b {
        (b - a) as nat
    } else {
        (a - b) as nat
    }
}

/// The timeout nearest to `estimate` that is allowed.
pub open spec fn clamped_rto(estimate: int) -> Nanos {
    if estimate < MIN_RTO {
        MIN_RTO
    } else if estimate > MAX_RTO {
        MAX_RTO
    } else {
        estimate as Nanos
    }
}

/// The estimate after all of `samples` were measured, in order.
pub open spec fn absorbed(rtt: RttView, samples: Seq<Nanos>) -> RttView
    decreases samples.len(),
{
    if samples.len() == 0 {
        rtt
    } else {
        absorbed(rtt, samples.drop_last()).updated(samples.last())
    }
}

/// The segments in flight, oldest first, the retransmission timeout, and the estimate of the
/// round-trip time that it comes from.
#[verifier::ext_equal]
pub ghost struct RetransmitView {
    pub entries: Seq<EntryView>,
    pub rto: Nanos,
    pub rtt: RttView,
}

/// The segments among `entries` that an acknowledgment leaves in flight.
pub open spec fn unacked(entries: Seq<EntryView>, ack: u32) -> Seq<EntryView> {
    entries.filter(|e: EntryView| !e.acked(ack))
}

/// The round-trip times that an acknowledgment measures: the age of each segment that it covers and
/// that was sent only once.
pub open spec fn measured(entries: Seq<EntryView>, ack: u32, now: Nanos) -> Seq<Nanos> {
    entries.filter(|e: EntryView| e.acked(ack) && !e.retransmitted).map_values(
        |e: EntryView| e.age(now),
    )
}

/// The segments among `entries` that have been in flight for `rto` or longer.
pub open spec fn overdue(entries: Seq<EntryView>, now: Nanos, rto: Nanos) -> Seq<(u32, Seq<u8>)> {
    entries.filter(|e: EntryView| e.age(now) >= rto).map_values(|e: EntryView| (e.seq, e.data))
}

/// The timeout after `samples` were measured, which made the estimate `rtt`: it stays at `rto` where
/// nothing was.
pub open spec fn timeout_after(rto: Nanos, rtt: RttView, samples: Seq<Nanos>) -> Nanos {
    if samples.len() == 0 {
        rto
    } else {
        rtt.timeout()
    }
}

impl RetransmitView {
    pub open spec fn fresh() -> RetransmitView {
        RetransmitView { entries: Seq::empty(), rto: INITIAL_RTO, rtt: RttView::fresh() }
    }

    /// After a segment was sent for the first time. A full queue does not take it.
    pub open spec fn pushed(self, seq: u32, data: Seq<u8>, now: Nanos) -> RetransmitView {
        if self.entries.len() < RETRANSMIT_QUEUE_MAX {
            RetransmitView {
                entries: self.entries.push(
                    EntryView { seq, data, sent_at: now, retransmitted: false },
                ),
                ..self
            }
        } else {
            self
        }
    }

    /// After the peer acknowledged everything before `ack`: the estimate takes in what was measured
    /// thereby, and where anything was, the timeout follows the estimate.
    pub open spec fn acknowledged(self, ack: u32, now: Nanos) -> RetransmitView {
        let samples = measured(self.entries, ack, now);
        let rtt = absorbed(self.rtt, samples);
        RetransmitView {
            entries: unacked(self.entries, ack),
            rto: timeout_after(self.rto, rtt, samples),
            rtt,
        }
    }

    /// The segments to send again.
    pub open spec fn expired(self, now: Nanos) -> Seq<(u32, Seq<u8>)> {
        overdue(self.entries, now, self.rto)
    }

    /// After the overdue segments were sent again: they are marked, and if there were any the
    /// timeout is twice as long, up to the longest allowed.
    pub open spec fn backed_off(self, now: Nanos) -> RetransmitView {
        RetransmitView {
            entries: self.entries.map_values(
                |e: EntryView|
                    if e.age(now) >= self.rto {
                        e.resent(now)
                    } else {
                        e
                    },
            ),
            rto: if self.expired(now).len() == 0 {
                self.rto
            } else if 2 * self.rto <= MAX_RTO {
                (2 * self.rto) as Nanos
            } else {
                MAX_RTO
            },
            ..self
        }
    }

    /// The number and the bytes of the segment that has been in the queue longest.
    pub open spec fn head(self) -> Option<(u32, Seq<u8>)> {
        if self.entries.len() == 0 {
            None
        } else {
            Some((self.entries[0].seq, self.entries[0].data))
        }
    }
}

struct RetransmitEntry {
    seq: u32,
    data: Vec<u8>,
    sent_at: Nanos,
    retransmitted: bool,
}

impl View for RetransmitEntry {
    type V = EntryView;

    closed spec fn view(&self) -> EntryView {
        EntryView {
            seq: self.seq,
            data: self.data@,
            sent_at: self.sent_at,
            retransmitted: self.retransmitted,
        }
    }
}

impl RetransmitEntry {
    fn acked(&self, ack: u32) -> (r: bool)
        ensures
            r == self@.acked(ack),
    {
        seq_le(seq_ahead(self.seq, self.data.len()), ack)
    }

    fn age(&self, now: Nanos) -> (r: Nanos)
        ensures
            r == self@.age(now),
    {
        if now >= self.sent_at {
            now - self.sent_at
        } else {
            0
        }
    }
}

/// The smoothed round-trip time and its variation, in parts of a nanosecond.
struct RttEstimator {
    srtt: Option<u128>,
    rttvar: u128,
}

impl View for RttEstimator {
    type V = RttView;

    closed spec fn view(&self) -> RttView {
        RttView {
            srtt: match self.srtt {
                Some(srtt) => Some(srtt as nat),
                None => None,
            },
            rttvar: self.rttvar as nat,
        }
    }
}

impl RttEstimator {
    #[verifier::type_invariant]
    spec fn in_range(self) -> bool {
        &&& self.srtt matches Some(srtt) ==> srtt <= LONGEST_RTT * PARTS_PER_NANO
        &&& self.rttvar <= LONGEST_RTT * PARTS_PER_NANO
    }

    fn new() -> (r: Self)
        ensures
            r@ == RttView::fresh(),
    {
        RttEstimator { srtt: None, rttvar: 0 }
    }

    /// The estimator after a round trip of `rtt` was measured.
    fn updated(&self, rtt: Nanos) -> (r: Self)
        ensures
            r@ == self@.updated(rtt),
    {
        proof {
            use_type_invariant(self);
        }
        let counted: Nanos = if rtt <= LONGEST_RTT { rtt } else { LONGEST_RTT };
        let parts: u128 = counted * PARTS_PER_NANO;
        match self.srtt {
            None => RttEstimator { srtt: Some(parts), rttvar: parts / 2 },
            Some(srtt) => {
                let off: u128 = if srtt < parts { parts - srtt } else { srtt - parts };
                RttEstimator {
                    srtt: Some((7 * srtt + parts) / 8),
                    rttvar: (3 * self.rttvar + off) / 4,
                }
            },
        }
    }

    fn timeout(&self) -> (r: Nanos)
        ensures
            r == self@.timeout(),
    {
        proof {
            use_type_invariant(self);
        }
        let srtt: u128 = match self.srtt {
            Some(srtt) => srtt,
            None => 0,
        };
        let estimate: Nanos = (srtt + 4 * self.rttvar + PARTS_PER_NANO / 2) / PARTS_PER_NANO;
        if estimate < MIN_RTO {
            MIN_RTO
        } else if estimate > MAX_RTO {
            MAX_RTO
        } else {
            estimate
        }
    }
}

pub struct RetransmitQueue {
    clock: Clock,
    entries: Vec<RetransmitEntry>,
    pub rto: Nanos,
    rtt: RttEstimator,
}

spec fn entry_views(entries: Seq<RetransmitEntry>) -> Seq<EntryView> {
    entries.map_values(|e: RetransmitEntry| e@)
}

impl View for RetransmitQueue {
    type V = RetransmitView;

    closed spec fn view(&self) -> RetransmitView {
        RetransmitView {
            entries: entry_views(self.entries@),
            rto: self.rto,
            rtt: self.rtt@,
        }
    }
}

proof fn acknowledge_step(entries: Seq<EntryView>, e: EntryView, ack: u32, now: Nanos)
    ensures
        unacked(entries.push(e), ack) == if e.acked(ack) {
            unacked(entries, ack)
        } else {
            unacked(entries, ack).push(e)
        },
        measured(entries.push(e), ack, now) == if e.acked(ack) && !e.retransmitted {
            measured(entries, ack, now).push(e.age(now))
        } else {
            measured(entries, ack, now)
        },
{
    broadcast use Seq::lemma_filter_push;

    assert(measured(entries.push(e), ack, now) =~= if e.acked(ack) && !e.retransmitted {
        measured(entries, ack, now).push(e.age(now))
    } else {
        measured(entries, ack, now)
    });
}

proof fn overdue_step(entries: Seq<EntryView>, e: EntryView, now: Nanos, rto: Nanos)
    ensures
        overdue(entries.push(e), now, rto) == if e.age(now) >= rto {
            overdue(entries, now, rto).push((e.seq, e.data))
        } else {
            overdue(entries, now, rto)
        },
{
    broadcast use Seq::lemma_filter_push;

    assert(overdue(entries.push(e), now, rto) =~= if e.age(now) >= rto {
        overdue(entries, now, rto).push((e.seq, e.data))
    } else {
        overdue(entries, now, rto)
    });
}

proof fn empty_filters(ack: u32, now: Nanos, rto: Nanos)
    ensures
        unacked(Seq::empty(), ack) == Seq::<EntryView>::empty(),
        measured(Seq::empty(), ack, now) == Seq::<Nanos>::empty(),
        overdue(Seq::empty(), now, rto) == Seq::<(u32, Seq<u8>)>::empty(),
{
    reveal(Seq::filter);
    assert(measured(Seq::empty(), ack, now) =~= Seq::<Nanos>::empty());
    assert(overdue(Seq::empty(), now, rto) =~= Seq::<(u32, Seq<u8>)>::empty());
}

impl RetransmitQueue {
    pub fn new() -> (r: Self)
        ensures
            r@ == RetransmitView::fresh(),
            r.clock().was_started(),
            r.clock().latest() == 0,
    {
        let r = RetransmitQueue {
            clock: Clock::start(),
            entries: Vec::new(),
            rto: INITIAL_RTO,
            rtt: RttEstimator::new(),
        };
        assert(r@ =~= RetransmitView::fresh());
        r
    }

    /// The queue's clock, by which its segments age.
    pub closed spec fn clock(self) -> Clock {
        self.clock
    }

    /// What the queue's clock shows.
    pub fn now(&self) -> (r: Nanos)
        ensures
            self.clock().reads(r),
    {
        self.clock.now()
    }

    /// Reads the queue's clock.
    pub fn read_clock(&mut self) -> (r: Nanos)
        ensures
            final(self).clock().read_from(old(self).clock(), r),
            final(self)@ == old(self)@,
    {
        self.clock.read()
    }

    /// Queues a segment that is sent now.
    pub fn push(&mut self, seq: u32, data: Vec<u8>)
        ensures
            exists|now: Nanos|
                final(self)@ == #[trigger] old(self)@.pushed(seq, data@, now)
                    && final(self).clock().read_from(old(self).clock(), now),
    {
        let now: Nanos = self.read_clock();
        self.push_at(seq, data, now);
    }

    /// Queues a segment that is sent at `now`.
    pub fn push_at(&mut self, seq: u32, data: Vec<u8>, now: Nanos)
        ensures
            final(self)@ == old(self)@.pushed(seq, data@, now),
            final(self).clock() == old(self).clock(),
    {
        if self.entries.len() < RETRANSMIT_QUEUE_MAX {
            self.entries.push(
                RetransmitEntry { seq, data, sent_at: now, retransmitted: false },
            );
            assert(self@.entries =~= old(self)@.pushed(seq, data@, now).entries);
        }
    }

    /// Removes the segments that are acknowledged now, and has the timeout follow the round-trip
    /// times of those that were sent once.
    pub fn acknowledge_and_sample_rtt(&mut self, ack: u32)
        ensures
            exists|now: Nanos|
                final(self)@ == #[trigger] old(self)@.acknowledged(ack, now)
                    && final(self).clock().read_from(old(self).clock(), now),
    {
        let now: Nanos = self.read_clock();
        self.acknowledge_at(ack, now);
    }

    /// Removes the segments that are acknowledged at `now`, and has the timeout follow the round-trip
    /// times of those that were sent once.
    pub fn acknowledge_at(&mut self, ack: u32, now: Nanos)
        ensures
            final(self)@ == old(self)@.acknowledged(ack, now),
            final(self).clock() == old(self).clock(),
    {
        let mut queued: Vec<RetransmitEntry> = Vec::new();
        std::mem::swap(&mut queued, &mut self.entries);
        let ghost all = queued@;
        proof {
            empty_filters(ack, now, self.rto);
            assert(entry_views(all.take(0)) =~= Seq::<EntryView>::empty());
            assert(entry_views(self.entries@) =~= Seq::<EntryView>::empty());
        }
        for e in it: queued
            invariant
                it.seq() == all,
                self.clock == old(self).clock,
                entry_views(self.entries@) == unacked(
                    entry_views(all.take(it.index() as int)),
                    ack,
                ),
                self.rtt@ == absorbed(
                    old(self).rtt@,
                    measured(entry_views(all.take(it.index() as int)), ack, now),
                ),
                self.rto == timeout_after(
                    old(self).rto,
                    self.rtt@,
                    measured(entry_views(all.take(it.index() as int)), ack, now),
                ),
        {
            let ghost i = it.index() as int;
            proof {
                acknowledge_step(entry_views(all.take(i)), e@, ack, now);
                assert(entry_views(all.take(i + 1)) =~= entry_views(all.take(i)).push(e@));
            }
            if e.acked(ack) {
                if !e.retransmitted {
                    let ghost samples = measured(entry_views(all.take(i)), ack, now);
                    assert(samples.push(e@.age(now)).drop_last() =~= samples);
                    self.update_rto(e.age(now));
                }
            } else {
                let ghost before = self.entries@;
                self.entries.push(e);
                assert(entry_views(self.entries@) =~= entry_views(before).push(e@));
            }
        }
        assert(all.take(all.len() as int) =~= all);
    }

    /// The segments to send again now.
    pub fn expired_segments(&mut self) -> (r: Vec<(u32, Vec<u8>)>)
        ensures
            exists|now: Nanos|
                segment_views(r@) == old(self)@.expired(now) && final(self)@
                    == #[trigger] old(self)@.backed_off(now) && final(self).clock().read_from(
                    old(self).clock(),
                    now,
                ),
    {
        let now: Nanos = self.read_clock();
        self.expired_at(now)
    }

    /// The segments to send again at `now`.
    pub fn expired_at(&mut self, now: Nanos) -> (r: Vec<(u32, Vec<u8>)>)
        ensures
            segment_views(r@) == old(self)@.expired(now),
            final(self)@ == old(self)@.backed_off(now),
            final(self).clock() == old(self).clock(),
    {
        let rto: Nanos = self.rto;
        let ghost all = old(self)@.entries;
        let mut expired: Vec<(u32, Vec<u8>)> = Vec::new();
        let mut i: usize = 0;
        proof {
            empty_filters(0, now, rto);
            assert(all.take(0) =~= Seq::<EntryView>::empty());
            assert(segment_views(expired@) =~= Seq::<(u32, Seq<u8>)>::empty());
        }
        while i < self.entries.len()
            invariant
                i <= self.entries@.len(),
                self.entries@.len() == all.len(),
                all == old(self)@.entries,
                rto == old(self).rto,
                self.rto == rto,
                self.rtt == old(self).rtt,
                self.clock == old(self).clock,
                segment_views(expired@) == overdue(all.take(i as int), now, rto),
                forall|j: int|
                    0 <= j < i ==> (#[trigger] self.entries@[j])@ == if all[j].age(now) >= rto {
                        all[j].resent(now)
                    } else {
                        all[j]
                    },
                forall|j: int|
                    i <= j < self.entries@.len() ==> (#[trigger] self.entries@[j])@ == all[j],
            decreases self.entries@.len() - i,
        {
            proof {
                overdue_step(all.take(i as int), all[i as int], now, rto);
                assert(all.take(i + 1) =~= all.take(i as int).push(all[i as int]));
            }
            if self.entries[i].age(now) >= rto {
                let ghost before = expired@;
                let data = copy_bytes(self.entries[i].data.as_slice());
                expired.push((self.entries[i].seq, data));
                assert(segment_views(expired@) =~= segment_views(before).push(
                    (all[i as int].seq, all[i as int].data),
                ));
                self.entries[i].sent_at = now;
                self.entries[i].retransmitted = true;
            }
            i = i + 1;
        }
        assert(all.take(i as int) =~= all);
        if expired.len() > 0 {
            self.rto = if rto <= MAX_RTO / 2 { rto * 2 } else { MAX_RTO };
        }
        assert(self@.entries =~= old(self)@.backed_off(now).entries);
        expired
    }

    pub fn first_unacked(&self) -> (r: Option<(u32, Vec<u8>)>)
        ensures
            match r {
                Some((seq, data)) => self@.head() == Some((seq, data@)),
                None => self@.head() is None,
            },
    {
        if self.entries.len() == 0 {
            None
        } else {
            Some((self.entries[0].seq, copy_bytes(self.entries[0].data.as_slice())))
        }
    }

    pub fn is_empty(&self) -> (r: bool)
        ensures
            r == (self@.entries.len() == 0),
    {
        self.entries.len() == 0
    }

    pub fn len(&self) -> (r: usize)
        ensures
            r == self@.entries.len(),
    {
        self.entries.len()
    }

    /// Folds a measured round-trip time into the estimate, and has the timeout follow it.
    fn update_rto(&mut self, rtt: Nanos)
        ensures
            final(self)@.rtt == old(self)@.rtt.updated(rtt),
            final(self).rto == final(self)@.rtt.timeout(),
            final(self).entries == old(self).entries,
            final(self).clock == old(self).clock,
    {
        self.rtt = self.rtt.updated(rtt);
        self.rto = self.rtt.timeout();
    }
}

/// Numbered byte strings as values.
pub open spec fn segment_views(segments: Seq<(u32, Vec<u8>)>) -> Seq<(u32, Seq<u8>)> {
    segments.map_values(|s: (u32, Vec<u8>)| (s.0, s.1@))
}

/// The queue never holds more segments than its bound, whatever is done with it.
pub proof fn queue_stays_bounded(v: RetransmitView, seq: u32, data: Seq<u8>, ack: u32, now: Nanos)
    requires
        v.entries.len() <= RETRANSMIT_QUEUE_MAX,
    ensures
        v.pushed(seq, data, now).entries.len() <= RETRANSMIT_QUEUE_MAX,
        v.acknowledged(ack, now).entries.len() <= RETRANSMIT_QUEUE_MAX,
        v.backed_off(now).entries.len() <= RETRANSMIT_QUEUE_MAX,
{
    v.entries.lemma_filter_len(|e: EntryView| !e.acked(ack));
}

/// Karn's algorithm: a round-trip time is only ever measured on a segment that was sent once, and
/// is the time from its sending to its acknowledgment.
pub proof fn only_segments_sent_once_are_measured(
    entries: Seq<EntryView>,
    ack: u32,
    now: Nanos,
    i: int,
)
    requires
        0 <= i < measured(entries, ack, now).len(),
    ensures
        exists|e: EntryView| #[trigger]
            entries.contains(e) && !e.retransmitted && e.acked(ack) && measured(
                entries,
                ack,
                now,
            )[i] == e.age(now),
{
    let pred = |e: EntryView| e.acked(ack) && !e.retransmitted;
    let chosen = entries.filter(pred);
    let e = chosen[i];
    entries.lemma_filter_pred(pred, i);
    assert(chosen.contains(e));
    entries.lemma_filter_contains_rev(pred, e);
    assert(measured(entries, ack, now)[i] == e.age(now));
}

/// An acknowledgment removes exactly the segments that it covers; the others stay as they were, in
/// their order.
pub proof fn acknowledgment_keeps_the_rest(v: RetransmitView, ack: u32, now: Nanos, e: EntryView)
    ensures
        v.acknowledged(ack, now).entries.contains(e) <==> v.entries.contains(e) && !e.acked(ack),
{
    let pred = |e: EntryView| !e.acked(ack);
    let kept = v.acknowledged(ack, now).entries;
    if v.entries.contains(e) && !e.acked(ack) {
        let i = choose|i: int| 0 <= i < v.entries.len() && v.entries[i] == e;
        v.entries.lemma_filter_contains(pred, i);
    }
    if kept.contains(e) {
        let i = choose|i: int| 0 <= i < kept.len() && kept[i] == e;
        v.entries.lemma_filter_pred(pred, i);
        v.entries.lemma_filter_contains_rev(pred, e);
    }
}

/// Sending again loses nothing: the same segments stay queued, with the same numbers and bytes, and
/// every one that was overdue is marked, so that it is not measured.
pub proof fn resending_keeps_the_segments(v: RetransmitView, now: Nanos, i: int)
    requires
        0 <= i < v.entries.len(),
    ensures
        v.backed_off(now).entries.len() == v.entries.len(),
        v.backed_off(now).entries[i].seq == v.entries[i].seq,
        v.backed_off(now).entries[i].data == v.entries[i].data,
        v.entries[i].age(now) >= v.rto ==> v.backed_off(now).entries[i].retransmitted,
{
}

/// The timeout starts between its bounds and stays there: what is measured moves it within them, and
/// backing off never shortens it nor takes it past the longest allowed.
pub proof fn timeout_stays_in_bounds(v: RetransmitView, ack: u32, now: Nanos)
    requires
        MIN_RTO <= v.rto <= MAX_RTO,
    ensures
        MIN_RTO <= RetransmitView::fresh().rto <= MAX_RTO,
        MIN_RTO <= v.acknowledged(ack, now).rto <= MAX_RTO,
        v.rto <= v.backed_off(now).rto <= MAX_RTO,
{
}

/// The other side of Karn's algorithm: an acknowledgment of nothing but segments that were sent more
/// than once moves neither the estimate nor the timeout, so that a backed-off timeout stays.
pub proof fn resent_segments_leave_the_timeout(v: RetransmitView, ack: u32, now: Nanos)
    requires
        forall|i: int|
            0 <= i < v.entries.len() && (#[trigger] v.entries[i]).acked(ack)
                ==> v.entries[i].retransmitted,
    ensures
        v.acknowledged(ack, now).rto == v.rto,
        v.acknowledged(ack, now).rtt == v.rtt,
{
    let samples = measured(v.entries, ack, now);
    if samples.len() > 0 {
        only_segments_sent_once_are_measured(v.entries, ack, now, 0);
        let e = choose|e: EntryView| #[trigger]
            v.entries.contains(e) && !e.retransmitted && e.acked(ack) && samples[0] == e.age(now);
        let i = choose|i: int| 0 <= i < v.entries.len() && v.entries[i] == e;
        assert(v.entries[i].acked(ack));
    }
}

/// The first round trip sets the timeout to three times its length, within the bounds. From then on
/// the smoothed time lies between what it was and what was measured, and while round trips take as
/// long as they are expected to, their variation and with it the timeout only shrink.
pub proof fn estimate_follows_the_round_trips(r: RttView, rtt: Nanos)
    requires
        rtt <= LONGEST_RTT,
    ensures
        RttView::fresh().updated(rtt).timeout() == clamped_rto(3 * rtt),
        r.srtt matches Some(srtt) ==> {
            let next = r.updated(rtt);
            let sample = parts_of(rtt);
            &&& next.srtt matches Some(smoothed) && (srtt <= smoothed <= sample || sample
                <= smoothed <= srtt)
            &&& srtt == sample ==> next.rttvar <= r.rttvar && next.timeout() <= r.timeout()
        },
{
}

/// Exponential backoff: when anything was overdue the timeout is twice as long, up to the longest
/// allowed, and no segment is overdue again at once.
pub proof fn backoff_doubles_the_timeout(v: RetransmitView, now: Nanos)
    requires
        0 < v.rto <= MAX_RTO,
        v.expired(now).len() > 0,
    ensures
        v.backed_off(now).rto == if 2 * v.rto < MAX_RTO {
            2 * v.rto
        } else {
            MAX_RTO as int
        },
        v.backed_off(now).expired(now).len() == 0,
{
    let w = v.backed_off(now);
    let pred = |e: EntryView| e.age(now) >= w.rto;
    assert forall|i: int| 0 <= i < w.entries.len() implies !pred(#[trigger] w.entries[i]) by {
        assert(w.entries[i].age(now) < w.rto);
    }
    let left = w.entries.filter(pred);
    if left.len() > 0 {
        w.entries.lemma_filter_pred(pred, 0);
        assert(left.contains(left[0]));
        w.entries.lemma_filter_contains_rev(pred, left[0]);
    }
}

/// A segment is overdue exactly when as much time as the timeout has passed since it was last sent:
/// each such segment is among those to send again, and nothing else is.
pub proof fn overdue_segments_are_sent_again(v: RetransmitView, now: Nanos, i: int)
    ensures
        0 <= i < v.entries.len() && v.entries[i].sent_at + v.rto <= now ==> v.expired(
            now,
        ).contains((v.entries[i].seq, v.entries[i].data)),
        0 <= i < v.expired(now).len() && v.rto > 0 ==> exists|j: int|
            0 <= j < v.entries.len() && (#[trigger] v.entries[j]).sent_at + v.rto <= now
                && v.expired(now)[i] == (v.entries[j].seq, v.entries[j].data),
{
    let pred = |e: EntryView| e.age(now) >= v.rto;
    let late = v.entries.filter(pred);
    if 0 <= i < v.entries.len() && v.entries[i].sent_at + v.rto <= now {
        v.entries.lemma_filter_contains(pred, i);
        let k = choose|k: int| 0 <= k < late.len() && late[k] == v.entries[i];
        assert(v.expired(now)[k] == (v.entries[i].seq, v.entries[i].data));
    }
    if 0 <= i < v.expired(now).len() && v.rto > 0 {
        v.entries.lemma_filter_pred(pred, i);
        assert(late.contains(late[i]));
        v.entries.lemma_filter_contains_rev(pred, late[i]);
        let j = choose|j: int| 0 <= j < v.entries.len() && v.entries[j] == late[i];
        assert(v.entries[j].sent_at + v.rto <= now);
    }
}

/// A segment that is sent again counts as sent at that moment, the others keep theirs.
pub proof fn resending_restarts_the_wait(v: RetransmitView, now: Nanos, i: int)
    requires
        0 <= i < v.entries.len(),
        v.rto > 0,
    ensures
        ({
            let after = v.backed_off(now).entries[i];
            &&& v.entries[i].sent_at + v.rto <= now ==> after.sent_at == now && after.retransmitted
            &&& v.entries[i].sent_at + v.rto > now ==> after == v.entries[i]
        }),
        v.backed_off(now).rtt == v.rtt,
{
}

/// A segment that is sent for the first time goes to the end of the queue, with its moment and not
/// marked, unless the queue holds 128 segments already. Nothing else changes.
pub proof fn pushed_segment_is_last(v: RetransmitView, seq: u32, data: Seq<u8>, now: Nanos)
    ensures
        ({
            let after = v.pushed(seq, data, now);
            &&& after.rto == v.rto && after.rtt == v.rtt
            &&& v.entries.len() >= 128 ==> after.entries == v.entries
            &&& v.entries.len() < 128 ==> {
                &&& after.entries.len() == v.entries.len() + 1
                &&& after.entries.drop_last() == v.entries
                &&& after.entries.last().seq == seq
                &&& after.entries.last().data == data
                &&& after.entries.last().sent_at == now
                &&& !after.entries.last().retransmitted
            }
        }),
{
    assert(v.entries.len() < 128 ==> v.pushed(seq, data, now).entries.drop_last() =~= v.entries);
}

/// A segment counts as acknowledged exactly when the number behind its last byte does not lie beyond
/// the acknowledgment.
pub proof fn segment_is_acknowledged_by_its_end(e: EntryView, ack: u32)
    ensures
        e.acked(ack) <==> distance(ahead(e.seq, e.data.len() as int), ack) < 0x8000_0000,
{
}

/// Each segment that an acknowledgment covers and that was sent only once is measured: the time from
/// its sending to the acknowledgment.
pub proof fn every_clean_segment_is_measured(
    entries: Seq<EntryView>,
    ack: u32,
    now: Nanos,
    i: int,
)
    requires
        0 <= i < entries.len(),
        entries[i].acked(ack),
        !entries[i].retransmitted,
        entries[i].sent_at <= now,
    ensures
        measured(entries, ack, now).contains((now - entries[i].sent_at) as Nanos),
{
    let pred = |e: EntryView| e.acked(ack) && !e.retransmitted;
    entries.lemma_filter_contains(pred, i);
    let clean = entries.filter(pred);
    let k = choose|k: int| 0 <= k < clean.len() && clean[k] == entries[i];
    assert(measured(entries, ack, now)[k] == (now - entries[i].sent_at) as Nanos);
}

/// The smoothing of RFC 6298: an eighth of each round trip goes into the smoothed time, a quarter of
/// its distance from that into the variation, and the timeout is the smoothed time and four times
/// the variation, to the nearest nanosecond and within its bounds.
pub proof fn smoothing_weighs_the_round_trips(r: RttView, rtt: Nanos)
    requires
        r.srtt is Some,
        rtt <= LONGEST_RTT,
    ensures
        ({
            let old_srtt = r.srtt->0 as int;
            let sample = rtt * 65536;
            let off = if old_srtt < sample {
                sample - old_srtt
            } else {
                old_srtt - sample
            };
            let next = r.updated(rtt);
            let new_srtt = next.srtt->0 as int;
            let exact = new_srtt + 4 * next.rttvar;
            &&& next.srtt is Some
            &&& 8 * new_srtt <= 7 * old_srtt + sample < 8 * new_srtt + 8
            &&& 4 * next.rttvar <= 3 * r.rttvar + off < 4 * next.rttvar + 4
            &&& 200_000_000 <= next.timeout() <= 60_000_000_000
            &&& 200_000_000 * 65536 <= exact <= 60_000_000_000 * 65536 ==> -32768 <= next.timeout()
                * 65536 - exact <= 32768
            &&& exact < 200_000_000 * 65536 ==> next.timeout() == 200_000_000
            &&& exact > 60_000_000_000 * 65536 ==> next.timeout() == 60_000_000_000
        }),
{
}

/// An acknowledgment without a measurement leaves the timeout; with one measurement the timeout is
/// what the estimate gives that takes it in.
pub proof fn timeout_follows_the_measurement(v: RetransmitView, ack: u32, now: Nanos)
    ensures
        ({
            let samples = measured(v.entries, ack, now);
            let after = v.acknowledged(ack, now);
            &&& samples.len() == 0 ==> after.rto == v.rto && after.rtt == v.rtt
            &&& samples.len() == 1 ==> after.rtt == v.rtt.updated(samples[0]) && after.rto
                == v.rtt.updated(samples[0]).timeout()
            &&& samples.len() > 0 ==> after.rto == after.rtt.timeout()
        }),
{
    let samples = measured(v.entries, ack, now);
    if samples.len() == 1 {
        let none = samples.drop_last();
        assert(none.len() == 0);
        assert(absorbed(v.rtt, none) == v.rtt);
        assert(samples.last() == samples[0]);
    }
}


} // verus!
