//! Time as plain numbers: a monotonic clock in nanoseconds and the wall clock.
use std::time::{Instant, SystemTime, UNIX_EPOCH};
use vstd::prelude::*;

verus! {

/// A span of time, or a moment on a [`Clock`] as the span since the clock was started, in
/// nanoseconds.
pub type Nanos = u128;

pub const NANOS_PER_MILLI: u128 = 1_000_000;

pub const NANOS_PER_SEC: u128 = 1_000_000_000;

/// `std::time::Instant`, carried as an opaque value.
#[verifier::external_type_specification]
#[verifier::external_body]
pub struct ExInstant(Instant);

/// A monotonic clock that shows how long ago it was started. It remembers the latest of its readings
/// that were taken with [`Clock::read`], and shows nothing before that.
#[derive(Debug, Clone, Copy)]
pub struct Clock {
    origin: Instant,
    latest: Nanos,
}

impl Clock {
    /// The latest reading that was taken with `read`, or zero before the first.
    pub closed spec fn latest(self) -> Nanos {
        self.latest
    }

    /// Whether `t` is a measurement of the time since this clock was started: what measuring it gave.
    pub closed spec fn measured(self, t: Nanos) -> bool {
        call_ensures(elapsed_nanos, (&self.origin,), t)
    }

    /// Whether both are the same clock: they were started together.
    pub closed spec fn same_clock(self, other: Clock) -> bool {
        self.origin == other.origin
    }

    /// Whether the clock was started at a moment that the system's clock gave.
    pub closed spec fn was_started(self) -> bool {
        call_ensures(current_instant, (), self.origin)
    }

    /// Whether `now` is a reading of this clock: a measurement of the time since it was started, but
    /// nothing before its latest reading.
    pub open spec fn reads(self, now: Nanos) -> bool {
        exists|t: Nanos| #[trigger]
            self.measured(t) && now == if t > self.latest() {
                t
            } else {
                self.latest()
            }
    }

    /// Whether this is the clock `before` after it was read once and showed `now`.
    pub open spec fn read_from(self, before: Clock, now: Nanos) -> bool {
        &&& self.same_clock(before)
        &&& before.reads(now)
        &&& self.latest() == now
    }

    /// A clock that starts now.
    pub fn start() -> (r: Self)
        ensures
            r.was_started(),
            r.latest() == 0,
    {
        Clock { origin: current_instant(), latest: 0 }
    }

    /// What the clock shows: the nanoseconds since it was started.
    pub fn now(&self) -> (r: Nanos)
        ensures
            self.reads(r),
    {
        let t: Nanos = elapsed_nanos(&self.origin);
        assert(self.measured(t));
        if t > self.latest {
            t
        } else {
            self.latest
        }
    }

    /// What the clock shows, to be remembered as its latest reading.
    pub fn read(&mut self) -> (r: Nanos)
        ensures
            final(self).read_from(*old(self), r),
    {
        let now: Nanos = self.now();
        self.latest = now;
        now
    }
}

/// No reading of a clock comes before one that was taken earlier, however many lie between.
pub proof fn readings_never_go_back(a: Clock, b: Clock, c: Clock, t1: Nanos, t2: Nanos)
    requires
        b.read_from(a, t1),
        c.read_from(b, t2),
    ensures
        a.latest() <= t1 <= t2,
        c.latest() == t2,
        c.same_clock(a),
{
}

/// Whether the wall clock was read as `secs` seconds and `nanos` nanoseconds after the Unix epoch.
pub closed spec fn wall_clock_reads(secs: u64, nanos: u32) -> bool {
    call_ensures(unix_time, (), (secs, nanos))
}

/// `std::time::Instant::now`, the current moment. Nothing is claimed of the value.
#[verifier::external_body]
fn current_instant() -> (r: Instant) {
    Instant::now()
}

/// `std::time::Instant::elapsed`, as a number of nanoseconds. The result depends on the moment of
/// the call, so nothing is claimed of it.
#[verifier::external_body]
fn elapsed_nanos(origin: &Instant) -> (r: Nanos) {
    origin.elapsed().as_nanos()
}

/// The wall clock of `std::time::SystemTime::now` as whole seconds since the Unix epoch and the
/// nanoseconds beyond them, both zero where the clock is set before the epoch. All that is claimed
/// is that the second number is less than one second.
#[verifier::external_body]
pub(crate) fn unix_time() -> (r: (u64, u32))
    ensures
        r.1 < 1_000_000_000,
{
    let since = SystemTime::now().duration_since(UNIX_EPOCH).unwrap_or_default();
    (since.as_secs(), since.subsec_nanos())
}

/// The wall clock: whole seconds since the Unix epoch, and the nanoseconds beyond them.
pub fn wall_clock() -> (r: (u64, u32))
    ensures
        wall_clock_reads(r.0, r.1),
        r.1 < 1_000_000_000,
{
    let (secs, nanos) = unix_time();
    (secs, nanos)
}

/// Whole seconds since the Unix epoch.
pub fn unix_seconds() -> (r: u64)
    ensures
        exists|nanos: u32| wall_clock_reads(r, nanos),
{
    let (secs, nanos) = wall_clock();
    secs
}

/// A measurement is what the system gave when it was asked how long ago the clock was started.
proof fn measurements_come_from_the_system(c: Clock, t: Nanos)
    requires
        c.measured(t),
    ensures
        call_ensures(elapsed_nanos, (&c.origin,), t),
{
}

/// So is what the wall clock shows.
proof fn wall_clock_comes_from_the_system(secs: u64, nanos: u32)
    requires
        wall_clock_reads(secs, nanos),
    ensures
        call_ensures(unix_time, (), (secs, nanos)),
        nanos < 1_000_000_000,
{
}

/// A reading is a measurement unless an earlier reading was later, and never lies before one.
pub proof fn readings_are_measurements(c: Clock, now: Nanos)
    requires
        c.reads(now),
    ensures
        c.latest() <= now,
        c.measured(now) || now == c.latest(),
        exists|t: Nanos| c.measured(t) && t <= now,
{
}


} // verus!
