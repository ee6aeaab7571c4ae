//! Spans of time, and points in time read off a monotonic clock.
use vstd::prelude::*;

verus! {

/// A span of time: whole seconds, and the nanoseconds beyond them.
#[derive(Clone, Copy, Debug, PartialEq, Eq, Hash, Structural)]
pub struct Duration {
    pub secs: u64,
    pub nanos: u32,
}

impl Duration {
    /// The span as a number of nanoseconds.
    pub open spec fn as_nanos(self) -> nat {
        self.secs as nat * 1_000_000_000 + self.nanos as nat
    }

    /// The nanoseconds make up less than a second.
    pub open spec fn wf(self) -> bool {
        self.nanos < 1_000_000_000
    }

    /// A span of `n` seconds.
    pub fn from_secs(n: u64) -> (d: Duration)
        ensures
            d.wf(),
            d.as_nanos() == n * 1_000_000_000,
            d == (Duration { secs: n, nanos: 0 }),
    {
        Duration { secs: n, nanos: 0 }
    }

    /// A span of `n` milliseconds.
    pub fn from_millis(n: u64) -> (d: Duration)
        ensures
            d.wf(),
            d.as_nanos() == n * 1_000_000,
            d == (Duration { secs: n / 1000, nanos: ((n % 1000) * 1_000_000) as u32 }),
    {
        let nanos: u32 = ((n % 1000) * 1_000_000) as u32;
        Duration { secs: n / 1000, nanos }
    }

    /// The span as a number of nanoseconds.
    pub fn total_nanos(self) -> (n: u128)
        ensures
            n == self.as_nanos(),
    {
        self.secs as u128 * 1_000_000_000 + self.nanos as u128
    }
}

/// A point in time: how long after its clock was started it lies.
#[derive(Clone, Copy, Debug, PartialEq, Eq, Structural)]
pub struct Instant {
    pub since_start: Duration,
}

/// The time from `at` to `now` in nanoseconds; zero where `now` is the earlier one.
pub open spec fn nanos_between(at: Instant, now: Instant) -> nat {
    let from = at.since_start.as_nanos();
    let to = now.since_start.as_nanos();
    if from <= to {
        (to - from) as nat
    } else {
        0
    }
}

#[verifier::external_type_specification]
#[verifier::external_body]
pub struct ExInstant(std::time::Instant);

/// Reads the monotonic clock with `std::time::Instant::now`. Nothing is claimed of the reading.
#[verifier::external_body]
fn monotonic_now() -> std::time::Instant {
    std::time::Instant::now()
}

/// The time since `start`, from `std::time::Instant::elapsed`. It rests on when it is asked: all that
/// is claimed is that its part below a second is less than one. How long it is, is left unsaid.
#[verifier::external_body]
fn elapsed_since(start: &std::time::Instant) -> (d: Duration)
    ensures
        d.wf(),
{
    let d = start.elapsed();
    Duration { secs: d.as_secs(), nanos: d.subsec_nanos() }
}

/// A monotonic clock that counts from when it was made.
#[derive(Debug)]
pub struct Clock {
    started: std::time::Instant,
}

impl Clock {
    /// Whether the clock counts from a reading of the monotonic clock.
    pub closed spec fn is_started(&self) -> bool {
        call_ensures(monotonic_now, (), self.started)
    }

    /// Whether `i` is what this clock said when it was asked: the time that went by since its start.
    pub closed spec fn reads(&self, i: Instant) -> bool {
        call_ensures(elapsed_since, (&self.started,), i.since_start)
    }

    /// A clock that starts now.
    pub fn start() -> (c: Clock)
        ensures
            c.is_started(),
    {
        Clock { started: monotonic_now() }
    }

    /// The present point in time.
    pub fn now(&self) -> (i: Instant)
        ensures
            self.reads(i),
            i.since_start.wf(),
    {
        Instant { since_start: elapsed_since(&self.started) }
    }
}

/// A span is its seconds and its nanoseconds together, and two points lie as far apart as their
/// distances from the start differ, or not at all where the later one is asked about first.
pub proof fn spans_are_counted_in_nanoseconds(d: Duration, at: Instant, now: Instant)
    ensures
        d.as_nanos() == d.secs * 1_000_000_000 + d.nanos,
        d.wf() <==> d.nanos < 1_000_000_000,
        ({
            let from = at.since_start.secs * 1_000_000_000 + at.since_start.nanos;
            let to = now.since_start.secs * 1_000_000_000 + now.since_start.nanos;
            nanos_between(at, now) == if from <= to {
                to - from
            } else {
                0
            }
        }),
{
}

} // verus!
