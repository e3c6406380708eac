use vstd::prelude::*;

verus! {

#[verifier::external_type_specification]
#[verifier::external_body]
pub struct ExInstant(std::time::Instant);

/// Calls `Instant::now`: the time now. Nothing is known of the value.
#[verifier::external_body]
fn instant_now() -> (r: std::time::Instant) {
    std::time::Instant::now()
}

/// Calls `Instant::elapsed`: the time since `start`. The value depends on the time of the
/// call; nothing is known of it.
#[verifier::external_body]
fn instant_elapsed(start: &std::time::Instant) -> (r: std::time::Duration) {
    start.elapsed()
}

/// Calls `Duration::as_nanos`: the whole nanoseconds of `d`. Nothing is stated of the
/// value, since a `Duration` is opaque here.
#[verifier::external_body]
fn duration_as_nanos(d: &std::time::Duration) -> (r: u128) {
    d.as_nanos()
}

/// Calls `Duration::from_nanos`: a duration of `nanos` nanoseconds (opaque here).
#[verifier::external_body]
fn duration_from_nanos(nanos: u64) -> (r: std::time::Duration) {
    std::time::Duration::from_nanos(nanos)
}

/// Calls `Instant::checked_add`: the instant `d` after `start`, or `None` where the
/// platform cannot represent it. Nothing is stated of which.
#[verifier::external_body]
fn instant_checked_add(start: &std::time::Instant, d: std::time::Duration) -> (r: Option<
    std::time::Instant,
>) {
    start.checked_add(d)
}

/// Compares two instants with `>=` (`PartialOrd::ge`): whether `a` is not earlier than
/// `b`. Instants are opaque here, so nothing is stated of the answer.
#[verifier::external_body]
fn instant_not_before(a: &std::time::Instant, b: &std::time::Instant) -> (r: bool) {
    a >= b
}

/// The time now is at or past `deadline`. The answer depends on the clock.
pub fn deadline_passed(deadline: &std::time::Instant) -> (r: bool) {
    let now = instant_now();
    instant_not_before(&now, deadline)
}

/// The nanoseconds since `start`, at most `u64::MAX`.
fn elapsed_nanos(start: &std::time::Instant) -> (r: u64) {
    let nanos = duration_as_nanos(&instant_elapsed(start));
    if nanos > u64::MAX as u128 {
        u64::MAX
    } else {
        nanos as u64
    }
}

/// The instant `nanos` nanoseconds after `start`, or `start` itself where the platform
/// cannot represent it.
fn instant_after(start: std::time::Instant, nanos: u64) -> (r: std::time::Instant) {
    match instant_checked_add(&start, duration_from_nanos(nanos)) {
        Some(later) => later,
        None => start,
    }
}

/// `a - b`, but at least 0.
pub open spec fn sat_sub(a: nat, b: nat) -> nat {
    if a >= b {
        (a - b) as nat
    } else {
        0
    }
}

/// `a + b`, but at most `u64::MAX`.
pub open spec fn sat_add_u64(a: nat, b: nat) -> nat {
    if a + b <= u64::MAX {
        a + b
    } else {
        u64::MAX as nat
    }
}

/// Measures time while running; keeps the total across stops. Durations are in
/// nanoseconds.
#[derive(Debug)]
pub struct Stopwatch {
    snapshot: u64,
    start_instant: Option<std::time::Instant>,
}

impl Stopwatch {
    /// The time measured up to the last stop.
    pub closed spec fn snapshot(self) -> nat {
        self.snapshot as nat
    }

    /// The stopwatch runs.
    pub closed spec fn running(self) -> bool {
        self.start_instant is Some
    }

    /// Whether the stopwatch runs.
    pub fn is_running(&self) -> (r: bool)
        ensures
            r == self.running(),
    {
        self.start_instant.is_some()
    }

    /// A stopped stopwatch at zero.
    pub fn new() -> (r: Stopwatch)
        ensures
            r.snapshot() == 0,
            !r.running(),
    {
        Stopwatch { snapshot: 0, start_instant: None }
    }

    /// Starts measuring; the stopwatch must be stopped.
    pub fn start(&mut self)
        requires
            !old(self).running(),
        ensures
            final(self).running(),
            final(self).snapshot() == old(self).snapshot(),
    {
        self.start_instant = Some(instant_now());
    }

    /// Stops measuring and adds the time since the start (the total stays at most
    /// `u64::MAX`); the stopwatch must run.
    pub fn stop(&mut self)
        requires
            old(self).running(),
        ensures
            !final(self).running(),
            final(self).snapshot() >= old(self).snapshot(),
    {
        let elapsed = match &self.start_instant {
            Some(start) => elapsed_nanos(start),
            None => 0,
        };
        self.add_elapsed(elapsed);
    }

    /// Stops a running stopwatch after `elapsed` nanoseconds of this run: the total grows
    /// by `elapsed`, at most to `u64::MAX`.
    pub fn add_elapsed(&mut self, elapsed: u64)
        requires
            old(self).running(),
        ensures
            !final(self).running(),
            final(self).snapshot() == sat_add_u64(old(self).snapshot(), elapsed as nat),
    {
        self.snapshot = self.snapshot.saturating_add(elapsed);
        self.start_instant = None;
    }

    /// The time measured: the total of past runs, plus the time since the start when
    /// running.
    pub fn get(&self) -> (r: u64)
        ensures
            !self.running() ==> r == self.snapshot(),
            self.running() ==> r >= self.snapshot(),
    {
        match &self.start_instant {
            Some(start) => self.reading(elapsed_nanos(start)),
            None => self.snapshot,
        }
    }

    /// The time measured when the current run has lasted `elapsed` nanoseconds: the total
    /// of past runs, plus `elapsed` when running (at most `u64::MAX`).
    pub fn reading(&self, elapsed: u64) -> (r: u64)
        ensures
            !self.running() ==> r == self.snapshot(),
            self.running() ==> r == sat_add_u64(self.snapshot(), elapsed as nat),
    {
        match &self.start_instant {
            Some(_) => self.snapshot.saturating_add(elapsed),
            None => self.snapshot,
        }
    }

    /// How long after the start of the current run the measured time reaches `t`.
    pub fn offset_at(&self, t: u64) -> (r: u64)
        ensures
            r == sat_sub(t as nat, self.snapshot()),
    {
        t.saturating_sub(self.snapshot)
    }

    /// The instant at which the measured time reaches `t`; the stopwatch must run.
    pub fn instant_at(&self, t: u64) -> (r: std::time::Instant)
        requires
            self.running(),
    {
        let start = match &self.start_instant {
            Some(start) => *start,
            None => instant_now(),
        };
        instant_after(start, self.offset_at(t))
    }
}

/// A countdown from an initial time, run by a stopwatch.
#[derive(Debug)]
pub struct Timer {
    stopwatch: Stopwatch,
    initial: u64,
}

impl Timer {
    /// The time the countdown started from.
    pub closed spec fn initial(self) -> nat {
        self.initial as nat
    }

    /// The stopwatch that runs the countdown.
    pub closed spec fn stopwatch(self) -> Stopwatch {
        self.stopwatch
    }

    /// Whether the countdown runs.
    pub fn is_running(&self) -> (r: bool)
        ensures
            r == self.stopwatch().running(),
    {
        self.stopwatch.is_running()
    }

    /// A stopped countdown from `initial` nanoseconds.
    pub fn new(initial: u64) -> (r: Timer)
        ensures
            r.initial() == initial,
            r.stopwatch().snapshot() == 0,
            !r.stopwatch().running(),
    {
        Timer { stopwatch: Stopwatch::new(), initial }
    }

    /// Starts the countdown; it must be stopped.
    pub fn start(&mut self)
        requires
            !old(self).stopwatch().running(),
        ensures
            final(self).stopwatch().running(),
            final(self).stopwatch().snapshot() == old(self).stopwatch().snapshot(),
            final(self).initial() == old(self).initial(),
    {
        self.stopwatch.start();
    }

    /// Stops the countdown; it must run.
    pub fn stop(&mut self)
        requires
            old(self).stopwatch().running(),
        ensures
            !final(self).stopwatch().running(),
            final(self).stopwatch().snapshot() >= old(self).stopwatch().snapshot(),
            final(self).initial() == old(self).initial(),
    {
        self.stopwatch.stop();
    }

    /// The time left: the initial time less the time used, at least 0.
    pub fn get(&self) -> (r: u64)
        ensures
            !self.stopwatch().running() ==> r == sat_sub(self.initial(), self.stopwatch().snapshot()),
            r <= sat_sub(self.initial(), self.stopwatch().snapshot()),
    {
        self.left_after(self.stopwatch.get())
    }

    /// The time left once `used` nanoseconds are used: the initial time less `used`, at
    /// least 0.
    pub fn left_after(&self, used: u64) -> (r: u64)
        ensures
            r == sat_sub(self.initial(), used as nat),
    {
        self.initial.saturating_sub(used)
    }

    /// The time used.
    pub fn get_used(&self) -> (r: u64)
        ensures
            !self.stopwatch().running() ==> r == self.stopwatch().snapshot(),
            r >= self.stopwatch().snapshot(),
    {
        self.stopwatch.get()
    }

    /// The instant at which the time left falls to `t`; the countdown must run.
    pub fn instant_at(&self, t: u64) -> (r: std::time::Instant)
        requires
            self.stopwatch().running(),
    {
        self.stopwatch.instant_at(self.left_after(t))
    }
}

} // verus!
