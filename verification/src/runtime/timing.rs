//! High-resolution timer.
//!
//! A timer turns readings of a counter into elapsed nanoseconds, given how
//! many counts make a microsecond. The conversion is the same whatever the
//! counter is: a hardware cycle counter whose rate was measured, or the
//! portable monotonic clock, which counts nanoseconds.

use std::time::{Duration, Instant};
use vstd::prelude::*;

verus! {

/// Counts per microsecond assumed where a measurement gives no usable
/// rate: 3 GHz.
pub const DEFAULT_FREQUENCY_MHZ: u64 = 3000;

/// Counts per microsecond of the portable monotonic clock, which counts
/// nanoseconds.
pub const CLOCK_FREQUENCY_MHZ: u64 = 1000;

#[verifier::external_type_specification]
#[verifier::external_body]
pub struct ExInstant(Instant);

/// A reading of the monotonic clock, by `std::time::Instant::now`. Nothing
/// is claimed of the reading.
#[verifier::external_body]
fn clock_origin() -> Instant {
    Instant::now()
}

/// The time that the monotonic clock has counted since `origin`, by
/// `std::time::Instant::elapsed`. Nothing is claimed of it: it differs
/// from call to call.
#[verifier::external_body]
fn clock_elapsed(origin: &Instant) -> Duration {
    origin.elapsed()
}

/// The whole nanoseconds of a span of time, by
/// `std::time::Duration::as_nanos`.
#[verifier::external_body]
fn whole_nanos(span: Duration) -> u128 {
    span.as_nanos()
}

/// A count of nanoseconds as a reading of 64 bits: the count itself, or
/// the largest reading where it is beyond that.
pub open spec fn reading_of(ns: u128) -> u64 {
    if ns > u64::MAX {
        u64::MAX
    } else {
        ns as u64
    }
}

/// A count of nanoseconds as a reading of 64 bits.
fn as_reading(ns: u128) -> (r: u64)
    ensures
        r == reading_of(ns),
{
    if ns > u64::MAX as u128 {
        u64::MAX
    } else {
        ns as u64
    }
}

/// The nanoseconds that the monotonic clock has counted since `origin`, at
/// most the largest 64-bit number.
fn clock_ticks(origin: &Instant) -> u64 {
    as_reading(whole_nanos(clock_elapsed(origin)))
}

/// The rate of a counter, in counts per microsecond, that advanced by
/// `cycles` while `ns` nanoseconds passed: `cycles * 1000 / ns`, at most
/// the largest 64-bit number. Where no time passed, or the rate rounds
/// down to zero, it is `DEFAULT_FREQUENCY_MHZ`, so that a rate is never
/// zero.
pub open spec fn estimated_frequency(cycles: u64, ns: u64) -> u64 {
    if ns == 0 || cycles * 1000 / (ns as int) == 0 {
        DEFAULT_FREQUENCY_MHZ
    } else if cycles * 1000 / (ns as int) > u64::MAX {
        u64::MAX
    } else {
        (cycles * 1000 / (ns as int)) as u64
    }
}

/// The nanoseconds that `cycles` counts take at `frequency_mhz` counts per
/// microsecond: `cycles * 1000 / frequency_mhz`, at most the largest
/// 64-bit number.
pub open spec fn cycles_as_ns(cycles: u64, frequency_mhz: u64) -> u64 {
    if cycles * 1000 / (frequency_mhz as int) > u64::MAX {
        u64::MAX
    } else {
        (cycles * 1000 / (frequency_mhz as int)) as u64
    }
}

/// The nanoseconds between the reading `start` and the later reading
/// `now`; zero where `now` is not later.
pub open spec fn elapsed_between(start: u64, now: u64, frequency_mhz: u64) -> u64 {
    cycles_as_ns(if now >= start { (now - start) as u64 } else { 0 }, frequency_mhz)
}

/// High-precision timer
pub struct Timer {
    origin: Instant,
    start_cycles: u64,
    frequency_mhz: u64,
}

impl Timer {
    #[verifier::type_invariant]
    spec fn well_formed(self) -> bool {
        self.frequency_mhz > 0
    }

    /// Counts per microsecond of the counter that this timer reads.
    pub closed spec fn frequency(&self) -> u64 {
        self.frequency_mhz
    }

    /// The reading at which the timer was last started.
    pub closed spec fn started_at(&self) -> u64 {
        self.start_cycles
    }

    /// A timer on the portable monotonic clock, not yet started.
    pub fn new() -> (r: Self)
        ensures
            r.frequency() == CLOCK_FREQUENCY_MHZ,
            r.started_at() == 0,
    {
        Timer { origin: clock_origin(), start_cycles: 0, frequency_mhz: CLOCK_FREQUENCY_MHZ }
    }

    /// A timer for a counter that advanced by `cycles` while `ns`
    /// nanoseconds passed, to be driven with `start_at` and
    /// `elapsed_ns_at`.
    pub fn calibrated(cycles: u64, ns: u64) -> (r: Self)
        ensures
            r.frequency() == estimated_frequency(cycles, ns),
            r.started_at() == 0,
    {
        Timer {
            origin: clock_origin(),
            start_cycles: 0,
            frequency_mhz: Self::estimate_frequency(cycles, ns),
        }
    }

    /// Estimate counter frequency in MHz
    pub fn estimate_frequency(cycles: u64, ns: u64) -> (r: u64)
        ensures
            r == estimated_frequency(cycles, ns),
            r > 0,
    {
        if ns > 0 {
            let rate: u128 = (cycles as u128 * 1000) / (ns as u128);
            if rate == 0 {
                DEFAULT_FREQUENCY_MHZ
            } else if rate > u64::MAX as u128 {
                u64::MAX
            } else {
                rate as u64
            }
        } else {
            DEFAULT_FREQUENCY_MHZ
        }
    }

    /// Start timing at the counter reading `cycles`.
    #[inline]
    pub fn start_at(&mut self, cycles: u64)
        ensures
            final(self).started_at() == cycles,
            final(self).frequency() == old(self).frequency(),
    {
        proof {
            use_type_invariant(&*self);
        }
        self.start_cycles = cycles;
    }

    /// Start timing
    #[inline]
    pub fn start(&mut self)
        ensures
            final(self).frequency() == old(self).frequency(),
    {
        let now: u64 = clock_ticks(&self.origin);
        self.start_at(now);
    }

    /// Elapsed nanoseconds between the start and the counter reading
    /// `cycles`.
    #[inline]
    pub fn elapsed_ns_at(&self, cycles: u64) -> (r: u64)
        ensures
            r == elapsed_between(self.started_at(), cycles, self.frequency()),
    {
        let elapsed: u64 = cycles.saturating_sub(self.start_cycles);
        self.cycles_to_ns(elapsed)
    }

    /// Get elapsed nanoseconds since start: what `elapsed_ns_at` makes of
    /// the reading that the clock gives now.
    #[inline]
    pub fn elapsed_ns(&self) -> (r: u64)
        ensures
            exists|now: u64| r == elapsed_between(self.started_at(), now, self.frequency()),
    {
        let now: u64 = clock_ticks(&self.origin);
        self.elapsed_ns_at(now)
    }

    /// Get elapsed microseconds: what `elapsed_us_at` makes of the reading
    /// that the clock gives now.
    #[inline]
    pub fn elapsed_us(&self) -> (r: u64)
        ensures
            exists|now: u64|
                r == elapsed_between(self.started_at(), now, self.frequency()) / 1000,
    {
        let now: u64 = clock_ticks(&self.origin);
        self.elapsed_us_at(now)
    }

    /// Elapsed microseconds between the start and the counter reading
    /// `cycles`, rounded down.
    #[inline]
    pub fn elapsed_us_at(&self, cycles: u64) -> (r: u64)
        ensures
            r == elapsed_between(self.started_at(), cycles, self.frequency()) / 1000,
    {
        self.elapsed_ns_at(cycles) / 1000
    }

    #[inline]
    fn cycles_to_ns(&self, cycles: u64) -> (r: u64)
        ensures
            r == cycles_as_ns(cycles, self.frequency()),
    {
        proof {
            use_type_invariant(self);
        }
        let ns: u128 = (cycles as u128 * 1000) / (self.frequency_mhz as u128);
        if ns > u64::MAX as u128 {
            u64::MAX
        } else {
            ns as u64
        }
    }
}

/// A later reading never gives a smaller elapsed time.
pub proof fn lemma_elapsed_is_monotonic(start: u64, earlier: u64, later: u64, frequency_mhz: u64)
    requires
        frequency_mhz > 0,
        earlier <= later,
    ensures
        elapsed_between(start, earlier, frequency_mhz) <= elapsed_between(
            start,
            later,
            frequency_mhz,
        ),
{
    let a: int = if earlier >= start { earlier - start } else { 0 };
    let b: int = if later >= start { later - start } else { 0 };
    assert((a * 1000) / (frequency_mhz as int) <= (b * 1000) / (frequency_mhz as int))
        by (nonlinear_arith)
        requires
            0 <= a <= b,
            frequency_mhz > 0,
    ;
}

impl Default for Timer {
    fn default() -> (r: Timer)
        ensures
            r.frequency() == CLOCK_FREQUENCY_MHZ,
            r.started_at() == 0,
    {
        Timer::new()
    }
}

/// Scope-based timing for profiling: a name and a timer that runs from the
/// moment the value is made.
pub struct ScopedTimer<'a> {
    name: &'a str,
    timer: Timer,
}

impl<'a> ScopedTimer<'a> {
    /// The name that the scope was given.
    pub closed spec fn label(&self) -> Seq<char> {
        self.name@
    }

    /// The timer that runs since the scope began.
    pub closed spec fn timer(&self) -> Timer {
        self.timer
    }

    /// A scope of the given name whose timer, on the portable clock,
    /// starts now.
    pub fn new(name: &'a str) -> (r: Self)
        ensures
            r.label() == name@,
            r.timer().frequency() == CLOCK_FREQUENCY_MHZ,
    {
        let mut timer: Timer = Timer::new();
        timer.start();
        ScopedTimer { name, timer }
    }

    /// The name that the scope was given.
    pub fn name(&self) -> (r: &'a str)
        ensures
            r@ == self.label(),
    {
        self.name
    }

    /// Nanoseconds since the scope began: what the timer of the scope
    /// makes of the reading that the clock gives now.
    pub fn elapsed_ns(&self) -> (r: u64)
        ensures
            exists|now: u64|
                r == elapsed_between(
                    self.timer().started_at(),
                    now,
                    self.timer().frequency(),
                ),
    {
        let r: u64 = self.timer.elapsed_ns();
        proof {
            let now = choose|now: u64|
                r == elapsed_between(self.timer.started_at(), now, self.timer.frequency());
            assert(r == elapsed_between(
                self.timer().started_at(),
                now,
                self.timer().frequency(),
            ));
        }
        r
    }
}

} // verus!
