//! Readings of the machine's clocks.
//!
//! Every rule of the library that depends on time takes the time as an
//! argument. The functions here are where that argument comes from.

use vstd::prelude::*;

verus! {

/// Nanoseconds in one second.
pub const NANOS_PER_SEC: u64 = 1_000_000_000;

/// Nanoseconds in one millisecond.
pub const NANOS_PER_MILLI: u64 = 1_000_000;

/// An instant of the monotonic clock of std, carried through unread.
#[verifier::external_type_specification]
#[verifier::external_body]
pub struct ExInstant(std::time::Instant);

/// Calls `std::time::Instant::now`. The reading is the machine's, so nothing
/// is claimed of it.
#[verifier::external_body]
fn instant_now() -> std::time::Instant {
    std::time::Instant::now()
}

/// Calls `std::time::Instant::elapsed` and hands the duration over in
/// nanoseconds. The reading is the machine's, so nothing is claimed of it.
#[verifier::external_body]
fn instant_elapsed(origin: &std::time::Instant) -> u128 {
    origin.elapsed().as_nanos()
}

/// Calls `std::time::SystemTime::now` and hands over the nanoseconds since the
/// Unix epoch, or `None` for a clock set before it. The reading is the
/// machine's, so nothing is claimed of it.
#[verifier::external_body]
fn system_time_nanos() -> Option<u128> {
    let since_epoch = std::time::SystemTime::now().duration_since(std::time::UNIX_EPOCH);
    since_epoch.ok().map(|elapsed| elapsed.as_nanos())
}

/// Nanoseconds since the Unix epoch by a reading of the wall clock; a clock set before
/// the epoch, which has no reading, counts as the epoch.
pub fn nanos_since_epoch(reading: Option<u128>) -> (nanos: u128)
    ensures
        nanos == match reading {
            Some(since) => since,
            None => 0,
        },
{
    match reading {
        Some(since) => since,
        None => 0,
    }
}

/// [`nanos_since_epoch`] right now. The reading is the machine's.
fn unix_time_nanos() -> u128 {
    nanos_since_epoch(system_time_nanos())
}

/// `nanos` as it fits a 64-bit counter: the largest value stands for
/// everything beyond it.
pub fn clamp_nanos(nanos: u128) -> (result: u64)
    ensures
        nanos <= u64::MAX ==> result == nanos,
        nanos > u64::MAX ==> result == u64::MAX,
{
    if nanos > u64::MAX as u128 {
        u64::MAX
    } else {
        nanos as u64
    }
}

/// A monotonic clock that counts nanoseconds from the moment it was started.
pub struct Clock {
    origin: std::time::Instant,
}

impl Clock {
    /// Start counting now.
    pub fn start() -> Clock {
        Clock { origin: instant_now() }
    }

    /// Nanoseconds since [`Clock::start`]: [`clamp_nanos`] of the machine's reading.
    pub fn now(&self) -> u64 {
        clamp_nanos(instant_elapsed(&self.origin))
    }
}

/// Whole seconds in `nanos`.
pub open spec fn in_seconds(nanos: u64) -> u64 {
    nanos / NANOS_PER_SEC
}

/// Whole seconds in `nanos`.
pub fn whole_seconds(nanos: u64) -> (secs: u64)
    ensures
        secs == nanos / NANOS_PER_SEC,
{
    nanos / NANOS_PER_SEC
}

/// Whole milliseconds in `nanos`, as they fit a signed 64-bit timestamp.
pub fn nanos_to_millis(nanos: u128) -> (millis: i64)
    ensures
        nanos / 1_000_000 <= i64::MAX ==> millis == nanos / 1_000_000,
        nanos / 1_000_000 > i64::MAX ==> millis == i64::MAX,
{
    let whole: u128 = nanos / 1_000_000;
    if whole > i64::MAX as u128 {
        i64::MAX
    } else {
        whole as i64
    }
}

/// Whole seconds in `nanos`, as they fit 64 bits.
pub fn nanos_to_secs(nanos: u128) -> (secs: u64)
    ensures
        nanos / 1_000_000_000 <= u64::MAX ==> secs == nanos / 1_000_000_000,
        nanos / 1_000_000_000 > u64::MAX ==> secs == u64::MAX,
{
    clamp_nanos(nanos / 1_000_000_000)
}

/// The wall clock in milliseconds since the Unix epoch: [`nanos_to_millis`] of the
/// machine's reading.
pub fn unix_time_millis() -> (millis: i64)
    ensures
        millis >= 0,
{
    nanos_to_millis(unix_time_nanos())
}

/// The wall clock in whole seconds since the Unix epoch: [`nanos_to_secs`] of the
/// machine's reading.
pub fn unix_time_secs() -> (secs: u64) {
    nanos_to_secs(unix_time_nanos())
}

/// Unix milliseconds by a clock that was read once, at `start`, and counted on since.
pub open spec fn steady_ms(start: i64, elapsed_nanos: u64) -> int {
    let now = start + elapsed_nanos as int / NANOS_PER_MILLI as int;
    if now > i64::MAX {
        i64::MAX as int
    } else {
        now
    }
}

/// Unix milliseconds by a clock that was read once, at `start`, and counted on since.
pub fn steady_millis(start: i64, elapsed_nanos: u64) -> (now: i64)
    ensures
        now == steady_ms(start, elapsed_nanos),
{
    match start.checked_add((elapsed_nanos / NANOS_PER_MILLI) as i64) {
        Some(now) => now,
        None => i64::MAX,
    }
}

/// Steady time never runs back, whatever becomes of the wall clock.
pub proof fn law_steady_time_never_runs_back(start: i64, earlier: u64, later: u64)
    requires
        earlier <= later,
    ensures
        start <= steady_ms(start, earlier) <= steady_ms(start, later) <= i64::MAX,
{
}

/// A clock for timestamps that is immune to jumps of the wall clock.
///
/// The wall clock is read once; from there on monotonic time is counted.
pub struct SteadyClock {
    start_ms: i64,
    clock: Clock,
}

impl SteadyClock {
    /// What the wall clock said at the start, in Unix milliseconds.
    pub closed spec fn started_at(&self) -> i64 {
        self.start_ms
    }

    /// Read the wall clock and start counting.
    pub fn start() -> (clock: SteadyClock)
        ensures
            clock.started_at() >= 0,
    {
        SteadyClock { start_ms: unix_time_millis(), clock: Clock::start() }
    }

    /// The time in Unix milliseconds.
    pub fn now_ms(&self) -> (now: i64)
        ensures
            exists|elapsed: u64| now == #[trigger] steady_ms(self.started_at(), elapsed),
    {
        let elapsed: u64 = self.clock.now();
        let now: i64 = steady_millis(self.start_ms, elapsed);
        assert(now == steady_ms(self.started_at(), elapsed));
        now
    }
}

/// A clock set before the epoch counts as the epoch, and any other as it reads.
pub proof fn law_clocks_do_not_read_before_the_epoch(reading: Option<u128>, nanos: u128)
    requires
        call_ensures(nanos_since_epoch, (reading,), nanos),
    ensures
        reading is None ==> nanos == 0,
        reading matches Some(since) ==> nanos == since,
{
}

/// Whole seconds and milliseconds are rounded down, and the largest value stands for what
/// is beyond it.
pub proof fn law_times_are_rounded_down(
    short: u64,
    long: u128,
    seconds: u64,
    millis: i64,
    secs: u64,
    clamped: u64,
)
    requires
        call_ensures(whole_seconds, (short,), seconds),
        call_ensures(nanos_to_millis, (long,), millis),
        call_ensures(nanos_to_secs, (long,), secs),
        call_ensures(clamp_nanos, (long,), clamped),
    ensures
        seconds * 1_000_000_000 <= short < (seconds + 1) * 1_000_000_000,
        in_seconds(short) == seconds,
        0 <= millis,
        millis * 1_000_000 <= long,
        millis < i64::MAX ==> long < (millis + 1) * 1_000_000,
        secs * 1_000_000_000 <= long,
        secs < u64::MAX ==> long < (secs + 1) * 1_000_000_000,
        clamped <= long,
        clamped < u64::MAX ==> clamped == long,
{
}

/// Steady time is the time at the start and the whole milliseconds that have passed since,
/// as far as it fits.
pub proof fn law_steady_time_counts_milliseconds(start: i64, elapsed: u64, now: i64)
    requires
        call_ensures(steady_millis, (start, elapsed), now),
    ensures
        now < i64::MAX ==> (now - start) * 1_000_000 <= elapsed < (now - start + 1) * 1_000_000,
        now == i64::MAX ==> (i64::MAX - start) * 1_000_000 <= elapsed,
        now >= start,
{
}

} // verus!
