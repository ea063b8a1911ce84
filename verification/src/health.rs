//! Database health: a cached, bounded probe.

use vstd::prelude::*;

verus! {

/// How long a result is good for, in nanoseconds.
pub const DATABASE_HEALTH_CACHE_TTL: u64 = 1_000_000_000;

/// How long a check may take in all, in nanoseconds.
pub const DATABASE_HEALTH_TIMEOUT: u64 = 1_000_000_000;

/// What a probe found, and when.
#[derive(Debug, Clone, Copy, PartialEq, Eq, Structural)]
pub struct DatabaseHealthResult {
    pub checked_at: u64,
    pub ok: bool,
}

/// What a health check does next.
#[derive(Debug, Clone, Copy, PartialEq, Eq, Structural)]
pub enum HealthStep {
    /// The check is over.
    Answer(bool),
    /// Wait for the right to probe, this many nanoseconds at most.
    AwaitTurn { timeout: u64 },
    /// Probe the database, this many nanoseconds at most.
    Probe { timeout: u64 },
}

/// How a probe ended.
#[derive(Debug, Clone, Copy, PartialEq, Eq, Structural)]
pub enum ProbeOutcome {
    /// It found the database well or not.
    Answered(bool),
    /// The task that ran it died.
    Panicked,
    /// It took too long.
    TimedOut,
}

/// The last known health of the database. Times are nanoseconds on one clock.
///
/// Only one probe runs at a time. A check first looks at the last result, then
/// waits for its turn, looks again, and only then probes.
#[derive(Debug, Clone, Copy, PartialEq, Eq, Structural)]
pub struct DatabaseHealth {
    pub last_result: Option<DatabaseHealthResult>,
    pub cache_ttl: u64,
    pub probe_timeout: u64,
}

/// The last result, if it is still good at `now`.
pub open spec fn fresh(health: DatabaseHealth, now: u64) -> Option<bool> {
    match health.last_result {
        Some(result) => if crate::limiter::elapsed_since(result.checked_at, now)
            < health.cache_ttl {
            Some(result.ok)
        } else {
            None
        },
        None => None,
    }
}

/// When a check that starts at `now` has to be over.
pub open spec fn deadline_of(health: DatabaseHealth, now: u64) -> int {
    crate::config::clamp_u64(now + health.probe_timeout)
}

impl DatabaseHealth {
    /// Nothing known yet, with the usual limits.
    pub fn new() -> (health: DatabaseHealth)
        ensures
            health == (DatabaseHealth {
                last_result: None,
                cache_ttl: DATABASE_HEALTH_CACHE_TTL,
                probe_timeout: DATABASE_HEALTH_TIMEOUT,
            }),
    {
        DatabaseHealth::with_limits(DATABASE_HEALTH_CACHE_TTL, DATABASE_HEALTH_TIMEOUT)
    }

    /// Nothing known yet.
    pub fn with_limits(cache_ttl: u64, probe_timeout: u64) -> (health: DatabaseHealth)
        ensures
            health == (DatabaseHealth { last_result: None, cache_ttl, probe_timeout }),
    {
        DatabaseHealth { last_result: None, cache_ttl, probe_timeout }
    }

    /// The last result, if it is still good.
    pub fn fresh_result(&self, now: u64) -> (result: Option<bool>)
        ensures
            result == fresh(*self, now),
    {
        match self.last_result {
            Some(result) => if now.saturating_sub(result.checked_at) < self.cache_ttl {
                Some(result.ok)
            } else {
                None
            },
            None => None,
        }
    }

    /// When a check that starts at `now` has to be over.
    pub fn deadline(&self, now: u64) -> (deadline: u64)
        ensures
            deadline == deadline_of(*self, now),
    {
        now.saturating_add(self.probe_timeout)
    }

    /// Start a check: answer from the last result, or wait for a turn.
    pub fn begin(&self, now: u64) -> (step: HealthStep)
        ensures
            step == match fresh(*self, now) {
                Some(ok) => HealthStep::Answer(ok),
                None => HealthStep::AwaitTurn { timeout: (deadline_of(*self, now) - now) as u64 },
            },
    {
        match self.fresh_result(now) {
            Some(ok) => HealthStep::Answer(ok),
            None => HealthStep::AwaitTurn { timeout: self.deadline(now) - now },
        }
    }

    /// Go on once the turn has come, or has not come in time. Somebody else may have
    /// probed meanwhile.
    pub fn after_turn(&self, acquired: bool, deadline: u64, now: u64) -> (step: HealthStep)
        ensures
            step == match fresh(*self, now) {
                Some(ok) => HealthStep::Answer(ok),
                None => if acquired {
                    HealthStep::Probe {
                        timeout: crate::limiter::elapsed_since(now, deadline) as u64,
                    }
                } else {
                    HealthStep::Answer(false)
                },
            },
    {
        match self.fresh_result(now) {
            Some(ok) => HealthStep::Answer(ok),
            None => if acquired {
                HealthStep::Probe { timeout: deadline.saturating_sub(now) }
            } else {
                HealthStep::Answer(false)
            },
        }
    }

    /// Take in how the probe ended. A probe without an answer counts as a database
    /// that is not well.
    pub fn after_probe(&mut self, outcome: ProbeOutcome, now: u64) -> (ok: bool)
        ensures
            ok == (outcome == ProbeOutcome::Answered(true)),
            *final(self) == (DatabaseHealth {
                last_result: Some(DatabaseHealthResult { checked_at: now, ok }),
                ..*old(self)
            }),
    {
        let ok = match outcome {
            ProbeOutcome::Answered(ok) => ok,
            ProbeOutcome::Panicked => false,
            ProbeOutcome::TimedOut => false,
        };
        self.last_result = Some(DatabaseHealthResult { checked_at: now, ok });
        ok
    }
}

/// A result is used for its whole time to live: a check that starts within it
/// answers at once, and does not probe.
pub proof fn law_results_are_cached(
    before: DatabaseHealth,
    result: DatabaseHealthResult,
    now: u64,
)
    requires
        before.last_result == Some(result),
    ensures
        result.checked_at <= now < result.checked_at + before.cache_ttl ==> fresh(before, now)
            == Some(result.ok),
        now >= result.checked_at + before.cache_ttl ==> fresh(before, now) is None,
{
}

/// Waiting and probing together stay within the time that a check may take.
pub proof fn law_check_is_bounded(health: DatabaseHealth, start: u64, turn: u64)
    requires
        start <= turn,
    ensures
        deadline_of(health, start) - start <= health.probe_timeout,
        turn <= deadline_of(health, start) ==> turn + crate::limiter::elapsed_since(
            turn,
            deadline_of(health, start) as u64,
        ) == deadline_of(health, start),
        turn > deadline_of(health, start) ==> crate::limiter::elapsed_since(
            turn,
            deadline_of(health, start) as u64,
        ) == 0,
{
}

/// Results are good for a second and checks take no longer than a second, as long as
/// nothing else is asked for; nothing is known before the first probe.
pub proof fn law_health_starts_unknown(health: DatabaseHealth, now: u64, result: Option<bool>)
    requires
        call_ensures(DatabaseHealth::new, (), health),
        call_ensures(DatabaseHealth::fresh_result, (&health, now), result),
    ensures
        result is None,
        health.cache_ttl == 1_000_000_000,
        health.probe_timeout == 1_000_000_000,
{
}

/// A check answers from a result that is younger than its time to live, and else waits for
/// its turn, no longer than a check may take.
pub proof fn law_checks_answer_or_wait(health: DatabaseHealth, now: u64, step: HealthStep)
    requires
        call_ensures(DatabaseHealth::begin, (&health, now), step),
    ensures
        health.last_result is None ==> step is AwaitTurn,
        health.last_result matches Some(result) ==> {
            &&& health.cache_ttl > 0 && now < result.checked_at + health.cache_ttl ==> step
                == HealthStep::Answer(result.ok)
            &&& now >= result.checked_at + health.cache_ttl ==> step is AwaitTurn
            &&& step matches HealthStep::Answer(ok) ==> ok == result.ok
        },
        step matches HealthStep::AwaitTurn { timeout } ==> timeout <= health.probe_timeout && (
        now + health.probe_timeout <= u64::MAX ==> timeout == health.probe_timeout),
        !(step is Probe),
{
}

/// Whoever has the turn probes for the rest of the time, unless somebody else has found out
/// meanwhile; whoever has not takes the database for unwell.
pub proof fn law_turns_lead_to_probes(
    health: DatabaseHealth,
    acquired: bool,
    deadline: u64,
    now: u64,
    step: HealthStep,
)
    requires
        call_ensures(DatabaseHealth::after_turn, (&health, acquired, deadline, now), step),
        health.last_result is None || now >= health.last_result->0.checked_at + health.cache_ttl,
    ensures
        acquired <==> step is Probe,
        !acquired ==> step == HealthStep::Answer(false),
        step matches HealthStep::Probe { timeout } ==> (now <= deadline ==> now + timeout
            == deadline) && (now > deadline ==> timeout == 0),
{
}

/// What a probe finds is answered and remembered with its time; a probe without an answer
/// counts as unwell.
pub proof fn law_probes_are_remembered(
    health: &mut DatabaseHealth,
    outcome: ProbeOutcome,
    now: u64,
    ok: bool,
)
    requires
        call_ensures(DatabaseHealth::after_probe, (health, outcome, now), ok),
    ensures
        outcome matches ProbeOutcome::Answered(well) ==> ok == well,
        !(outcome is Answered) ==> !ok,
        final(health).last_result matches Some(result) && result.ok == ok && result.checked_at
            == now,
        final(health).cache_ttl == old(health).cache_ttl,
        final(health).probe_timeout == old(health).probe_timeout,
{
}

/// A check has the time that it was given and no more, as far as there is time, and nothing
/// is known at first.
pub proof fn law_checks_have_their_time(
    ttl: u64,
    timeout: u64,
    health: DatabaseHealth,
    now: u64,
    deadline: u64,
)
    requires
        call_ensures(DatabaseHealth::with_limits, (ttl, timeout), health),
        call_ensures(DatabaseHealth::deadline, (&health, now), deadline),
    ensures
        health.last_result is None,
        health.cache_ttl == ttl,
        now + timeout <= u64::MAX ==> deadline == now + timeout,
        now + timeout > u64::MAX ==> deadline == u64::MAX,
{
}

} // verus!
