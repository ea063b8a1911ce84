//! Retention: when to clean up, and what one pass does.
//!
//! A pass alternates between database work and decisions. [`CleanupPass`] holds
//! the decisions: it names the next piece of work and is told how it went.

use vstd::prelude::*;
use vstd::string::*;

use crate::config::saturating_product;
use crate::text::to_decimal;

verus! {

/// Floor on the delay between passes, in milliseconds; prevents tight retry
/// loops while no pass has succeeded yet.
pub const MIN_CLEANUP_DELAY_MS: u64 = 60_000;

/// How often the size cap is looked at, in milliseconds, if there is one.
pub const SIZE_CHECK_INTERVAL_MS: u64 = 300_000;

/// Safety ceiling for the size-based purge loop.
pub const MAX_PURGE_ITERATIONS: u64 = 200;

/// Conservative estimate of on-disk bytes per trade. Only a fast-path threshold;
/// the real file size is looked at afterwards.
pub const EST_BYTES_PER_ROW: u64 = 50;

/// Fifths of the cap to purge down to, which leaves headroom for trades that come
/// in between checks.
pub const HEADROOM_FIFTHS: u64 = 4;

/// Smallest batch of a purge, in rows.
pub const MIN_PURGE_ROWS: i64 = 1_000;

/// Largest batch of a purge, in rows.
pub const MAX_PURGE_ROWS: i64 = 100_000;

/// Bytes in a megabyte.
pub const MEGABYTE: u64 = 1_048_576;

/// Rows deleted per purge iteration: about a tenth of `max_bytes`, within
/// bounds.
pub open spec fn batch_rows(max_bytes: u64) -> int {
    crate::api::clamp_int(
        max_bytes as int / 10 / EST_BYTES_PER_ROW as int,
        MIN_PURGE_ROWS as int,
        MAX_PURGE_ROWS as int,
    )
}

/// Rows deleted per purge iteration.
pub fn purge_batch_size(max_bytes: u64) -> (rows: i64)
    ensures
        rows == batch_rows(max_bytes),
{
    let rows: i64 = (max_bytes / 10 / EST_BYTES_PER_ROW) as i64;
    if rows < MIN_PURGE_ROWS {
        MIN_PURGE_ROWS
    } else if rows > MAX_PURGE_ROWS {
        MAX_PURGE_ROWS
    } else {
        rows
    }
}

/// Why cleanup cannot be set up.
#[derive(Debug, Clone, PartialEq, Eq)]
pub enum CleanupError {
    /// A retention of zero hours where a period is asked for.
    ZeroRetention,
    /// The database is more than twice as large as its cap. Sizes in bytes.
    TooLarge { current: u64, max: u64 },
    /// The size of the database could not be read, and why.
    Unmeasured { cause: String },
}

impl CleanupError {
    /// The message shown to people.
    pub open spec fn spec_message(self) -> Seq<char> {
        match self {
            CleanupError::ZeroRetention => "data_retention_hours must be > 0 (got 0) — a zero retention period would purge all trades on every cleanup pass"@,
            CleanupError::TooLarge { current, max } => "Database is "@ + crate::text::decimal(
                current as nat / MEGABYTE as nat,
            ) + " MB — more than 2x the configured max_storage_mb cap ("@ + crate::text::decimal(
                max as nat / MEGABYTE as nat,
            )
                + " MB).  Purging that much data at startup would take too long; this likely indicates a misconfiguration.  Either raise max_storage_mb (e.g. to "@
                + crate::text::decimal(current as nat / MEGABYTE as nat + 1)
                + " MB or higher) or manually shrink the database and restart."@,
            CleanupError::Unmeasured { cause } => "Failed to check storage size at startup: "@
                + cause@,
        }
    }

    /// The message shown to people.
    pub fn message(&self) -> (message: String)
        ensures
            message@ == self.spec_message(),
    {
        match self {
            CleanupError::ZeroRetention => "data_retention_hours must be > 0 (got 0) — a zero retention period would purge all trades on every cleanup pass".to_owned(),
            CleanupError::TooLarge { current, max } => {
                let mut message = "Database is ".to_owned();
                message.append(to_decimal(*current / MEGABYTE).as_str());
                message.append(" MB — more than 2x the configured max_storage_mb cap (");
                message.append(to_decimal(*max / MEGABYTE).as_str());
                message.append(
                    " MB).  Purging that much data at startup would take too long; this likely indicates a misconfiguration.  Either raise max_storage_mb (e.g. to ",
                );
                message.append(to_decimal(*current / MEGABYTE + 1).as_str());
                message.append(" MB or higher) or manually shrink the database and restart.");
                message
            },
            CleanupError::Unmeasured { cause } => {
                let mut message = "Failed to check storage size at startup: ".to_owned();
                message.append(cause.as_str());
                message
            },
        }
    }
}

/// What is cleaned up.
#[derive(Debug, Clone, Copy, PartialEq, Eq, Structural)]
pub struct CleanupConfig {
    /// Trades older than this are purged; `0` keeps all.
    pub retention_hours: u64,
    /// Optional hard cap on the total size of the database in bytes.
    pub max_storage_bytes: Option<u64>,
}

/// The size cap in bytes; `0` or no megabytes disable it.
pub open spec fn cap_bytes(max_storage_mb: Option<u64>) -> Option<u64> {
    match max_storage_mb {
        Some(mb) => if mb > 0 {
            Some(crate::config::clamp_u64(mb * 1_048_576) as u64)
        } else {
            None
        },
        None => None,
    }
}

/// The size cap in bytes.
fn size_cap(max_storage_mb: Option<u64>) -> (cap: Option<u64>)
    ensures
        cap == cap_bytes(max_storage_mb),
{
    match max_storage_mb {
        Some(mb) => if mb > 0 {
            Some(saturating_product(mb, MEGABYTE))
        } else {
            None
        },
        None => None,
    }
}

impl CleanupConfig {
    /// A retention period, which must not be zero, and an optional size cap.
    pub fn from_config(retention_hours: u64, max_storage_mb: Option<u64>) -> (config: Result<
        CleanupConfig,
        CleanupError,
    >)
        ensures
            config == if retention_hours == 0 {
                Err::<CleanupConfig, CleanupError>(CleanupError::ZeroRetention)
            } else {
                Ok(
                    (CleanupConfig {
                        retention_hours,
                        max_storage_bytes: cap_bytes(max_storage_mb),
                    }),
                )
            },
    {
        if retention_hours == 0 {
            return Err(CleanupError::ZeroRetention);
        }
        Ok(CleanupConfig { retention_hours, max_storage_bytes: size_cap(max_storage_mb) })
    }

    /// No retention period: only an optional size cap.
    pub fn keep_all(max_storage_mb: Option<u64>) -> (config: CleanupConfig)
        ensures
            config == (CleanupConfig {
                retention_hours: 0,
                max_storage_bytes: cap_bytes(max_storage_mb),
            }),
    {
        CleanupConfig { retention_hours: 0, max_storage_bytes: size_cap(max_storage_mb) }
    }

    /// What the storage section asks for: a retention of zero hours keeps all
    /// trades.
    pub fn from_settings(retention_hours: u64, max_storage_mb: u64) -> (config: CleanupConfig)
        ensures
            config == (CleanupConfig {
                retention_hours,
                max_storage_bytes: cap_bytes(Some(max_storage_mb)),
            }),
    {
        match CleanupConfig::from_config(retention_hours, Some(max_storage_mb)) {
            Ok(config) => config,
            Err(_) => CleanupConfig::keep_all(Some(max_storage_mb)),
        }
    }
}

/// Runs cleanup passes by a fixed configuration.
#[derive(Debug, Clone, Copy, PartialEq, Eq, Structural)]
pub struct CleanupScheduler {
    pub config: CleanupConfig,
}

impl CleanupScheduler {
    /// Check the startup guard and set up the scheduler.
    ///
    /// A database more than twice as large as its cap is a misconfiguration that
    /// would take too long to recover from. `measured` is the size in bytes, or why it
    /// could not be read; without a cap it does not matter.
    pub fn new(config: CleanupConfig, measured: Result<u64, String>) -> (scheduler: Result<
        CleanupScheduler,
        CleanupError,
    >)
        ensures
            scheduler == match (config.max_storage_bytes, measured) {
                (None, _) => Ok::<CleanupScheduler, CleanupError>((CleanupScheduler { config })),
                (Some(max), Err(cause)) => Err((CleanupError::Unmeasured { cause })),
                (Some(max), Ok(current)) => if current > crate::config::clamp_u64(max * 2) {
                    Err((CleanupError::TooLarge { current, max }))
                } else {
                    Ok((CleanupScheduler { config }))
                },
            },
    {
        if let Some(max) = config.max_storage_bytes {
            match measured {
                Ok(current) => {
                    if current > saturating_product(max, 2) {
                        return Err(CleanupError::TooLarge { current, max });
                    }
                },
                Err(cause) => {
                    return Err(CleanupError::Unmeasured { cause });
                },
            }
        }
        Ok(CleanupScheduler { config })
    }

    /// Whether the startup pass will have to purge for the sake of the cap.
    pub fn starts_over_cap(&self, current: u64) -> (over: bool)
        ensures
            over == match self.config.max_storage_bytes {
                Some(max) => current > max,
                None => false,
            },
    {
        match self.config.max_storage_bytes {
            Some(max) => current > max,
            None => false,
        }
    }

    /// Begin a pass.
    pub fn begin_pass(&self) -> (pass: CleanupPass)
        ensures
            pass == pass_start(self.config),
    {
        CleanupPass {
            config: self.config,
            phase: CleanupPhase::TimePurge,
            time_ok: false,
            any_deleted: false,
            iterations: 0,
            total_deleted: 0,
            converged: false,
            remaining: 0,
        }
    }

    /// The delay until the next pass, in milliseconds, given the time of the last
    /// successful one.
    pub fn next_delay_ms(&self, last_cleanup_ms: Option<i64>, now_ms: i64) -> (delay: u64)
        ensures
            delay == delay_ms(self.config, last_cleanup_ms, now_ms),
    {
        let time_delay: u64 = match last_cleanup_ms {
            None => 0,
            Some(anchor_ms) => {
                let next_ms: i128 = anchor_ms as i128 + self.config.retention_hours as i128
                    * 3_600_000;
                let wait: i128 = next_ms - now_ms as i128;
                if wait <= 0 {
                    0
                } else if wait > u64::MAX as i128 {
                    u64::MAX
                } else {
                    wait as u64
                }
            },
        };
        let delay: u64 = if self.config.max_storage_bytes.is_some() && SIZE_CHECK_INTERVAL_MS
            < time_delay {
            SIZE_CHECK_INTERVAL_MS
        } else {
            time_delay
        };
        if delay < MIN_CLEANUP_DELAY_MS {
            MIN_CLEANUP_DELAY_MS
        } else {
            delay
        }
    }
}

/// Milliseconds until the retention period since the last pass is over; nothing
/// if no pass has succeeded.
pub open spec fn time_delay_ms(retention_hours: u64, last: Option<i64>, now: i64) -> int {
    match last {
        None => 0,
        Some(anchor) => {
            let wait = anchor + retention_hours * 3_600_000 - now;
            if wait <= 0 {
                0
            } else {
                crate::config::clamp_u64(wait)
            }
        },
    }
}

/// The delay until the next pass: until retention calls for one, but no longer
/// than the size check interval where there is a cap, and never less than the
/// floor.
pub open spec fn delay_ms(config: CleanupConfig, last: Option<i64>, now: i64) -> int {
    let wait = time_delay_ms(config.retention_hours, last, now);
    let delay = if config.max_storage_bytes is Some && wait > SIZE_CHECK_INTERVAL_MS {
        SIZE_CHECK_INTERVAL_MS as int
    } else {
        wait
    };
    if delay < MIN_CLEANUP_DELAY_MS {
        MIN_CLEANUP_DELAY_MS as int
    } else {
        delay
    }
}

/// Whether a rewrite of the database file is worth it after a purge: only if
/// what was freed is at least a quarter of what remains.
pub fn should_vacuum(total_deleted: u64, remaining_rows: u64) -> (worth: bool)
    ensures
        worth == vacuum_pays(total_deleted, remaining_rows),
{
    remaining_rows == 0 || total_deleted >= remaining_rows / 4
}

/// Whether a rewrite of the database file is worth it after a purge.
pub open spec fn vacuum_pays(total_deleted: u64, remaining_rows: u64) -> bool {
    remaining_rows == 0 || total_deleted >= remaining_rows / 4
}

/// A piece of database work.
#[derive(Debug, Clone, Copy, PartialEq, Eq, Structural)]
pub enum CleanupAction {
    /// Delete the trades older than the retention period.
    PurgeOld { retention_hours: u64 },
    /// Count the trades.
    CountTrades,
    /// Delete the oldest trades, this many at most.
    DeleteOldest { rows: i64 },
    /// Merge the write-ahead log into the database file.
    Checkpoint,
    /// Read the size of the database in bytes.
    MeasureStorage,
    /// Rewrite the database file to give its free space back.
    Vacuum,
    /// Store the time of this pass.
    RecordCleanup,
    /// Nothing more. The time of the pass, if it was successful.
    Finished { last_cleanup: Option<i64> },
}

/// How a piece of database work went.
#[derive(Debug, Clone, Copy, PartialEq, Eq, Structural)]
pub enum CleanupReply {
    /// Rows that were deleted.
    Deleted(u64),
    /// Rows that were counted.
    Counted(u64),
    /// Bytes that were measured.
    Measured(u64),
    /// The time that was stored, in Unix milliseconds.
    Recorded(i64),
    /// Done, without a result.
    Done,
    /// It failed.
    Failed,
}

/// What a pass waits for.
#[derive(Debug, Clone, Copy, PartialEq, Eq, Structural)]
pub enum CleanupPhase {
    TimePurge,
    LoopCount,
    LoopDelete,
    PurgeCheckpoint,
    Remaining,
    Measure,
    Vacuum,
    FinalCheckpoint,
    Record,
    Finished { last_cleanup: Option<i64> },
}

/// One cleanup pass: time-based retention, the size cap if there is one, a
/// checkpoint, and the record of the pass.
///
/// The size-based purge deletes batches until the number of rows suggests that
/// the size is below its target, without a checkpoint in between; then it
/// checkpoints once and looks at the real size. What is still over the cap is left
/// to the next pass.
#[derive(Debug, Clone, Copy, PartialEq, Eq, Structural)]
pub struct CleanupPass {
    pub config: CleanupConfig,
    pub phase: CleanupPhase,
    /// Whether the time-based purge succeeded.
    pub time_ok: bool,
    /// Whether any purge of this pass deleted trades.
    pub any_deleted: bool,
    /// Batches of the size-based purge so far.
    pub iterations: u64,
    /// Rows that the size-based purge deleted so far.
    pub total_deleted: u64,
    /// Whether the size-based purge came to its end by itself.
    pub converged: bool,
    /// Rows that remained after the size-based purge.
    pub remaining: u64,
}

/// The pass before anything was done.
pub open spec fn pass_start(config: CleanupConfig) -> CleanupPass {
    CleanupPass {
        config,
        phase: CleanupPhase::TimePurge,
        time_ok: false,
        any_deleted: false,
        iterations: 0,
        total_deleted: 0,
        converged: false,
        remaining: 0,
    }
}

/// What a size-based purge aims at, in bytes.
pub open spec fn target_bytes(max_bytes: u64) -> int {
    crate::config::clamp_u64(max_bytes * HEADROOM_FIFTHS) / 5
}

/// What a size-based purge aims at, in rows.
pub open spec fn target_rows(max_bytes: u64) -> int {
    target_bytes(max_bytes) / EST_BYTES_PER_ROW as int
}

/// The work that a pass waits for.
pub open spec fn work_of(pass: CleanupPass) -> CleanupAction {
    match pass.phase {
        CleanupPhase::TimePurge => CleanupAction::PurgeOld {
            retention_hours: pass.config.retention_hours,
        },
        CleanupPhase::LoopCount => CleanupAction::CountTrades,
        CleanupPhase::LoopDelete => CleanupAction::DeleteOldest {
            rows: match pass.config.max_storage_bytes {
                Some(max) => batch_rows(target_bytes(max) as u64) as i64,
                None => MIN_PURGE_ROWS,
            },
        },
        CleanupPhase::PurgeCheckpoint => CleanupAction::Checkpoint,
        CleanupPhase::Remaining => CleanupAction::CountTrades,
        CleanupPhase::Measure => CleanupAction::MeasureStorage,
        CleanupPhase::Vacuum => CleanupAction::Vacuum,
        CleanupPhase::FinalCheckpoint => CleanupAction::Checkpoint,
        CleanupPhase::Record => CleanupAction::RecordCleanup,
        CleanupPhase::Finished { last_cleanup } => CleanupAction::Finished { last_cleanup },
    }
}

/// The pass once its purges are over: a checkpoint if anything was deleted, and
/// then the record.
pub open spec fn after_purges(pass: CleanupPass) -> CleanupPass {
    if pass.any_deleted {
        CleanupPass { phase: CleanupPhase::FinalCheckpoint, ..pass }
    } else {
        after_checkpoint(pass)
    }
}

/// The pass once its last checkpoint is over: only a pass whose time-based purge
/// succeeded is recorded.
pub open spec fn after_checkpoint(pass: CleanupPass) -> CleanupPass {
    CleanupPass {
        phase: if pass.time_ok {
            CleanupPhase::Record
        } else {
            CleanupPhase::Finished { last_cleanup: None }
        },
        ..pass
    }
}

/// The pass once the size-based purge is over, successfully or not.
pub open spec fn after_size_purge(pass: CleanupPass, ok: bool) -> CleanupPass {
    after_purges(
        CleanupPass { any_deleted: pass.any_deleted || (ok && pass.total_deleted > 0), ..pass },
    )
}

/// The pass once the loop of the size-based purge is over.
pub open spec fn after_loop(pass: CleanupPass, converged: bool) -> CleanupPass {
    let ended = CleanupPass { converged, ..pass };
    if ended.total_deleted > 0 {
        CleanupPass { phase: CleanupPhase::PurgeCheckpoint, ..ended }
    } else {
        after_size_purge(ended, true)
    }
}

/// The pass once the real size has been looked at, or need not be.
pub open spec fn after_measure(pass: CleanupPass) -> CleanupPass {
    if vacuum_pays(pass.total_deleted, pass.remaining) {
        CleanupPass { phase: CleanupPhase::Vacuum, ..pass }
    } else {
        after_size_purge(pass, true)
    }
}

/// The pass once the time-based purge is over.
pub open spec fn after_time_purge(pass: CleanupPass) -> CleanupPass {
    if pass.config.max_storage_bytes is Some {
        CleanupPass { phase: CleanupPhase::LoopCount, ..pass }
    } else {
        after_purges(pass)
    }
}

/// The pass once it is told how its work went. A reply that does not belong to
/// the work counts as a failure.
pub open spec fn pass_step(pass: CleanupPass, reply: CleanupReply) -> CleanupPass {
    match pass.phase {
        CleanupPhase::TimePurge => match reply {
            CleanupReply::Deleted(n) => after_time_purge(
                CleanupPass { time_ok: true, any_deleted: n > 0, ..pass },
            ),
            _ => after_time_purge(pass),
        },
        CleanupPhase::LoopCount => match (reply, pass.config.max_storage_bytes) {
            (CleanupReply::Counted(n), Some(max)) => if n <= target_rows(max) {
                after_loop(pass, true)
            } else {
                CleanupPass { phase: CleanupPhase::LoopDelete, ..pass }
            },
            _ => after_size_purge(pass, false),
        },
        CleanupPhase::LoopDelete => match reply {
            CleanupReply::Deleted(n) => if n == 0 {
                after_loop(pass, true)
            } else {
                let deleted = CleanupPass {
                    total_deleted: crate::diagnostics::raised(pass.total_deleted, n as int),
                    iterations: (pass.iterations + 1) as u64,
                    ..pass
                };
                if deleted.iterations >= MAX_PURGE_ITERATIONS {
                    after_loop(deleted, false)
                } else {
                    CleanupPass { phase: CleanupPhase::LoopCount, ..deleted }
                }
            },
            _ => after_size_purge(pass, false),
        },
        CleanupPhase::PurgeCheckpoint => match reply {
            CleanupReply::Done => CleanupPass { phase: CleanupPhase::Remaining, ..pass },
            _ => after_size_purge(pass, false),
        },
        CleanupPhase::Remaining => match reply {
            CleanupReply::Counted(n) => {
                let counted = CleanupPass { remaining: n, ..pass };
                if pass.converged {
                    CleanupPass { phase: CleanupPhase::Measure, ..counted }
                } else {
                    after_measure(counted)
                }
            },
            _ => after_size_purge(pass, false),
        },
        CleanupPhase::Measure => match reply {
            CleanupReply::Measured(_) => after_measure(pass),
            _ => after_size_purge(pass, false),
        },
        CleanupPhase::Vacuum => after_size_purge(pass, true),
        CleanupPhase::FinalCheckpoint => after_checkpoint(pass),
        CleanupPhase::Record => match reply {
            CleanupReply::Recorded(ts) => CleanupPass {
                phase: CleanupPhase::Finished { last_cleanup: Some(ts) },
                ..pass
            },
            _ => CleanupPass { phase: CleanupPhase::Finished { last_cleanup: None }, ..pass },
        },
        CleanupPhase::Finished { .. } => pass,
    }
}

impl CleanupPass {
    /// The loop of the size-based purge is within its ceiling.
    pub open spec fn wf(self) -> bool {
        self.iterations < MAX_PURGE_ITERATIONS || !(self.phase is TimePurge
            || self.phase is LoopCount || self.phase is LoopDelete)
    }

    /// The work that comes next.
    pub fn next_action(&self) -> (action: CleanupAction)
        ensures
            action == work_of(*self),
    {
        match self.phase {
            CleanupPhase::TimePurge => CleanupAction::PurgeOld {
                retention_hours: self.config.retention_hours,
            },
            CleanupPhase::LoopCount => CleanupAction::CountTrades,
            CleanupPhase::LoopDelete => CleanupAction::DeleteOldest {
                rows: match self.config.max_storage_bytes {
                    Some(max) => purge_batch_size(saturating_product(max, HEADROOM_FIFTHS) / 5),
                    None => MIN_PURGE_ROWS,
                },
            },
            CleanupPhase::PurgeCheckpoint => CleanupAction::Checkpoint,
            CleanupPhase::Remaining => CleanupAction::CountTrades,
            CleanupPhase::Measure => CleanupAction::MeasureStorage,
            CleanupPhase::Vacuum => CleanupAction::Vacuum,
            CleanupPhase::FinalCheckpoint => CleanupAction::Checkpoint,
            CleanupPhase::Record => CleanupAction::RecordCleanup,
            CleanupPhase::Finished { last_cleanup } => CleanupAction::Finished { last_cleanup },
        }
    }

    fn end_checkpoint(&mut self)
        ensures
            *final(self) == after_checkpoint(*old(self)),
    {
        if self.time_ok {
            self.phase = CleanupPhase::Record;
        } else {
            self.phase = CleanupPhase::Finished { last_cleanup: None };
        }
    }

    fn end_purges(&mut self)
        ensures
            *final(self) == after_purges(*old(self)),
    {
        if self.any_deleted {
            self.phase = CleanupPhase::FinalCheckpoint;
        } else {
            self.end_checkpoint();
        }
    }

    fn end_size_purge(&mut self, ok: bool)
        ensures
            *final(self) == after_size_purge(*old(self), ok),
    {
        if ok && self.total_deleted > 0 {
            self.any_deleted = true;
        }
        self.end_purges();
    }

    fn end_loop(&mut self, converged: bool)
        ensures
            *final(self) == after_loop(*old(self), converged),
    {
        self.converged = converged;
        if self.total_deleted > 0 {
            self.phase = CleanupPhase::PurgeCheckpoint;
        } else {
            self.end_size_purge(true);
        }
    }

    fn end_measure(&mut self)
        ensures
            *final(self) == after_measure(*old(self)),
    {
        if should_vacuum(self.total_deleted, self.remaining) {
            self.phase = CleanupPhase::Vacuum;
        } else {
            self.end_size_purge(true);
        }
    }

    fn end_time_purge(&mut self)
        ensures
            *final(self) == after_time_purge(*old(self)),
    {
        if self.config.max_storage_bytes.is_some() {
            self.phase = CleanupPhase::LoopCount;
        } else {
            self.end_purges();
        }
    }

    /// Take in how the work went. Returns the work that comes next.
    pub fn step(&mut self, reply: CleanupReply) -> (action: CleanupAction)
        requires
            old(self).wf(),
        ensures
            final(self).wf(),
            *final(self) == pass_step(*old(self), reply),
            action == work_of(*final(self)),
    {
        match self.phase {
            CleanupPhase::TimePurge => {
                if let CleanupReply::Deleted(n) = reply {
                    self.time_ok = true;
                    self.any_deleted = n > 0;
                }
                self.end_time_purge();
            },
            CleanupPhase::LoopCount => match (reply, self.config.max_storage_bytes) {
                (CleanupReply::Counted(n), Some(max)) => {
                    let rows: u64 = saturating_product(max, HEADROOM_FIFTHS) / 5
                        / EST_BYTES_PER_ROW;
                    if n <= rows {
                        self.end_loop(true);
                    } else {
                        self.phase = CleanupPhase::LoopDelete;
                    }
                },
                _ => self.end_size_purge(false),
            },
            CleanupPhase::LoopDelete => match reply {
                CleanupReply::Deleted(n) => {
                    if n == 0 {
                        self.end_loop(true);
                    } else {
                        self.total_deleted = self.total_deleted.saturating_add(n);
                        self.iterations = self.iterations + 1;
                        if self.iterations >= MAX_PURGE_ITERATIONS {
                            self.end_loop(false);
                        } else {
                            self.phase = CleanupPhase::LoopCount;
                        }
                    }
                },
                _ => self.end_size_purge(false),
            },
            CleanupPhase::PurgeCheckpoint => match reply {
                CleanupReply::Done => {
                    self.phase = CleanupPhase::Remaining;
                },
                _ => self.end_size_purge(false),
            },
            CleanupPhase::Remaining => match reply {
                CleanupReply::Counted(n) => {
                    self.remaining = n;
                    if self.converged {
                        self.phase = CleanupPhase::Measure;
                    } else {
                        self.end_measure();
                    }
                },
                _ => self.end_size_purge(false),
            },
            CleanupPhase::Measure => match reply {
                CleanupReply::Measured(_) => self.end_measure(),
                _ => self.end_size_purge(false),
            },
            CleanupPhase::Vacuum => self.end_size_purge(true),
            CleanupPhase::FinalCheckpoint => self.end_checkpoint(),
            CleanupPhase::Record => {
                self.phase = match reply {
                    CleanupReply::Recorded(ts) => CleanupPhase::Finished { last_cleanup: Some(ts) },
                    _ => CleanupPhase::Finished { last_cleanup: None },
                };
            },
            CleanupPhase::Finished { .. } => {},
        }
        self.next_action()
    }
}

/// The pass once it was told of a series of replies.
pub open spec fn pass_run(pass: CleanupPass, replies: Seq<CleanupReply>) -> CleanupPass
    decreases replies.len(),
{
    if replies.len() == 0 {
        pass
    } else {
        pass_step(pass_run(pass, replies.drop_last()), replies.last())
    }
}

/// An upper bound on the pieces of work that a pass still needs.
pub open spec fn work_left(pass: CleanupPass) -> nat {
    let batches = (MAX_PURGE_ITERATIONS - pass.iterations) as nat;
    match pass.phase {
        CleanupPhase::TimePurge => 2 * batches + 8,
        CleanupPhase::LoopCount => 2 * batches + 7,
        CleanupPhase::LoopDelete => 2 * batches + 6,
        CleanupPhase::PurgeCheckpoint => 6,
        CleanupPhase::Remaining => 5,
        CleanupPhase::Measure => 4,
        CleanupPhase::Vacuum => 3,
        CleanupPhase::FinalCheckpoint => 2,
        CleanupPhase::Record => 1,
        CleanupPhase::Finished { .. } => 0,
    }
}

/// Every pass comes to an end: each reply brings it closer.
pub proof fn law_pass_progresses(pass: CleanupPass, reply: CleanupReply)
    requires
        pass.wf(),
        !(pass.phase is Finished),
    ensures
        work_left(pass_step(pass, reply)) < work_left(pass),
        pass_step(pass, reply).wf(),
{
}

/// No pass deletes more than the ceiling of batches for the sake of the cap.
pub proof fn law_purge_is_bounded(config: CleanupConfig, replies: Seq<CleanupReply>)
    ensures
        pass_run(pass_start(config), replies).iterations <= MAX_PURGE_ITERATIONS,
        pass_run(pass_start(config), replies).wf(),
    decreases replies.len(),
{
    if replies.len() > 0 {
        law_purge_is_bounded(config, replies.drop_last());
    }
}

/// A pass keeps its configuration, and it is recorded only if its time-based
/// purge succeeded, whatever became of the size-based one.
pub proof fn law_recorded_only_after_time_purge(
    config: CleanupConfig,
    replies: Seq<CleanupReply>,
)
    ensures
        pass_run(pass_start(config), replies).config == config,
        pass_run(pass_start(config), replies).phase matches CleanupPhase::Finished {
            last_cleanup: Some(_),
        } ==> pass_run(pass_start(config), replies).time_ok,
        pass_run(pass_start(config), replies).phase is Record ==> pass_run(
            pass_start(config),
            replies,
        ).time_ok,
        pass_run(pass_start(config), replies).time_ok ==> replies.len() > 0
            && replies[0] is Deleted,
    decreases replies.len(),
{
    if replies.len() > 0 {
        let shorter = replies.drop_last();
        law_recorded_only_after_time_purge(config, shorter);
        lemma_started(config, shorter);
        if shorter.len() > 0 {
            assert(replies[0] == shorter[0]);
        }
    }
}

/// Only a pass that was told nothing yet waits for its time-based purge.
proof fn lemma_started(config: CleanupConfig, replies: Seq<CleanupReply>)
    ensures
        pass_run(pass_start(config), replies).phase is TimePurge <==> replies.len() == 0,
    decreases replies.len(),
{
    if replies.len() > 0 {
        lemma_started(config, replies.drop_last());
    }
}

/// Without a size cap nothing is deleted for the sake of size: the only purge is
/// the time-based one.
pub proof fn law_no_cap_no_size_purge(config: CleanupConfig, replies: Seq<CleanupReply>)
    requires
        config.max_storage_bytes is None,
    ensures
        !(work_of(pass_run(pass_start(config), replies)) is DeleteOldest),
        !(work_of(pass_run(pass_start(config), replies)) is Vacuum),
        pass_run(pass_start(config), replies).config == config,
        ({
            let phase = pass_run(pass_start(config), replies).phase;
            phase is TimePurge || phase is FinalCheckpoint || phase is Record || phase is Finished
        }),
    decreases replies.len(),
{
    if replies.len() > 0 {
        law_no_cap_no_size_purge(config, replies.drop_last());
    }
}

/// Trades are deleted for the sake of size only while their number is above what
/// four fifths of the cap are estimated to hold.
pub proof fn law_size_purge_stops_at_target(
    pass: CleanupPass,
    rows: u64,
    max: u64,
)
    requires
        pass.wf(),
        pass.phase is LoopCount,
        pass.config.max_storage_bytes == Some(max),
    ensures
        work_of(pass_step(pass, CleanupReply::Counted(rows))) is DeleteOldest <==> rows
            > target_rows(max),
        target_rows(max) * EST_BYTES_PER_ROW <= max,
{
    let raised = crate::config::clamp_u64(max * HEADROOM_FIFTHS);
    let target = raised / 5;
    assert(target * 5 <= raised);
    assert(raised <= max * 4);
    assert((target / 50) * 50 <= target);
}

/// Size and time work together on the delay: it is never below the floor, never
/// above the size check interval where there is a cap, and without one a period of
/// retention passes between two passes.
pub proof fn law_delay_bounds(config: CleanupConfig, last: Option<i64>, now: i64)
    ensures
        delay_ms(config, last, now) >= MIN_CLEANUP_DELAY_MS,
        config.max_storage_bytes is Some ==> delay_ms(config, last, now)
            <= SIZE_CHECK_INTERVAL_MS,
        last is None ==> delay_ms(config, last, now) == MIN_CLEANUP_DELAY_MS,
        config.max_storage_bytes is None && last is Some && MIN_CLEANUP_DELAY_MS <= last->0
            + config.retention_hours * 3_600_000 - now <= u64::MAX ==> now + delay_ms(
            config,
            last,
            now,
        ) == last->0 + config.retention_hours * 3_600_000,
{
}

/// What is counted decides whether trades are deleted for the sake of size: none are as
/// long as fifty bytes for each are at most four fifths of the cap, and some are as soon
/// as it is more.
pub proof fn law_size_purge_keeps_what_fits(
    pass: &mut CleanupPass,
    rows: u64,
    max: u64,
    action: CleanupAction,
)
    requires
        old(pass).wf(),
        old(pass).phase is LoopCount,
        old(pass).config.max_storage_bytes == Some(max),
        call_ensures(CleanupPass::step, (pass, CleanupReply::Counted(rows)), action),
    ensures
        max <= u64::MAX / 4 ==> (action is DeleteOldest <==> 5 * (50 * rows) > 4 * max),
        max > u64::MAX / 4 ==> (action is DeleteOldest <==> 5 * (50 * rows) > u64::MAX),
        final(pass).total_deleted == old(pass).total_deleted,
        final(pass).iterations == old(pass).iterations,
{
    let raised = crate::config::clamp_u64(max * HEADROOM_FIFTHS);
    let target = raised / 5;
    assert(target_rows(max) == target / 50);
    assert(rows > target / 50 <==> 250 * rows > raised);
}

/// A batch of the size-based purge is a tenth of what four fifths of the cap are
/// estimated to hold, but no fewer than a thousand rows and no more than a hundred
/// thousand.
pub proof fn law_purge_batches_follow_the_cap(pass: CleanupPass, max: u64, rows: i64)
    requires
        pass.config.max_storage_bytes == Some(max),
        pass.phase is LoopDelete,
        call_ensures(CleanupPass::next_action, (&pass,), (CleanupAction::DeleteOldest { rows })),
        max <= u64::MAX / 4,
    ensures
        1_000 <= rows <= 100_000,
        rows == 1_000 || 2_500 * rows <= 4 * max,
        rows == 100_000 || 2_500 * (rows + 1) > 4 * max,
{
    let target = max * 4 / 5;
    assert(target_bytes(max) == target);
    assert(target as int / 10 / 50 == target as int / 500);
}

/// A batch for a size holds a tenth of it, at fifty bytes a row, within bounds.
pub proof fn law_batch_size_is_a_tenth(max_bytes: u64, rows: i64)
    requires
        call_ensures(purge_batch_size, (max_bytes,), rows),
    ensures
        1_000 <= rows <= 100_000,
        rows == 1_000 || 500 * rows <= max_bytes,
        rows == 100_000 || 500 * (rows + 1) > max_bytes,
{
    assert(max_bytes as int / 10 / 50 == max_bytes as int / 500);
}

/// A rewrite of the file pays where at least a quarter of what remains was freed, or
/// nothing remains.
pub proof fn law_vacuum_pays_for_a_quarter(deleted: u64, remaining: u64, worth: bool)
    requires
        call_ensures(should_vacuum, (deleted, remaining), worth),
    ensures
        worth <==> 4 * (deleted + 1) > remaining,
{
}

/// A retention of no hours is refused where a period is asked for, and every other one
/// is taken as it is. A cap in megabytes counts in bytes; none, or one of zero, is no cap.
pub proof fn law_cleanup_follows_its_settings(
    retention_hours: u64,
    max_storage_mb: Option<u64>,
    config: Result<CleanupConfig, CleanupError>,
)
    requires
        call_ensures(CleanupConfig::from_config, (retention_hours, max_storage_mb), config),
    ensures
        retention_hours == 0 ==> config == Err::<CleanupConfig, CleanupError>(
            CleanupError::ZeroRetention,
        ),
        retention_hours > 0 ==> (config matches Ok(c) && c.retention_hours == retention_hours),
        config matches Ok(c) ==> {
            &&& max_storage_mb is None || max_storage_mb == Some(0u64)
                ==> c.max_storage_bytes is None
            &&& max_storage_mb matches Some(mb) ==> 0 < mb <= u64::MAX / 1_048_576
                ==> c.max_storage_bytes == Some((mb * 1_048_576) as u64)
            &&& max_storage_mb matches Some(mb) ==> mb > u64::MAX / 1_048_576
                ==> c.max_storage_bytes == Some(u64::MAX)
        },
{
}

/// The settings of the storage section hold: no hours keep all trades, and the cap is in
/// megabytes.
pub proof fn law_storage_settings_hold(
    retention_hours: u64,
    max_storage_mb: u64,
    config: CleanupConfig,
)
    requires
        call_ensures(CleanupConfig::from_settings, (retention_hours, max_storage_mb), config),
    ensures
        config.retention_hours == retention_hours,
        max_storage_mb == 0 ==> config.max_storage_bytes is None,
        0 < max_storage_mb <= u64::MAX / 1_048_576 ==> config.max_storage_bytes == Some(
            (max_storage_mb * 1_048_576) as u64,
        ),
{
}

/// The server starts unless a capped database cannot be measured or is more than twice as
/// large as its cap.
pub proof fn law_start_is_refused_beyond_twice_the_cap(
    config: CleanupConfig,
    measured: Result<u64, String>,
    scheduler: Result<CleanupScheduler, CleanupError>,
)
    requires
        call_ensures(CleanupScheduler::new, (config, measured), scheduler),
    ensures
        config.max_storage_bytes is None ==> scheduler is Ok,
        config.max_storage_bytes is Some && measured is Err ==> scheduler is Err,
        config.max_storage_bytes matches Some(max) ==> measured matches Ok(current) ==> max
            <= u64::MAX / 2 ==> (scheduler is Err <==> current > 2 * max),
        config.max_storage_bytes matches Some(max) ==> max > u64::MAX / 2 ==> measured is Ok
            ==> scheduler is Ok,
        scheduler matches Ok(s) ==> s.config == config,
{
}

/// A database over its cap is found out at the start.
pub proof fn law_over_cap_is_seen(scheduler: CleanupScheduler, current: u64, over: bool)
    requires
        call_ensures(CleanupScheduler::starts_over_cap, (&scheduler, current), over),
    ensures
        over <==> (scheduler.config.max_storage_bytes matches Some(max) && current > max),
{
}

/// The next pass comes when the retention period since the last one is over, after five
/// minutes at most where there is a cap, and not within a minute. Where no pass has
/// succeeded it comes after that minute.
pub proof fn law_next_pass_is_in_time(
    scheduler: CleanupScheduler,
    last: Option<i64>,
    now: i64,
    delay: u64,
)
    requires
        call_ensures(CleanupScheduler::next_delay_ms, (&scheduler, last, now), delay),
    ensures
        delay >= 60_000,
        last is None ==> delay == 60_000,
        scheduler.config.max_storage_bytes is Some ==> delay <= 300_000,
        last matches Some(anchor) ==> {
            let due = anchor + scheduler.config.retention_hours * 3_600_000;
            &&& due - now <= 60_000 ==> delay == 60_000
            &&& scheduler.config.max_storage_bytes is None && 60_000 <= due - now <= u64::MAX
                ==> now + delay == due
            &&& scheduler.config.max_storage_bytes is Some && 60_000 <= due - now <= 300_000
                ==> now + delay == due
            &&& scheduler.config.max_storage_bytes is Some && due - now > 300_000 ==> delay
                == 300_000
        },
{
}

/// A pass begins with the purge by age, for the configured period.
pub proof fn law_pass_begins_with_the_purge_by_age(
    scheduler: CleanupScheduler,
    pass: CleanupPass,
    action: CleanupAction,
)
    requires
        call_ensures(CleanupScheduler::begin_pass, (&scheduler,), pass),
        call_ensures(CleanupPass::next_action, (&pass,), action),
    ensures
        action == (CleanupAction::PurgeOld {
            retention_hours: scheduler.config.retention_hours,
        }),
        pass.config == scheduler.config,
        pass.total_deleted == 0 && pass.iterations == 0 && !pass.any_deleted && !pass.time_ok,
        pass.wf(),
{
}

/// What follows the purge by age: where there is a cap the trades are counted; else the
/// log is merged if anything was deleted, and the pass is recorded if the purge worked.
pub proof fn law_purge_by_age_comes_first(
    pass: &mut CleanupPass,
    reply: CleanupReply,
    action: CleanupAction,
)
    requires
        old(pass).wf(),
        old(pass).phase is TimePurge,
        !old(pass).any_deleted,
        !old(pass).time_ok,
        call_ensures(CleanupPass::step, (pass, reply), action),
    ensures
        final(pass).time_ok <==> reply is Deleted,
        final(pass).any_deleted <==> (reply matches CleanupReply::Deleted(n) && n > 0),
        old(pass).config.max_storage_bytes is Some ==> action is CountTrades
            && final(pass).phase is LoopCount,
        old(pass).config.max_storage_bytes is None ==> {
            &&& reply matches CleanupReply::Deleted(n) ==> n > 0 ==> action is Checkpoint
                && final(pass).phase is FinalCheckpoint
            &&& reply matches CleanupReply::Deleted(n) ==> n == 0 ==> action is RecordCleanup
            &&& !(reply is Deleted) ==> action == (CleanupAction::Finished {
                last_cleanup: None,
            })
        },
{
}

/// Deleting goes on batch by batch, counting in between, until nothing more is deleted or
/// two hundred batches were; what was deleted adds up.
pub proof fn law_batches_add_up(pass: &mut CleanupPass, n: u64, action: CleanupAction)
    requires
        old(pass).wf(),
        old(pass).phase is LoopDelete,
        old(pass).total_deleted + n <= u64::MAX,
        call_ensures(CleanupPass::step, (pass, CleanupReply::Deleted(n)), action),
    ensures
        final(pass).total_deleted == old(pass).total_deleted + n,
        n > 0 ==> final(pass).iterations == old(pass).iterations + 1,
        n > 0 && old(pass).iterations + 1 < 200 ==> action is CountTrades && final(pass).phase
            is LoopCount,
        n > 0 && old(pass).iterations + 1 == 200 ==> action is Checkpoint && final(pass).phase
            is PurgeCheckpoint,
        n == 0 && old(pass).total_deleted > 0 ==> action is Checkpoint && final(pass).phase
            is PurgeCheckpoint,
        n == 0 && old(pass).total_deleted == 0 ==> !(action is Vacuum) && !(action
            is MeasureStorage),
{
}

/// Once enough was deleted the log is merged, what remains is counted, and the size is
/// measured where the purge came to its end by itself; then the file is rewritten if at
/// least a quarter of what remains was freed.
pub proof fn law_space_is_given_back(
    pass: &mut CleanupPass,
    reply: CleanupReply,
    action: CleanupAction,
)
    requires
        old(pass).wf(),
        old(pass).total_deleted > 0,
        call_ensures(CleanupPass::step, (pass, reply), action),
    ensures
        final(pass).total_deleted >= old(pass).total_deleted,
        old(pass).phase is PurgeCheckpoint && reply is Done ==> action is CountTrades
            && final(pass).phase is Remaining,
        reply matches CleanupReply::Counted(n) ==> old(pass).phase is Remaining ==> {
            &&& final(pass).remaining == n
            &&& old(pass).converged ==> action is MeasureStorage
            &&& !old(pass).converged ==> (action is Vacuum <==> 4 * (old(pass).total_deleted + 1)
                > n)
        },
        old(pass).phase is Measure && reply is Measured ==> (action is Vacuum <==> 4 * (
        old(pass).total_deleted + 1) > old(pass).remaining),
        old(pass).phase is Measure && reply is Measured && !(action is Vacuum) ==> action
            is Checkpoint && final(pass).any_deleted,
        old(pass).phase is Vacuum ==> action is Checkpoint && final(pass).phase
            is FinalCheckpoint && final(pass).any_deleted,
{
}

/// A pass whose purge by age worked ends in its record, and one whose purge by age failed
/// ends without, whatever became of the rest. The time of a pass is the one recorded.
pub proof fn law_passes_end_in_their_record(
    pass: &mut CleanupPass,
    reply: CleanupReply,
    action: CleanupAction,
)
    requires
        old(pass).wf(),
        call_ensures(CleanupPass::step, (pass, reply), action),
    ensures
        old(pass).phase is FinalCheckpoint && old(pass).time_ok ==> action is RecordCleanup,
        old(pass).phase is FinalCheckpoint && !old(pass).time_ok ==> action == (
        CleanupAction::Finished { last_cleanup: None }),
        old(pass).phase is Record ==> action == (CleanupAction::Finished {
            last_cleanup: match reply {
                CleanupReply::Recorded(ts) => Some(ts),
                _ => None,
            },
        }),
        old(pass).phase matches CleanupPhase::Finished { last_cleanup } ==> action == (
        CleanupAction::Finished { last_cleanup }),
        action is RecordCleanup ==> final(pass).time_ok,
        !(old(pass).phase is TimePurge) ==> final(pass).time_ok == old(pass).time_ok,
        final(pass).config == old(pass).config,
{
}

/// A failure on the way ends the size-based purge and nothing else: the log is still
/// merged if anything is known to be deleted, and the pass is recorded if its purge by age
/// worked.
pub proof fn law_failures_end_only_the_size_purge(
    pass: &mut CleanupPass,
    action: CleanupAction,
)
    requires
        old(pass).wf(),
        old(pass).phase is LoopCount || old(pass).phase is LoopDelete || old(pass).phase
            is PurgeCheckpoint || old(pass).phase is Remaining || old(pass).phase is Measure,
        call_ensures(CleanupPass::step, (pass, CleanupReply::Failed), action),
    ensures
        old(pass).any_deleted ==> action is Checkpoint && final(pass).phase is FinalCheckpoint,
        !old(pass).any_deleted && old(pass).time_ok ==> action is RecordCleanup,
        !old(pass).any_deleted && !old(pass).time_ok ==> action == (CleanupAction::Finished {
            last_cleanup: None,
        }),
{
}

/// Without a retention period nothing is purged by age; a cap of no megabytes is none.
pub proof fn law_keeping_all_purges_by_size_only(mb: Option<u64>, config: CleanupConfig)
    requires
        call_ensures(CleanupConfig::keep_all, (mb,), config),
    ensures
        config.retention_hours == 0,
        config.max_storage_bytes is Some <==> (mb matches Some(n) && n > 0),
        mb matches Some(n) ==> 0 < n <= u64::MAX / 1_048_576 ==> config.max_storage_bytes == Some(
            (n * 1_048_576) as u64,
        ),
{
}

/// Why cleanup cannot be set up is said with the sizes in whole megabytes.
pub proof fn law_setup_errors_say_why(
    error: CleanupError,
    message: String,
    current_mb: String,
    max_mb: String,
    enough_mb: String,
)
    requires
        call_ensures(CleanupError::message, (&error,), message),
        error matches CleanupError::TooLarge { current, max } ==> call_ensures(
            to_decimal,
            ((current / 1_048_576) as u64,),
            current_mb,
        ) && call_ensures(to_decimal, ((max / 1_048_576) as u64,), max_mb) && call_ensures(
            to_decimal,
            ((current / 1_048_576 + 1) as u64,),
            enough_mb,
        ),
    ensures
        error is ZeroRetention ==> message@
            == "data_retention_hours must be > 0 (got 0) — a zero retention period would purge all trades on every cleanup pass"@,
        error is TooLarge ==> message@ == "Database is "@ + current_mb@
            + " MB — more than 2x the configured max_storage_mb cap ("@ + max_mb@
            + " MB).  Purging that much data at startup would take too long; this likely indicates a misconfiguration.  Either raise max_storage_mb (e.g. to "@
            + enough_mb@ + " MB or higher) or manually shrink the database and restart."@,
        error matches CleanupError::Unmeasured { cause } ==> message@
            == "Failed to check storage size at startup: "@ + cause@,
{
}

} // verus!
