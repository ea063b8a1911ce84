//! Health of feeds and of the ingestion pipeline, and access counters.

use vstd::prelude::*;
use vstd::string::*;

use crate::clock::{steady_millis, unix_time_millis, whole_seconds, Clock, NANOS_PER_SEC};
use crate::market::{Exchange, EXCHANGES};
use crate::stream::{Event, StreamKind};
use crate::text::{chars_of, clone_option, string_of, text_before};

verus! {

/// Connection state of a feed.
#[derive(Debug, Clone, Copy, PartialEq, Eq, Structural)]
pub enum FeedState {
    Starting,
    Connected,
    Reconnecting,
    Stopped,
}

/// Overall health.
#[derive(Debug, Clone, Copy, PartialEq, Eq, Structural)]
pub enum DiagnosticsStatus {
    Starting,
    Healthy,
    Degraded,
}

/// Refused and failed requests since startup.
#[derive(Debug, Clone, Copy, PartialEq, Eq, Structural)]
pub struct AccessDiagnostics {
    pub auth_failures: u64,
    pub admission_blocked: u64,
    pub rate_limited: u64,
    pub connection_rejected: u64,
    pub accept_timeouts: u64,
}

/// Something that is counted in [`AccessDiagnostics`].
#[derive(Debug, Clone, Copy, PartialEq, Eq, Structural)]
pub enum AccessEvent {
    AuthFailure,
    AdmissionBlocked,
    RateLimited,
    ConnectionRejected,
    AcceptTimeout,
}

/// Whether details of an access event are logged.
#[derive(Debug, Clone, Copy, PartialEq, Eq, Structural)]
pub enum AccessLogDecision {
    Emit,
    Suppress,
}

/// Events of one kind whose details are logged per window.
pub const ACCESS_DETAIL_LIMIT: u64 = 5;

/// Length of a sampling window in nanoseconds.
pub const ACCESS_DETAIL_WINDOW: u64 = 60_000_000_000;

/// One more, up to the largest value.
pub open spec fn bumped(n: u64) -> u64 {
    if n == u64::MAX {
        n
    } else {
        (n + 1) as u64
    }
}

/// `n` more, up to the largest value.
pub open spec fn raised(count: u64, n: int) -> u64 {
    if count + n > u64::MAX {
        u64::MAX
    } else {
        (count + n) as u64
    }
}

/// What is left of `a` without `b`, but no less than nothing.
pub open spec fn excess(a: u64, b: u64) -> u64 {
    if a > b {
        (a - b) as u64
    } else {
        0
    }
}

impl Default for AccessDiagnostics {
    fn default() -> (counts: AccessDiagnostics)
        ensures
            counts == AccessDiagnostics::zero(),
    {
        AccessDiagnostics {
            auth_failures: 0,
            admission_blocked: 0,
            rate_limited: 0,
            connection_rejected: 0,
            accept_timeouts: 0,
        }
    }
}

impl AccessDiagnostics {
    /// Nothing counted.
    pub open spec fn zero() -> AccessDiagnostics {
        AccessDiagnostics {
            auth_failures: 0,
            admission_blocked: 0,
            rate_limited: 0,
            connection_rejected: 0,
            accept_timeouts: 0,
        }
    }

    /// The counter of one kind of event.
    pub open spec fn count(self, event: AccessEvent) -> u64 {
        match event {
            AccessEvent::AuthFailure => self.auth_failures,
            AccessEvent::AdmissionBlocked => self.admission_blocked,
            AccessEvent::RateLimited => self.rate_limited,
            AccessEvent::ConnectionRejected => self.connection_rejected,
            AccessEvent::AcceptTimeout => self.accept_timeouts,
        }
    }

    /// The counters with one of them at `n`.
    pub open spec fn with(self, event: AccessEvent, n: u64) -> AccessDiagnostics {
        match event {
            AccessEvent::AuthFailure => AccessDiagnostics { auth_failures: n, ..self },
            AccessEvent::AdmissionBlocked => AccessDiagnostics { admission_blocked: n, ..self },
            AccessEvent::RateLimited => AccessDiagnostics { rate_limited: n, ..self },
            AccessEvent::ConnectionRejected => AccessDiagnostics {
                connection_rejected: n,
                ..self
            },
            AccessEvent::AcceptTimeout => AccessDiagnostics { accept_timeouts: n, ..self },
        }
    }

    /// Whether nothing was counted.
    pub fn is_zero(self) -> (zero: bool)
        ensures
            zero == (self == AccessDiagnostics::zero()),
    {
        self.auth_failures == 0 && self.admission_blocked == 0 && self.rate_limited == 0
            && self.connection_rejected == 0 && self.accept_timeouts == 0
    }

    /// What was counted since `previous`.
    pub fn delta_since(self, previous: AccessDiagnostics) -> (delta: AccessDiagnostics)
        ensures
            forall|event: AccessEvent| #[trigger]
                delta.count(event) == excess(self.count(event), previous.count(event)),
    {
        AccessDiagnostics {
            auth_failures: self.auth_failures.saturating_sub(previous.auth_failures),
            admission_blocked: self.admission_blocked.saturating_sub(previous.admission_blocked),
            rate_limited: self.rate_limited.saturating_sub(previous.rate_limited),
            connection_rejected: self.connection_rejected.saturating_sub(
                previous.connection_rejected,
            ),
            accept_timeouts: self.accept_timeouts.saturating_sub(previous.accept_timeouts),
        }
    }

    fn get(&self, event: AccessEvent) -> (n: u64)
        ensures
            n == self.count(event),
    {
        match event {
            AccessEvent::AuthFailure => self.auth_failures,
            AccessEvent::AdmissionBlocked => self.admission_blocked,
            AccessEvent::RateLimited => self.rate_limited,
            AccessEvent::ConnectionRejected => self.connection_rejected,
            AccessEvent::AcceptTimeout => self.accept_timeouts,
        }
    }

    /// Count one event.
    fn increment(&mut self, event: AccessEvent)
        ensures
            *final(self) == old(self).with(event, bumped(old(self).count(event))),
    {
        let n: u64 = self.get(event).saturating_add(1);
        match event {
            AccessEvent::AuthFailure => self.auth_failures = n,
            AccessEvent::AdmissionBlocked => self.admission_blocked = n,
            AccessEvent::RateLimited => self.rate_limited = n,
            AccessEvent::ConnectionRejected => self.connection_rejected = n,
            AccessEvent::AcceptTimeout => self.accept_timeouts = n,
        }
    }
}

/// Longest error that is kept, in characters.
pub const MAX_ERROR_LENGTH: usize = 512;

/// The part of an error that is kept.
pub open spec fn summary(error: Seq<char>) -> Seq<char> {
    if error.len() > MAX_ERROR_LENGTH {
        error.take(MAX_ERROR_LENGTH as int)
    } else {
        error
    }
}

/// The part of an error that is kept.
pub fn summarize_error(error: &str) -> (kept: String)
    ensures
        kept@ == summary(error@),
{
    let mut chars = chars_of(error);
    if chars.len() > MAX_ERROR_LENGTH {
        chars.truncate(MAX_ERROR_LENGTH);
    }
    string_of(chars.as_slice())
}

/// What is known of one feed.
#[derive(Debug)]
struct FeedRecord {
    state: FeedState,
    connected_at: Option<i64>,
    last_data_at: Option<i64>,
    last_error: Option<String>,
    disconnect_count: u64,
    failed_connect_attempts: u64,
    reconnect_count: u64,
    stream_restart_count: u64,
    last_persist_at: Option<i64>,
}

/// The mathematical value of what is known of one feed. Times are Unix
/// milliseconds.
#[verifier::ext_equal]
pub struct FeedView {
    pub state: FeedState,
    pub connected_at: Option<i64>,
    pub last_data_at: Option<i64>,
    pub last_error: Option<Seq<char>>,
    pub disconnect_count: u64,
    pub failed_connect_attempts: u64,
    pub reconnect_count: u64,
    pub stream_restart_count: u64,
    pub last_persist_at: Option<i64>,
}

impl FeedView {
    /// A feed that has not connected yet.
    pub open spec fn fresh() -> FeedView {
        FeedView {
            state: FeedState::Starting,
            connected_at: None,
            last_data_at: None,
            last_error: None,
            disconnect_count: 0,
            failed_connect_attempts: 0,
            reconnect_count: 0,
            stream_restart_count: 0,
            last_persist_at: None,
        }
    }

    /// The feed once it has connected. Only a feed that was reconnecting counts
    /// it as a reconnection.
    pub open spec fn connected(self, now: i64) -> FeedView {
        FeedView {
            state: FeedState::Connected,
            connected_at: Some(now),
            last_error: None,
            reconnect_count: if self.state == FeedState::Reconnecting {
                bumped(self.reconnect_count)
            } else {
                self.reconnect_count
            },
            ..self
        }
    }

    /// The feed once it has lost its connection, or failed to get one.
    pub open spec fn disconnected(self, reason: Seq<char>) -> FeedView {
        FeedView {
            state: FeedState::Reconnecting,
            last_error: Some(summary(reason)),
            disconnect_count: if self.state == FeedState::Connected {
                bumped(self.disconnect_count)
            } else {
                self.disconnect_count
            },
            failed_connect_attempts: if self.state == FeedState::Connected {
                self.failed_connect_attempts
            } else {
                bumped(self.failed_connect_attempts)
            },
            ..self
        }
    }

    /// The feed once data has come in.
    pub open spec fn delivered(self, now: i64) -> FeedView {
        FeedView { last_data_at: Some(now), ..self }
    }

    /// The feed once its task has ended for good.
    pub open spec fn stopped(self, reason: Seq<char>) -> FeedView {
        FeedView { state: FeedState::Stopped, last_error: Some(summary(reason)), ..self }
    }

    /// The feed once its task is started anew.
    pub open spec fn restarting(self, reason: Seq<char>) -> FeedView {
        FeedView {
            state: FeedState::Reconnecting,
            last_error: Some(summary(reason)),
            stream_restart_count: bumped(self.stream_restart_count),
            ..self
        }
    }

    /// The feed once some of its data has been stored.
    pub open spec fn persisted(self, now: i64) -> FeedView {
        FeedView { last_persist_at: Some(now), ..self }
    }
}

impl View for FeedRecord {
    type V = FeedView;

    closed spec fn view(&self) -> FeedView {
        FeedView {
            state: self.state,
            connected_at: self.connected_at,
            last_data_at: self.last_data_at,
            last_error: crate::text::option_view(self.last_error),
            disconnect_count: self.disconnect_count,
            failed_connect_attempts: self.failed_connect_attempts,
            reconnect_count: self.reconnect_count,
            stream_restart_count: self.stream_restart_count,
            last_persist_at: self.last_persist_at,
        }
    }
}

impl FeedRecord {
    fn new() -> (feed: FeedRecord)
        ensures
            feed@ == FeedView::fresh(),
    {
        FeedRecord {
            state: FeedState::Starting,
            connected_at: None,
            last_data_at: None,
            last_error: None,
            disconnect_count: 0,
            failed_connect_attempts: 0,
            reconnect_count: 0,
            stream_restart_count: 0,
            last_persist_at: None,
        }
    }

    fn snapshot(&self, exchange: Exchange) -> (feed: FeedDiagnostics)
        ensures
            feed@ == (FeedDiagnosticsView { exchange: exchange.spec_name(), feed: self@ }),
    {
        FeedDiagnostics {
            exchange: exchange.name(),
            state: self.state,
            connected_at: self.connected_at,
            last_data_at: self.last_data_at,
            last_error: clone_option(&self.last_error),
            disconnect_count: self.disconnect_count,
            failed_connect_attempts: self.failed_connect_attempts,
            reconnect_count: self.reconnect_count,
            stream_restart_count: self.stream_restart_count,
            last_persist_at: self.last_persist_at,
        }
    }
}

/// One feed as it is reported.
#[derive(Debug)]
pub struct FeedDiagnostics {
    pub exchange: String,
    pub state: FeedState,
    pub connected_at: Option<i64>,
    pub last_data_at: Option<i64>,
    pub last_error: Option<String>,
    pub disconnect_count: u64,
    pub failed_connect_attempts: u64,
    pub reconnect_count: u64,
    pub stream_restart_count: u64,
    pub last_persist_at: Option<i64>,
}

/// The mathematical value of a [`FeedDiagnostics`].
#[verifier::ext_equal]
pub struct FeedDiagnosticsView {
    pub exchange: Seq<char>,
    pub feed: FeedView,
}

impl View for FeedDiagnostics {
    type V = FeedDiagnosticsView;

    open spec fn view(&self) -> FeedDiagnosticsView {
        FeedDiagnosticsView {
            exchange: self.exchange@,
            feed: FeedView {
                state: self.state,
                connected_at: self.connected_at,
                last_data_at: self.last_data_at,
                last_error: crate::text::option_view(self.last_error),
                disconnect_count: self.disconnect_count,
                failed_connect_attempts: self.failed_connect_attempts,
                reconnect_count: self.reconnect_count,
                stream_restart_count: self.stream_restart_count,
                last_persist_at: self.last_persist_at,
            },
        }
    }
}

/// Ingestion pipeline as it is reported.
#[derive(Debug)]
pub struct PipelineDiagnostics {
    pub persistence_healthy: bool,
    pub last_flush_at: Option<i64>,
    pub last_flush_error: Option<String>,
    pub flush_failure_count: u64,
    pub flush_retry_pending_trades: u64,
    pub flush_dropped_trades: u64,
    pub event_channel_saturated: bool,
    pub event_channel_dropped_trades: u64,
    pub persist_channel_saturated: bool,
    pub persist_channel_dropped_trades: u64,
    pub data_buffer_saturated: bool,
    pub data_buffer_dropped_trades: u64,
}

/// Database as it is reported.
#[derive(Debug, Clone, Copy, PartialEq, Eq, Structural)]
pub struct DatabaseDiagnostics {
    pub ok: bool,
}

/// A point-in-time view of feeds, pipeline and access counters.
#[derive(Debug)]
pub struct DiagnosticsSnapshot {
    pub status: DiagnosticsStatus,
    pub uptime_secs: u64,
    pub database: DatabaseDiagnostics,
    pub feeds: Vec<FeedDiagnostics>,
    pub pipeline: PipelineDiagnostics,
    pub access: AccessDiagnostics,
}

/// What is known of the ingestion pipeline.
#[derive(Debug)]
struct PipelineRecord {
    persistence_healthy: bool,
    last_flush_at: Option<i64>,
    last_flush_error: Option<String>,
    flush_failure_count: u64,
    flush_retry_pending_trades: u64,
    flush_dropped_trades: u64,
    saturated_feeds: Vec<bool>,
    event_channel_dropped_trades: u64,
    persist_channel_saturated: bool,
    persist_channel_dropped_trades: u64,
    data_buffer_saturated: bool,
    data_buffer_dropped_trades: u64,
}

/// The mathematical value of what is known of the ingestion pipeline.
#[verifier::ext_equal]
pub struct PipelineView {
    pub persistence_healthy: bool,
    pub last_flush_at: Option<i64>,
    pub last_flush_error: Option<Seq<char>>,
    pub flush_failure_count: u64,
    pub flush_retry_pending_trades: u64,
    pub flush_dropped_trades: u64,
    /// Exchanges whose event channel is full.
    pub saturated_feeds: Set<Exchange>,
    pub event_channel_dropped_trades: u64,
    pub persist_channel_saturated: bool,
    pub persist_channel_dropped_trades: u64,
    pub data_buffer_saturated: bool,
    pub data_buffer_dropped_trades: u64,
}

impl PipelineView {
    /// A pipeline to which nothing has happened.
    pub open spec fn fresh() -> PipelineView {
        PipelineView {
            persistence_healthy: true,
            last_flush_at: None,
            last_flush_error: None,
            flush_failure_count: 0,
            flush_retry_pending_trades: 0,
            flush_dropped_trades: 0,
            saturated_feeds: Set::empty(),
            event_channel_dropped_trades: 0,
            persist_channel_saturated: false,
            persist_channel_dropped_trades: 0,
            data_buffer_saturated: false,
            data_buffer_dropped_trades: 0,
        }
    }

    /// The pipeline once a batch has been written.
    ///
    /// A batch written while an earlier one waits for its retry settles nothing.
    /// Otherwise nothing is pending any more. The last error goes once a retry
    /// has succeeded, or if no batch was ever dropped; a dropped batch keeps
    /// persistence unhealthy for good.
    pub open spec fn flush_completed(self, retry: bool, now: i64) -> PipelineView {
        let settled = retry || self.flush_retry_pending_trades == 0;
        PipelineView {
            last_flush_at: Some(now),
            flush_retry_pending_trades: if settled {
                0
            } else {
                self.flush_retry_pending_trades
            },
            last_flush_error: if settled && (retry || self.flush_dropped_trades == 0) {
                None
            } else {
                self.last_flush_error
            },
            persistence_healthy: self.persistence_healthy || (settled && self.flush_dropped_trades
                == 0),
            ..self
        }
    }

    /// The pipeline once a batch could not be written and waits for a retry.
    pub open spec fn flush_failed(self, error: Seq<char>, pending: u64) -> PipelineView {
        PipelineView {
            persistence_healthy: false,
            last_flush_error: Some(summary(error)),
            flush_failure_count: bumped(self.flush_failure_count),
            flush_retry_pending_trades: pending,
            ..self
        }
    }

    /// The pipeline once a batch has been given up.
    pub open spec fn flush_dropped(self, trades: int) -> PipelineView {
        PipelineView {
            persistence_healthy: false,
            flush_retry_pending_trades: 0,
            flush_dropped_trades: raised(self.flush_dropped_trades, trades),
            ..self
        }
    }

    /// The pipeline once an event did not fit the event channel.
    pub open spec fn event_dropped(self, exchange: Exchange, trades: int) -> PipelineView {
        PipelineView {
            saturated_feeds: self.saturated_feeds.insert(exchange),
            event_channel_dropped_trades: raised(self.event_channel_dropped_trades, trades),
            ..self
        }
    }

    /// The pipeline once the event channel of an exchange has room again.
    pub open spec fn event_recovered(self, exchange: Exchange) -> PipelineView {
        PipelineView { saturated_feeds: self.saturated_feeds.remove(exchange), ..self }
    }

    /// The pipeline once an event did not fit the persist channel.
    pub open spec fn persist_dropped(self, trades: int) -> PipelineView {
        PipelineView {
            persist_channel_saturated: true,
            persist_channel_dropped_trades: raised(self.persist_channel_dropped_trades, trades),
            ..self
        }
    }

    /// The pipeline once the persist channel has room again.
    pub open spec fn persist_recovered(self) -> PipelineView {
        PipelineView { persist_channel_saturated: false, ..self }
    }

    /// The pipeline once a trade did not fit the buffer.
    pub open spec fn buffer_dropped(self) -> PipelineView {
        PipelineView {
            data_buffer_saturated: true,
            data_buffer_dropped_trades: bumped(self.data_buffer_dropped_trades),
            ..self
        }
    }

    /// The pipeline once the buffer has room again.
    pub open spec fn buffer_recovered(self) -> PipelineView {
        PipelineView { data_buffer_saturated: false, ..self }
    }

    /// Whether anything about the pipeline is amiss.
    pub open spec fn troubled(self) -> bool {
        ||| !self.persistence_healthy
        ||| self.flush_retry_pending_trades > 0
        ||| self.flush_dropped_trades > 0
        ||| exists|exchange: Exchange| #[trigger] self.saturated_feeds.contains(exchange)
        ||| self.persist_channel_saturated
        ||| self.data_buffer_saturated
    }
}

spec fn flagged(flags: Seq<bool>) -> Set<Exchange> {
    Set::new(|exchange: Exchange| flags[exchange.spec_index()])
}

impl PipelineRecord {
    spec fn wf(&self) -> bool {
        self.saturated_feeds@.len() == EXCHANGES
    }

    spec fn value(&self) -> PipelineView {
        PipelineView {
            persistence_healthy: self.persistence_healthy,
            last_flush_at: self.last_flush_at,
            last_flush_error: crate::text::option_view(self.last_flush_error),
            flush_failure_count: self.flush_failure_count,
            flush_retry_pending_trades: self.flush_retry_pending_trades,
            flush_dropped_trades: self.flush_dropped_trades,
            saturated_feeds: flagged(self.saturated_feeds@),
            event_channel_dropped_trades: self.event_channel_dropped_trades,
            persist_channel_saturated: self.persist_channel_saturated,
            persist_channel_dropped_trades: self.persist_channel_dropped_trades,
            data_buffer_saturated: self.data_buffer_saturated,
            data_buffer_dropped_trades: self.data_buffer_dropped_trades,
        }
    }

    fn new() -> (pipeline: PipelineRecord)
        ensures
            pipeline.wf(),
            pipeline.value() == PipelineView::fresh(),
    {
        let mut saturated_feeds: Vec<bool> = Vec::new();
        let mut i: usize = 0;
        while i < EXCHANGES
            invariant
                i <= EXCHANGES,
                saturated_feeds@.len() == i,
                forall|j: int| 0 <= j < i ==> !saturated_feeds@[j],
            decreases EXCHANGES - i,
        {
            saturated_feeds.push(false);
            i += 1;
        }
        let pipeline = PipelineRecord {
            persistence_healthy: true,
            last_flush_at: None,
            last_flush_error: None,
            flush_failure_count: 0,
            flush_retry_pending_trades: 0,
            flush_dropped_trades: 0,
            saturated_feeds,
            event_channel_dropped_trades: 0,
            persist_channel_saturated: false,
            persist_channel_dropped_trades: 0,
            data_buffer_saturated: false,
            data_buffer_dropped_trades: 0,
        };
        assert(flagged(pipeline.saturated_feeds@) =~= Set::<Exchange>::empty());
        pipeline
    }

    fn set_saturated(&mut self, exchange: Exchange, saturated: bool)
        requires
            old(self).wf(),
        ensures
            final(self).wf(),
            final(self).value() == (PipelineView {
                saturated_feeds: if saturated {
                    old(self).value().saturated_feeds.insert(exchange)
                } else {
                    old(self).value().saturated_feeds.remove(exchange)
                },
                ..old(self).value()
            }),
    {
        let ghost before = self.saturated_feeds@;
        let i: usize = exchange.index();
        self.saturated_feeds.set(i, saturated);
        proof {
            lemma_index_injective();
            if saturated {
                assert(flagged(self.saturated_feeds@) =~= flagged(before).insert(exchange));
            } else {
                assert(flagged(self.saturated_feeds@) =~= flagged(before).remove(exchange));
            }
        }
    }

    fn any_saturated(&self) -> (found: bool)
        requires
            self.wf(),
        ensures
            found == exists|exchange: Exchange| #[trigger]
                self.value().saturated_feeds.contains(exchange),
    {
        let mut i: usize = 0;
        while i < EXCHANGES
            invariant
                i <= EXCHANGES,
                self.wf(),
                forall|exchange: Exchange|
                    exchange.spec_index() < i ==> !#[trigger]
                        self.value().saturated_feeds.contains(exchange),
            decreases EXCHANGES - i,
        {
            if self.saturated_feeds[i] {
                let exchange = Exchange::from_index(i);
                assert(self.value().saturated_feeds.contains(exchange));
                return true;
            }
            i += 1;
        }
        assert forall|exchange: Exchange| !#[trigger]
            self.value().saturated_feeds.contains(exchange) by {
            assert(exchange.spec_index() < EXCHANGES);
        }
        false
    }

    fn snapshot(&self) -> (report: PipelineDiagnostics)
        requires
            self.wf(),
        ensures
            pipeline_report(self.value(), report),
    {
        PipelineDiagnostics {
            persistence_healthy: self.persistence_healthy,
            last_flush_at: self.last_flush_at,
            last_flush_error: clone_option(&self.last_flush_error),
            flush_failure_count: self.flush_failure_count,
            flush_retry_pending_trades: self.flush_retry_pending_trades,
            flush_dropped_trades: self.flush_dropped_trades,
            event_channel_saturated: self.any_saturated(),
            event_channel_dropped_trades: self.event_channel_dropped_trades,
            persist_channel_saturated: self.persist_channel_saturated,
            persist_channel_dropped_trades: self.persist_channel_dropped_trades,
            data_buffer_saturated: self.data_buffer_saturated,
            data_buffer_dropped_trades: self.data_buffer_dropped_trades,
        }
    }
}

/// Whether `report` tells the state of `pipeline`.
pub open spec fn pipeline_report(pipeline: PipelineView, report: PipelineDiagnostics) -> bool {
    &&& report.persistence_healthy == pipeline.persistence_healthy
    &&& report.last_flush_at == pipeline.last_flush_at
    &&& crate::text::option_view(report.last_flush_error) == pipeline.last_flush_error
    &&& report.flush_failure_count == pipeline.flush_failure_count
    &&& report.flush_retry_pending_trades == pipeline.flush_retry_pending_trades
    &&& report.flush_dropped_trades == pipeline.flush_dropped_trades
    &&& report.event_channel_saturated == exists|exchange: Exchange| #[trigger]
        pipeline.saturated_feeds.contains(exchange)
    &&& report.event_channel_dropped_trades == pipeline.event_channel_dropped_trades
    &&& report.persist_channel_saturated == pipeline.persist_channel_saturated
    &&& report.persist_channel_dropped_trades == pipeline.persist_channel_dropped_trades
    &&& report.data_buffer_saturated == pipeline.data_buffer_saturated
    &&& report.data_buffer_dropped_trades == pipeline.data_buffer_dropped_trades
}

proof fn lemma_index_injective()
    ensures
        forall|a: Exchange, b: Exchange|
            #![trigger a.spec_index(), b.spec_index()]
            a.spec_index() == b.spec_index() ==> a == b,
        forall|a: Exchange| 0 <= #[trigger] a.spec_index() < EXCHANGES,
{
}

/// All that [`Diagnostics`] keeps.
#[verifier::ext_equal]
pub struct DiagnosticsState {
    pub feeds: Map<Exchange, FeedView>,
    pub pipeline: PipelineView,
    pub access: AccessDiagnostics,
    /// When the sampling window began, and what was logged in it.
    pub window_started: u64,
    pub emitted: AccessDiagnostics,
}

/// A feed as it is known, or a fresh one.
pub open spec fn feed_or_fresh(feeds: Map<Exchange, FeedView>, exchange: Exchange) -> FeedView {
    if feeds.dom().contains(exchange) {
        feeds[exchange]
    } else {
        FeedView::fresh()
    }
}

/// Overall health: degraded if the database, the pipeline or any feed is in
/// trouble; else starting while any feed is; else healthy.
pub open spec fn overall(database_ok: bool, state: DiagnosticsState) -> DiagnosticsStatus {
    if !database_ok || state.pipeline.troubled() || exists|exchange: Exchange| #[trigger]
        state.feeds.dom().contains(exchange) && (state.feeds[exchange].state
            == FeedState::Reconnecting || state.feeds[exchange].state == FeedState::Stopped) {
        DiagnosticsStatus::Degraded
    } else if exists|exchange: Exchange| #[trigger]
        state.feeds.dom().contains(exchange) && state.feeds[exchange].state
            == FeedState::Starting {
        DiagnosticsStatus::Starting
    } else {
        DiagnosticsStatus::Healthy
    }
}

/// The exchanges that a list of streams comes from.
pub open spec fn exchanges_of(streams: Seq<StreamKind>) -> Set<Exchange> {
    Set::new(
        |exchange: Exchange|
            exists|i: int|
                0 <= i < streams.len() && (#[trigger] streams[i])@.exchange() == exchange,
    )
}

/// The feeds once every one of `changed` has gone through `change`.
pub open spec fn feeds_changed(
    feeds: Map<Exchange, FeedView>,
    changed: Set<Exchange>,
    change: spec_fn(FeedView) -> FeedView,
) -> Map<Exchange, FeedView> {
    Map::new(
        |exchange: Exchange| feeds.dom().contains(exchange) || changed.contains(exchange),
        |exchange: Exchange|
            if changed.contains(exchange) {
                change(feed_or_fresh(feeds, exchange))
            } else {
                feeds[exchange]
            },
    )
}

/// The feeds once an event has been taken in.
pub open spec fn feeds_after_event(
    feeds: Map<Exchange, FeedView>,
    event: Event,
    now: i64,
) -> Map<Exchange, FeedView> {
    match event {
        Event::Connected(streams) => feeds_changed(
            feeds,
            exchanges_of(streams@),
            |feed: FeedView| feed.connected(now),
        ),
        Event::Disconnected(streams, reason) => feeds_changed(
            feeds,
            exchanges_of(streams@),
            |feed: FeedView| feed.disconnected(reason@),
        ),
        Event::DepthReceived(stream) => feeds.insert(
            stream@.exchange(),
            feed_or_fresh(feeds, stream@.exchange()).delivered(now),
        ),
        Event::TradesReceived(stream, _) => feeds.insert(
            stream@.exchange(),
            feed_or_fresh(feeds, stream@.exchange()).delivered(now),
        ),
        Event::KlineReceived(stream) => feeds.insert(
            stream@.exchange(),
            feed_or_fresh(feeds, stream@.exchange()).delivered(now),
        ),
    }
}

/// Trades that an event carries.
pub open spec fn trades_in(event: Event) -> int {
    match event {
        Event::TradesReceived(_, trades) => trades@.len() as int,
        _ => 0,
    }
}

/// Trades that an event carries.
fn event_trade_count(event: &Event) -> (count: u64)
    ensures
        count == trades_in(*event),
{
    match event {
        Event::TradesReceived(_, trades) => trades.len() as u64,
        _ => 0,
    }
}

/// Sampling of access details: the window and its counters once an event at
/// `now` is taken in, and whether its details are logged.
pub open spec fn sampled(
    state: DiagnosticsState,
    event: AccessEvent,
    now: u64,
) -> (u64, AccessDiagnostics, AccessLogDecision) {
    let restart = crate::limiter::elapsed_since(state.window_started, now) >= ACCESS_DETAIL_WINDOW;
    let started = if restart {
        now
    } else {
        state.window_started
    };
    let emitted = if restart {
        AccessDiagnostics::zero()
    } else {
        state.emitted
    };
    if emitted.count(event) < ACCESS_DETAIL_LIMIT {
        (started, emitted.with(event, bumped(emitted.count(event))), AccessLogDecision::Emit)
    } else {
        (started, emitted, AccessLogDecision::Suppress)
    }
}

spec fn feed_map(slots: Seq<Option<FeedRecord>>) -> Map<Exchange, FeedView> {
    Map::new(
        |exchange: Exchange| slots[exchange.spec_index()] is Some,
        |exchange: Exchange| slots[exchange.spec_index()]->0@,
    )
}

/// Health of feeds and pipeline, and access counters, since startup.
pub struct Diagnostics {
    clock: Clock,
    start_wall_ms: i64,
    feeds: Vec<Option<FeedRecord>>,
    pipeline: PipelineRecord,
    access: AccessDiagnostics,
    window_started: u64,
    emitted: AccessDiagnostics,
}

impl View for Diagnostics {
    type V = DiagnosticsState;

    closed spec fn view(&self) -> DiagnosticsState {
        DiagnosticsState {
            feeds: feed_map(self.feeds@),
            pipeline: self.pipeline.value(),
            access: self.access,
            window_started: self.window_started,
            emitted: self.emitted,
        }
    }
}

impl Diagnostics {
    /// One place for each exchange.
    pub closed spec fn wf(&self) -> bool {
        self.feeds@.len() == EXCHANGES && self.pipeline.wf()
    }

    /// The wall-clock time at which the process started, in Unix milliseconds.
    pub closed spec fn started_at(&self) -> i64 {
        self.start_wall_ms
    }

    /// Start with no feed known and nothing counted.
    pub fn new() -> (diagnostics: Diagnostics)
        ensures
            diagnostics.wf(),
            diagnostics@ == (DiagnosticsState {
                feeds: Map::empty(),
                pipeline: PipelineView::fresh(),
                access: AccessDiagnostics::zero(),
                window_started: 0,
                emitted: AccessDiagnostics::zero(),
            }),
    {
        let mut feeds: Vec<Option<FeedRecord>> = Vec::new();
        let mut i: usize = 0;
        while i < EXCHANGES
            invariant
                i <= EXCHANGES,
                feeds@.len() == i,
                forall|j: int| 0 <= j < i ==> #[trigger] feeds@[j] is None,
            decreases EXCHANGES - i,
        {
            feeds.push(None);
            i += 1;
        }
        let diagnostics = Diagnostics {
            clock: Clock::start(),
            start_wall_ms: unix_time_millis(),
            feeds,
            pipeline: PipelineRecord::new(),
            access: AccessDiagnostics::default(),
            window_started: 0,
            emitted: AccessDiagnostics::default(),
        };
        proof {
            lemma_index_injective();
            assert(feed_map(diagnostics.feeds@) =~= Map::<Exchange, FeedView>::empty());
        }
        diagnostics
    }

    /// The time since startup, in nanoseconds.
    pub fn uptime(&self) -> u64 {
        self.clock.now()
    }

    /// The wall-clock time, in Unix milliseconds: the start plus what the
    /// monotonic clock has counted since.
    fn now_ms(&self) -> (now: i64)
        ensures
            now >= self.started_at(),
    {
        let elapsed: u64 = self.clock.now();
        proof {
            crate::clock::law_steady_time_never_runs_back(self.start_wall_ms, elapsed, elapsed);
        }
        steady_millis(self.start_wall_ms, elapsed)
    }

    /// Take a feed out, or make a fresh one.
    fn take_feed(&mut self, exchange: Exchange) -> (feed: FeedRecord)
        requires
            old(self).wf(),
        ensures
            final(self).wf(),
            feed@ == feed_or_fresh(old(self)@.feeds, exchange),
            final(self)@ == (DiagnosticsState {
                feeds: old(self)@.feeds.remove(exchange),
                ..old(self)@
            }),
            final(self).started_at() == old(self).started_at(),
    {
        let ghost before = self.feeds@;
        let i: usize = exchange.index();
        let mut slot: Option<FeedRecord> = None;
        std::mem::swap(&mut slot, &mut self.feeds[i]);
        proof {
            lemma_index_injective();
            assert(self.feeds@ =~= before.update(i as int, None));
            assert(feed_map(self.feeds@) =~= feed_map(before).remove(exchange));
        }
        match slot {
            Some(feed) => feed,
            None => FeedRecord::new(),
        }
    }

    fn put_feed(&mut self, exchange: Exchange, feed: FeedRecord)
        requires
            old(self).wf(),
        ensures
            final(self).wf(),
            final(self)@ == (DiagnosticsState {
                feeds: old(self)@.feeds.insert(exchange, feed@),
                ..old(self)@
            }),
            final(self).started_at() == old(self).started_at(),
    {
        let ghost before = self.feeds@;
        let ghost value = feed@;
        let i: usize = exchange.index();
        self.feeds.set(i, Some(feed));
        proof {
            lemma_index_injective();
            assert(feed_map(self.feeds@) =~= feed_map(before).insert(exchange, value));
        }
    }

    /// Make an exchange known, if it is not.
    pub fn register_exchange(&mut self, exchange: Exchange)
        requires
            old(self).wf(),
        ensures
            final(self).wf(),
            final(self)@ == (DiagnosticsState {
                feeds: old(self)@.feeds.insert(
                    exchange,
                    feed_or_fresh(old(self)@.feeds, exchange),
                ),
                ..old(self)@
            }),
    {
        let feed = self.take_feed(exchange);
        self.put_feed(exchange, feed);
        assert(self@.feeds =~= old(self)@.feeds.insert(
            exchange,
            feed_or_fresh(old(self)@.feeds, exchange),
        ));
    }

    fn record_connected(&mut self, exchange: Exchange, now: i64)
        requires
            old(self).wf(),
        ensures
            final(self).wf(),
            final(self)@ == (DiagnosticsState {
                feeds: old(self)@.feeds.insert(
                    exchange,
                    feed_or_fresh(old(self)@.feeds, exchange).connected(now),
                ),
                ..old(self)@
            }),
    {
        let mut feed = self.take_feed(exchange);
        if feed.state == FeedState::Reconnecting {
            feed.reconnect_count = feed.reconnect_count.saturating_add(1);
        }
        feed.state = FeedState::Connected;
        feed.connected_at = Some(now);
        feed.last_error = None;
        let ghost value = feed@;
        self.put_feed(exchange, feed);
        assert(self@.feeds =~= old(self)@.feeds.insert(exchange, value));
    }

    fn record_disconnected(&mut self, exchange: Exchange, reason: &str)
        requires
            old(self).wf(),
        ensures
            final(self).wf(),
            final(self)@ == (DiagnosticsState {
                feeds: old(self)@.feeds.insert(
                    exchange,
                    feed_or_fresh(old(self)@.feeds, exchange).disconnected(reason@),
                ),
                ..old(self)@
            }),
    {
        let mut feed = self.take_feed(exchange);
        if feed.state == FeedState::Connected {
            feed.disconnect_count = feed.disconnect_count.saturating_add(1);
        } else {
            feed.failed_connect_attempts = feed.failed_connect_attempts.saturating_add(1);
        }
        feed.state = FeedState::Reconnecting;
        feed.last_error = Some(summarize_error(reason));
        let ghost value = feed@;
        self.put_feed(exchange, feed);
        assert(self@.feeds =~= old(self)@.feeds.insert(exchange, value));
    }

    fn record_data_event(&mut self, exchange: Exchange, now: i64)
        requires
            old(self).wf(),
        ensures
            final(self).wf(),
            final(self)@ == (DiagnosticsState {
                feeds: old(self)@.feeds.insert(
                    exchange,
                    feed_or_fresh(old(self)@.feeds, exchange).delivered(now),
                ),
                ..old(self)@
            }),
    {
        let mut feed = self.take_feed(exchange);
        feed.last_data_at = Some(now);
        let ghost value = feed@;
        self.put_feed(exchange, feed);
        assert(self@.feeds =~= old(self)@.feeds.insert(exchange, value));
    }

    /// Record that the task of an exchange has ended for good.
    pub fn record_stream_task_stopped(&mut self, exchange: Exchange, reason: &str)
        requires
            old(self).wf(),
        ensures
            final(self).wf(),
            final(self)@ == (DiagnosticsState {
                feeds: old(self)@.feeds.insert(
                    exchange,
                    feed_or_fresh(old(self)@.feeds, exchange).stopped(reason@),
                ),
                ..old(self)@
            }),
    {
        let mut feed = self.take_feed(exchange);
        feed.state = FeedState::Stopped;
        feed.last_error = Some(summarize_error(reason));
        let ghost value = feed@;
        self.put_feed(exchange, feed);
        assert(self@.feeds =~= old(self)@.feeds.insert(exchange, value));
    }

    /// Record that the task of an exchange is started anew.
    pub fn record_stream_task_restarting(&mut self, exchange: Exchange, reason: &str)
        requires
            old(self).wf(),
        ensures
            final(self).wf(),
            final(self)@ == (DiagnosticsState {
                feeds: old(self)@.feeds.insert(
                    exchange,
                    feed_or_fresh(old(self)@.feeds, exchange).restarting(reason@),
                ),
                ..old(self)@
            }),
    {
        let mut feed = self.take_feed(exchange);
        feed.state = FeedState::Reconnecting;
        feed.last_error = Some(summarize_error(reason));
        feed.stream_restart_count = feed.stream_restart_count.saturating_add(1);
        let ghost value = feed@;
        self.put_feed(exchange, feed);
        assert(self@.feeds =~= old(self)@.feeds.insert(exchange, value));
    }
}

/// Whether some stream comes from `exchange`.
fn comes_from(streams: &Vec<StreamKind>, exchange: Exchange) -> (found: bool)
    ensures
        found == exchanges_of(streams@).contains(exchange),
{
    let mut i: usize = 0;
    while i < streams.len()
        invariant
            i <= streams@.len(),
            forall|j: int| 0 <= j < i ==> (#[trigger] streams@[j])@.exchange() != exchange,
        decreases streams@.len() - i,
    {
        if streams[i].exchange() == exchange {
            return true;
        }
        i += 1;
    }
    false
}

/// The first `n` exchanges of the table among `exchanges`.
spec fn below(exchanges: Set<Exchange>, n: int) -> Set<Exchange> {
    Set::new(|exchange: Exchange| exchanges.contains(exchange) && exchange.spec_index() < n)
}

proof fn lemma_change_one_more(
    feeds: Map<Exchange, FeedView>,
    changed: Set<Exchange>,
    change: spec_fn(FeedView) -> FeedView,
    exchange: Exchange,
)
    ensures
        changed.contains(exchange) ==> feeds_changed(
            feeds,
            below(changed, exchange.spec_index()),
            change,
        ).insert(exchange, change(feed_or_fresh(feeds, exchange))) == feeds_changed(
            feeds,
            below(changed, exchange.spec_index() + 1),
            change,
        ),
        !changed.contains(exchange) ==> feeds_changed(
            feeds,
            below(changed, exchange.spec_index()),
            change,
        ) == feeds_changed(feeds, below(changed, exchange.spec_index() + 1), change),
        feed_or_fresh(
            feeds_changed(feeds, below(changed, exchange.spec_index()), change),
            exchange,
        ) == feed_or_fresh(feeds, exchange),
{
    lemma_index_injective();
    let n = exchange.spec_index();
    let before = below(changed, n);
    let after = below(changed, n + 1);
    assert(!before.contains(exchange));
    if changed.contains(exchange) {
        assert(after =~= before.insert(exchange));
        assert(feeds_changed(feeds, before, change).insert(
            exchange,
            change(feed_or_fresh(feeds, exchange)),
        ) =~= feeds_changed(feeds, after, change));
    } else {
        assert(after =~= before);
    }
}

impl Diagnostics {
    /// Take in an event of the market-data streams.
    pub fn record_stream_event(&mut self, event: &Event)
        requires
            old(self).wf(),
        ensures
            final(self).wf(),
            exists|now: i64|
                now >= old(self).started_at() && final(self)@ == (DiagnosticsState {
                    feeds: #[trigger] feeds_after_event(old(self)@.feeds, *event, now),
                    ..old(self)@
                }),
    {
        let now: i64 = self.now_ms();
        self.record_stream_event_at(event, now);
    }

    /// [`Diagnostics::record_stream_event`] at `now` in Unix milliseconds.
    pub fn record_stream_event_at(&mut self, event: &Event, now: i64)
        requires
            old(self).wf(),
        ensures
            final(self).wf(),
            final(self)@ == (DiagnosticsState {
                feeds: feeds_after_event(old(self)@.feeds, *event, now),
                ..old(self)@
            }),
    {
        match event {
            Event::Connected(streams) => {
                let ghost feeds = self@.feeds;
                let ghost changed = exchanges_of(streams@);
                let ghost change = |feed: FeedView| feed.connected(now);
                let mut i: usize = 0;
                assert(feeds =~= feeds_changed(feeds, below(changed, 0), change)) by {
                    lemma_index_injective();
                }
                while i < EXCHANGES
                    invariant
                        i <= EXCHANGES,
                        self.wf(),
                        changed == exchanges_of(streams@),
                        change == (|feed: FeedView| feed.connected(now)),
                        feeds == old(self)@.feeds,
                        self@ == (DiagnosticsState {
                            feeds: feeds_changed(feeds, below(changed, i as int), change),
                            ..old(self)@
                        }),
                    decreases EXCHANGES - i,
                {
                    let exchange = Exchange::from_index(i);
                    proof {
                        lemma_change_one_more(feeds, changed, change, exchange);
                    }
                    if comes_from(streams, exchange) {
                        self.record_connected(exchange, now);
                    }
                    i += 1;
                }
                assert(below(changed, i as int) =~= changed) by {
                    lemma_index_injective();
                }
            },
            Event::Disconnected(streams, reason) => {
                let ghost feeds = self@.feeds;
                let ghost changed = exchanges_of(streams@);
                let ghost change = |feed: FeedView| feed.disconnected(reason@);
                let mut i: usize = 0;
                assert(feeds =~= feeds_changed(feeds, below(changed, 0), change)) by {
                    lemma_index_injective();
                }
                while i < EXCHANGES
                    invariant
                        i <= EXCHANGES,
                        self.wf(),
                        changed == exchanges_of(streams@),
                        change == (|feed: FeedView| feed.disconnected(reason@)),
                        feeds == old(self)@.feeds,
                        self@ == (DiagnosticsState {
                            feeds: feeds_changed(feeds, below(changed, i as int), change),
                            ..old(self)@
                        }),
                    decreases EXCHANGES - i,
                {
                    let exchange = Exchange::from_index(i);
                    proof {
                        lemma_change_one_more(feeds, changed, change, exchange);
                    }
                    if comes_from(streams, exchange) {
                        self.record_disconnected(exchange, reason.as_str());
                    }
                    i += 1;
                }
                assert(below(changed, i as int) =~= changed) by {
                    lemma_index_injective();
                }
            },
            Event::DepthReceived(stream) => {
                self.record_data_event(stream.exchange(), now);
            },
            Event::TradesReceived(stream, _) => {
                self.record_data_event(stream.exchange(), now);
            },
            Event::KlineReceived(stream) => {
                self.record_data_event(stream.exchange(), now);
            },
        }
    }

    /// Record that an event did not fit the event channel of an exchange.
    pub fn record_event_channel_drop(&mut self, exchange: Exchange, event: &Event)
        requires
            old(self).wf(),
        ensures
            final(self).wf(),
            final(self)@ == (DiagnosticsState {
                pipeline: old(self)@.pipeline.event_dropped(exchange, trades_in(*event)),
                ..old(self)@
            }),
    {
        self.pipeline.set_saturated(exchange, true);
        let trades: u64 = event_trade_count(event);
        self.pipeline.event_channel_dropped_trades =
        self.pipeline.event_channel_dropped_trades.saturating_add(trades);
    }

    /// Record that the event channel of an exchange has room again.
    pub fn record_event_channel_recovered(&mut self, exchange: Exchange)
        requires
            old(self).wf(),
        ensures
            final(self).wf(),
            final(self)@ == (DiagnosticsState {
                pipeline: old(self)@.pipeline.event_recovered(exchange),
                ..old(self)@
            }),
    {
        self.pipeline.set_saturated(exchange, false);
    }

    /// Record that an event did not fit the persist channel.
    pub fn record_persist_channel_drop(&mut self, event: &Event)
        requires
            old(self).wf(),
        ensures
            final(self).wf(),
            final(self)@ == (DiagnosticsState {
                pipeline: old(self)@.pipeline.persist_dropped(trades_in(*event)),
                ..old(self)@
            }),
    {
        let trades: u64 = event_trade_count(event);
        self.pipeline.persist_channel_saturated = true;
        self.pipeline.persist_channel_dropped_trades =
        self.pipeline.persist_channel_dropped_trades.saturating_add(trades);
    }

    /// Record that the persist channel has room again.
    pub fn record_persist_channel_recovered(&mut self)
        requires
            old(self).wf(),
        ensures
            final(self).wf(),
            final(self)@ == (DiagnosticsState {
                pipeline: old(self)@.pipeline.persist_recovered(),
                ..old(self)@
            }),
    {
        self.pipeline.persist_channel_saturated = false;
    }

    /// Record that a trade did not fit the buffer.
    pub fn record_buffer_trade_drop(&mut self)
        requires
            old(self).wf(),
        ensures
            final(self).wf(),
            final(self)@ == (DiagnosticsState {
                pipeline: old(self)@.pipeline.buffer_dropped(),
                ..old(self)@
            }),
    {
        self.pipeline.data_buffer_saturated = true;
        self.pipeline.data_buffer_dropped_trades =
        self.pipeline.data_buffer_dropped_trades.saturating_add(1);
    }

    /// Record that the buffer has room again.
    pub fn record_buffer_recovered(&mut self)
        requires
            old(self).wf(),
        ensures
            final(self).wf(),
            final(self)@ == (DiagnosticsState {
                pipeline: old(self)@.pipeline.buffer_recovered(),
                ..old(self)@
            }),
    {
        self.pipeline.data_buffer_saturated = false;
    }

    /// Record that a batch has been written.
    pub fn record_flush_succeeded(&mut self, persisted: &Vec<Exchange>)
        requires
            old(self).wf(),
        ensures
            final(self).wf(),
            exists|now: i64|
                now >= old(self).started_at() && final(self)@ == #[trigger] flushed(
                    old(self)@,
                    persisted@,
                    false,
                    now,
                ),
    {
        let now: i64 = self.now_ms();
        self.record_flush_completed(persisted, false, now);
    }

    /// Record that a batch that failed before has been written.
    pub fn record_flush_retry_succeeded(&mut self, persisted: &Vec<Exchange>)
        requires
            old(self).wf(),
        ensures
            final(self).wf(),
            exists|now: i64|
                now >= old(self).started_at() && final(self)@ == #[trigger] flushed(
                    old(self)@,
                    persisted@,
                    true,
                    now,
                ),
    {
        let now: i64 = self.now_ms();
        self.record_flush_completed(persisted, true, now);
    }

    /// Record at `now`, in Unix milliseconds, that a batch has been written.
    pub fn record_flush_completed(
        &mut self,
        persisted: &Vec<Exchange>,
        retry_committed: bool,
        now: i64,
    )
        requires
            old(self).wf(),
        ensures
            final(self).wf(),
            final(self)@ == flushed(old(self)@, persisted@, retry_committed, now),
    {
        let ghost before = self@;
        self.pipeline.last_flush_at = Some(now);
        let retry_pending = self.pipeline.flush_retry_pending_trades > 0;
        if retry_committed || !retry_pending {
            self.pipeline.flush_retry_pending_trades = 0;
            if retry_committed || self.pipeline.flush_dropped_trades == 0 {
                self.pipeline.last_flush_error = None;
            }
            if self.pipeline.flush_dropped_trades == 0 {
                self.pipeline.persistence_healthy = true;
            }
        }
        let ghost pipeline = before.pipeline.flush_completed(retry_committed, now);
        assert(self.pipeline.value() == pipeline);
        let ghost change = |feed: FeedView| feed.persisted(now);
        let mut i: usize = 0;
        assert(before.feeds =~= feeds_changed(before.feeds, persisted@.take(0).to_set(), change));
        while i < persisted.len()
            invariant
                i <= persisted@.len(),
                self.wf(),
                change == (|feed: FeedView| feed.persisted(now)),
                self@ == (DiagnosticsState {
                    feeds: feeds_changed(
                        before.feeds,
                        persisted@.take(i as int).to_set(),
                        change,
                    ),
                    pipeline,
                    ..before
                }),
            decreases persisted@.len() - i,
        {
            let exchange = persisted[i];
            let ghost feeds = self@.feeds;
            let ghost done = persisted@.take(i as int);
            let ghost next = persisted@.take(i as int + 1);
            let mut feed = self.take_feed(exchange);
            feed.last_persist_at = Some(now);
            let ghost value = feed@;
            self.put_feed(exchange, feed);
            proof {
                assert(next =~= done.push(exchange));
                lemma_push_to_set(done, exchange);
                assert(self@.feeds =~= feeds.insert(exchange, value));
                assert(value == change(feed_or_fresh(before.feeds, exchange)));
                assert(self@.feeds =~= feeds_changed(before.feeds, next.to_set(), change));
            }
            i += 1;
        }
        assert(persisted@.take(i as int) =~= persisted@);
    }

    /// Record that a batch could not be written and waits for a retry.
    pub fn record_flush_failed(&mut self, error: &str, retry_pending_trades: usize)
        requires
            old(self).wf(),
        ensures
            final(self).wf(),
            final(self)@ == (DiagnosticsState {
                pipeline: old(self)@.pipeline.flush_failed(error@, retry_pending_trades as u64),
                ..old(self)@
            }),
    {
        self.pipeline.persistence_healthy = false;
        self.pipeline.last_flush_error = Some(summarize_error(error));
        self.pipeline.flush_failure_count = self.pipeline.flush_failure_count.saturating_add(1);
        self.pipeline.flush_retry_pending_trades = retry_pending_trades as u64;
    }

    /// Record that a batch has been given up.
    pub fn record_flush_dropped(&mut self, trades: usize)
        requires
            old(self).wf(),
        ensures
            final(self).wf(),
            final(self)@ == (DiagnosticsState {
                pipeline: old(self)@.pipeline.flush_dropped(trades as int),
                ..old(self)@
            }),
    {
        self.pipeline.persistence_healthy = false;
        self.pipeline.flush_retry_pending_trades = 0;
        self.pipeline.flush_dropped_trades = self.pipeline.flush_dropped_trades.saturating_add(
            trades as u64,
        );
    }

    /// Count an access event, and decide whether its details are logged.
    pub fn record_access(&mut self, event: AccessEvent) -> (decision: AccessLogDecision)
        requires
            old(self).wf(),
        ensures
            final(self).wf(),
            exists|now: u64| #[trigger] access_taken(old(self)@, event, now, decision, final(self)@),
    {
        let now: u64 = self.clock.now();
        self.record_access_at(event, now)
    }

    /// [`Diagnostics::record_access`] at `now` nanoseconds after startup.
    pub fn record_access_at(&mut self, event: AccessEvent, now: u64) -> (decision:
        AccessLogDecision)
        requires
            old(self).wf(),
        ensures
            final(self).wf(),
            access_taken(old(self)@, event, now, decision, final(self)@),
    {
        let elapsed: u64 = now.saturating_sub(self.window_started);
        if elapsed >= ACCESS_DETAIL_WINDOW {
            self.window_started = now;
            self.emitted = AccessDiagnostics::default();
        }
        self.access.increment(event);
        if self.emitted.get(event) < ACCESS_DETAIL_LIMIT {
            self.emitted.increment(event);
            AccessLogDecision::Emit
        } else {
            AccessLogDecision::Suppress
        }
    }

    /// The access counters.
    pub fn access_counts(&self) -> (counts: AccessDiagnostics)
        ensures
            counts == self@.access,
    {
        self.access
    }
}

proof fn lemma_push_to_set(s: Seq<Exchange>, exchange: Exchange)
    ensures
        s.push(exchange).to_set() == s.to_set().insert(exchange),
{
    let pushed = s.push(exchange);
    assert forall|e: Exchange| pushed.to_set().contains(e) <==> s.to_set().insert(
        exchange,
    ).contains(e) by {
        if s.contains(e) {
            let i = choose|i: int| 0 <= i < s.len() && s[i] == e;
            assert(pushed[i] == e);
        }
        if e == exchange {
            assert(pushed[s.len() as int] == e);
        }
    }
    assert(pushed.to_set() =~= s.to_set().insert(exchange));
}

/// The state once a batch with trades of `persisted` has been written.
pub open spec fn flushed(
    state: DiagnosticsState,
    persisted: Seq<Exchange>,
    retry: bool,
    now: i64,
) -> DiagnosticsState {
    DiagnosticsState {
        feeds: feeds_changed(
            state.feeds,
            persisted.to_set(),
            |feed: FeedView| feed.persisted(now),
        ),
        pipeline: state.pipeline.flush_completed(retry, now),
        ..state
    }
}

/// What an access event at `now` does, and whether its details are logged. It is
/// counted either way.
pub open spec fn access_taken(
    before: DiagnosticsState,
    event: AccessEvent,
    now: u64,
    decision: AccessLogDecision,
    after: DiagnosticsState,
) -> bool {
    let sample = sampled(before, event, now);
    &&& decision == sample.2
    &&& after == (DiagnosticsState {
        access: before.access.with(event, bumped(before.access.count(event))),
        window_started: sample.0,
        emitted: sample.1,
        ..before
    })
}

/// The feeds of the first `n` exchanges of the table, each with its name.
pub open spec fn reported(feeds: Map<Exchange, FeedView>, n: int) -> Seq<FeedDiagnosticsView>
    decreases n,
{
    if n <= 0 {
        Seq::empty()
    } else {
        let earlier = reported(feeds, n - 1);
        let exchange = Exchange::spec_from_index(n - 1);
        if feeds.dom().contains(exchange) {
            earlier.push(
                FeedDiagnosticsView { exchange: exchange.spec_name(), feed: feeds[exchange] },
            )
        } else {
            earlier
        }
    }
}

/// The names of reported feeds.
pub open spec fn feed_names(feeds: Seq<FeedDiagnosticsView>) -> Seq<Seq<char>> {
    Seq::new(feeds.len(), |i: int| feeds[i].exchange)
}

/// Put a feed in its place by name.
fn insert_by_name(feeds: &mut Vec<FeedDiagnostics>, feed: FeedDiagnostics)
    requires
        crate::text::ascending(feed_names(crate::text::views(old(feeds)@))),
    ensures
        crate::text::ascending(feed_names(crate::text::views(final(feeds)@))),
        crate::text::views(final(feeds)@).to_multiset() == crate::text::views(
            old(feeds)@,
        ).to_multiset().insert(feed@),
{
    let ghost before = crate::text::views(feeds@);
    let ghost names = feed_names(before);
    let ghost value = feed@;
    let ghost name = value.exchange;
    let mut at: usize = feeds.len();
    while at > 0 && text_before(feed.exchange.as_str(), feeds[at - 1].exchange.as_str())
        invariant
            at <= feeds@.len(),
            feed@ == value,
            name == value.exchange,
            before == crate::text::views(feeds@),
            names == feed_names(before),
            forall|j: int| at <= j < feeds@.len() ==> crate::text::text_less(name, #[trigger] names[j]),
        ensures
            at <= feeds@.len(),
            feed@ == value,
            name == value.exchange,
            before == crate::text::views(feeds@),
            names == feed_names(before),
            forall|j: int| at <= j < feeds@.len() ==> crate::text::text_less(name, #[trigger] names[j]),
            at > 0 ==> !crate::text::text_less(name, names[at - 1]),
        decreases at,
    {
        assert(names[at - 1] == feeds@[at - 1].exchange@);
        at -= 1;
    }
    feeds.insert(at, feed);
    proof {
        let after = crate::text::views(feeds@);
        let sorted = feed_names(after);
        assert(after =~= before.insert(at as int, value));
        vstd::seq_lib::to_multiset_insert(before, at as int, value);
        assert(sorted =~= names.insert(at as int, name));
        crate::text::lemma_insert_ascending(names, at as int, name);
    }
}

impl Diagnostics {
    /// Whether some known feed is in a state of trouble, and whether some is
    /// still starting.
    fn feed_states(&self) -> (found: (bool, bool))
        requires
            self.wf(),
        ensures
            found.0 == exists|exchange: Exchange| #[trigger]
                self@.feeds.dom().contains(exchange) && (self@.feeds[exchange].state
                    == FeedState::Reconnecting || self@.feeds[exchange].state
                    == FeedState::Stopped),
            found.1 == exists|exchange: Exchange| #[trigger]
                self@.feeds.dom().contains(exchange) && self@.feeds[exchange].state
                    == FeedState::Starting,
    {
        let mut troubled = false;
        let mut starting = false;
        let mut i: usize = 0;
        while i < EXCHANGES
            invariant
                i <= EXCHANGES,
                self.wf(),
                troubled == exists|exchange: Exchange|
                    exchange.spec_index() < i && #[trigger] self@.feeds.dom().contains(exchange)
                        && (self@.feeds[exchange].state == FeedState::Reconnecting
                        || self@.feeds[exchange].state == FeedState::Stopped),
                starting == exists|exchange: Exchange|
                    exchange.spec_index() < i && #[trigger] self@.feeds.dom().contains(exchange)
                        && self@.feeds[exchange].state == FeedState::Starting,
            decreases EXCHANGES - i,
        {
            let ghost this = Exchange::spec_from_index(i as int);
            proof {
                lemma_index_injective();
                assert(this.spec_index() == i);
            }
            if let Some(feed) = &self.feeds[i] {
                assert(self@.feeds.dom().contains(this));
                assert(self@.feeds[this].state == feed.state);
                if feed.state == FeedState::Reconnecting || feed.state == FeedState::Stopped {
                    troubled = true;
                }
                if feed.state == FeedState::Starting {
                    starting = true;
                }
            }
            i += 1;
        }
        proof {
            lemma_index_injective();
        }
        (troubled, starting)
    }

    /// Overall health.
    fn overall_status(&self, database_ok: bool) -> (status: DiagnosticsStatus)
        requires
            self.wf(),
        ensures
            status == overall(database_ok, self@),
    {
        let (troubled, starting) = self.feed_states();
        if !database_ok || !self.pipeline.persistence_healthy
            || self.pipeline.flush_retry_pending_trades > 0
            || self.pipeline.flush_dropped_trades > 0 || self.pipeline.any_saturated()
            || self.pipeline.persist_channel_saturated || self.pipeline.data_buffer_saturated
            || troubled {
            return DiagnosticsStatus::Degraded;
        }
        if starting {
            DiagnosticsStatus::Starting
        } else {
            DiagnosticsStatus::Healthy
        }
    }

    /// The feeds in ascending order of their names.
    fn sorted_feeds(&self) -> (feeds: Vec<FeedDiagnostics>)
        requires
            self.wf(),
        ensures
            crate::text::ascending(feed_names(crate::text::views(feeds@))),
            crate::text::views(feeds@).to_multiset() == reported(
                self@.feeds,
                EXCHANGES as int,
            ).to_multiset(),
    {
        let mut feeds: Vec<FeedDiagnostics> = Vec::new();
        let mut i: usize = 0;
        assert(crate::text::views(feeds@) =~= reported(self@.feeds, 0));
        while i < EXCHANGES
            invariant
                i <= EXCHANGES,
                self.wf(),
                crate::text::ascending(feed_names(crate::text::views(feeds@))),
                crate::text::views(feeds@).to_multiset() == reported(
                    self@.feeds,
                    i as int,
                ).to_multiset(),
            decreases EXCHANGES - i,
        {
            let exchange = Exchange::from_index(i);
            proof {
                lemma_index_injective();
                assert(Exchange::spec_from_index(i as int).spec_index() == i);
                assert(exchange == Exchange::spec_from_index(i as int));
            }
            if let Some(feed) = &self.feeds[i] {
                assert(self@.feeds.dom().contains(exchange));
                let item = feed.snapshot(exchange);
                proof {
                    vstd::seq_lib::to_multiset_build(reported(self@.feeds, i as int), item@);
                }
                insert_by_name(&mut feeds, item);
            }
            i += 1;
        }
        feeds
    }

    /// Whole seconds since startup.
    pub fn uptime_secs(&self) -> (secs: u64)
        ensures
            exists|elapsed: u64| secs == #[trigger] crate::clock::in_seconds(elapsed),
    {
        let elapsed: u64 = self.uptime();
        assert(elapsed / NANOS_PER_SEC == crate::clock::in_seconds(elapsed));
        whole_seconds(elapsed)
    }

    /// A point-in-time view of everything, feeds in ascending order of their
    /// names.
    pub fn snapshot(&self, database_ok: bool) -> (snapshot: DiagnosticsSnapshot)
        requires
            self.wf(),
        ensures
            exists|elapsed: u64|
                snapshot.uptime_secs == #[trigger] crate::clock::in_seconds(elapsed),
            snapshot.status == overall(database_ok, self@),
            snapshot.database.ok == database_ok,
            crate::text::ascending(feed_names(crate::text::views(snapshot.feeds@))),
            crate::text::views(snapshot.feeds@).to_multiset() == reported(
                self@.feeds,
                EXCHANGES as int,
            ).to_multiset(),
            pipeline_report(self@.pipeline, snapshot.pipeline),
            snapshot.access == self@.access,
    {
        let elapsed: u64 = self.uptime();
        assert(elapsed / NANOS_PER_SEC == crate::clock::in_seconds(elapsed));
        self.snapshot_at(database_ok, elapsed)
    }

    /// [`Diagnostics::snapshot`] at `elapsed` nanoseconds after startup.
    pub fn snapshot_at(&self, database_ok: bool, elapsed: u64) -> (snapshot: DiagnosticsSnapshot)
        requires
            self.wf(),
        ensures
            snapshot.uptime_secs == elapsed / NANOS_PER_SEC,
            snapshot.status == overall(database_ok, self@),
            snapshot.database.ok == database_ok,
            crate::text::ascending(feed_names(crate::text::views(snapshot.feeds@))),
            crate::text::views(snapshot.feeds@).to_multiset() == reported(
                self@.feeds,
                EXCHANGES as int,
            ).to_multiset(),
            pipeline_report(self@.pipeline, snapshot.pipeline),
            snapshot.access == self@.access,
    {
        DiagnosticsSnapshot {
            status: self.overall_status(database_ok),
            uptime_secs: whole_seconds(elapsed),
            database: DatabaseDiagnostics { ok: database_ok },
            feeds: self.sorted_feeds(),
            pipeline: self.pipeline.snapshot(),
            access: self.access,
        }
    }
}

/// What can happen to the pipeline.
pub enum PipelineEvent {
    FlushCompleted { retry: bool, now: i64 },
    FlushFailed { error: Seq<char>, pending: u64 },
    FlushDropped { trades: nat },
    EventDropped { exchange: Exchange, trades: nat },
    EventRecovered { exchange: Exchange },
    PersistDropped { trades: nat },
    PersistRecovered,
    BufferDropped,
    BufferRecovered,
}

/// The pipeline once something has happened to it.
pub open spec fn pipeline_step(pipeline: PipelineView, event: PipelineEvent) -> PipelineView {
    match event {
        PipelineEvent::FlushCompleted { retry, now } => pipeline.flush_completed(retry, now),
        PipelineEvent::FlushFailed { error, pending } => pipeline.flush_failed(error, pending),
        PipelineEvent::FlushDropped { trades } => pipeline.flush_dropped(trades as int),
        PipelineEvent::EventDropped { exchange, trades } => pipeline.event_dropped(
            exchange,
            trades as int,
        ),
        PipelineEvent::EventRecovered { exchange } => pipeline.event_recovered(exchange),
        PipelineEvent::PersistDropped { trades } => pipeline.persist_dropped(trades as int),
        PipelineEvent::PersistRecovered => pipeline.persist_recovered(),
        PipelineEvent::BufferDropped => pipeline.buffer_dropped(),
        PipelineEvent::BufferRecovered => pipeline.buffer_recovered(),
    }
}

/// The pipeline once a series of things has happened to it.
pub open spec fn pipeline_run(pipeline: PipelineView, events: Seq<PipelineEvent>) -> PipelineView
    decreases events.len(),
{
    if events.len() == 0 {
        pipeline
    } else {
        pipeline_step(pipeline_run(pipeline, events.drop_last()), events.last())
    }
}

/// A pipeline whose dropped batches have made persistence unhealthy.
pub open spec fn pipeline_wf(pipeline: PipelineView) -> bool {
    pipeline.flush_dropped_trades > 0 ==> !pipeline.persistence_healthy
}

/// A permanently dropped batch keeps persistence unhealthy and the overall
/// status degraded for the lifetime of the process, whatever happens later.
pub proof fn law_dropped_batch_degrades_for_good(
    pipeline: PipelineView,
    events: Seq<PipelineEvent>,
    state: DiagnosticsState,
    database_ok: bool,
)
    requires
        pipeline_wf(pipeline),
        pipeline.flush_dropped_trades > 0,
        state.pipeline == pipeline_run(pipeline, events),
    ensures
        pipeline_run(pipeline, events).flush_dropped_trades >= pipeline.flush_dropped_trades,
        !pipeline_run(pipeline, events).persistence_healthy,
        overall(database_ok, state) == DiagnosticsStatus::Degraded,
    decreases events.len(),
{
    if events.len() > 0 {
        let earlier = DiagnosticsState {
            pipeline: pipeline_run(pipeline, events.drop_last()),
            ..state
        };
        law_dropped_batch_degrades_for_good(pipeline, events.drop_last(), earlier, database_ok);
    }
}

/// Dropped batches and unhealthy persistence go together from the start on.
pub proof fn law_pipeline_stays_well_formed(events: Seq<PipelineEvent>)
    ensures
        pipeline_wf(PipelineView::fresh()),
        pipeline_wf(pipeline_run(PipelineView::fresh(), events)),
    decreases events.len(),
{
    if events.len() > 0 {
        law_pipeline_stays_well_formed(events.drop_last());
    }
}

/// After a failed batch is successfully retried the error is cleared, nothing is
/// pending, and persistence is healthy again unless a batch was dropped.
pub proof fn law_retry_clears_the_error(
    pipeline: PipelineView,
    error: Seq<char>,
    pending: u64,
    now: i64,
)
    ensures
        ({
            let after = pipeline.flush_failed(error, pending).flush_completed(true, now);
            &&& after.last_flush_error is None
            &&& after.flush_retry_pending_trades == 0
            &&& after.persistence_healthy == (pipeline.flush_dropped_trades == 0)
        }),
{
}

/// While a batch waits for its retry, other batches that are written leave the
/// error standing and the status degraded.
pub proof fn law_pending_retry_stays_visible(
    pipeline: PipelineView,
    error: Seq<char>,
    pending: u64,
    now: i64,
)
    requires
        pending > 0,
    ensures
        ({
            let after = pipeline.flush_failed(error, pending).flush_completed(false, now);
            &&& after.last_flush_error == Some(summary(error))
            &&& after.flush_retry_pending_trades == pending
            &&& !after.persistence_healthy
            &&& after.troubled()
        }),
{
}

/// A channel or buffer that had to drop trades counts them and keeps the status degraded
/// until it has room again; then a pipeline without other trouble is in none.
pub proof fn law_saturation_degrades_until_recovery(
    state: DiagnosticsState,
    exchange: Exchange,
    trades: int,
    database_ok: bool,
)
    requires
        trades >= 0,
    ensures
        ({
            let pipeline = state.pipeline;
            let event = pipeline.event_dropped(exchange, trades);
            let persist = pipeline.persist_dropped(trades);
            let buffer = pipeline.buffer_dropped();
            &&& overall(database_ok, DiagnosticsState { pipeline: event, ..state })
                == DiagnosticsStatus::Degraded
            &&& overall(database_ok, DiagnosticsState { pipeline: persist, ..state })
                == DiagnosticsStatus::Degraded
            &&& overall(database_ok, DiagnosticsState { pipeline: buffer, ..state })
                == DiagnosticsStatus::Degraded
            &&& event.event_channel_dropped_trades == raised(
                pipeline.event_channel_dropped_trades,
                trades,
            )
            &&& !pipeline.troubled() ==> !event.event_recovered(exchange).troubled()
                && !persist.persist_recovered().troubled()
                && !buffer.buffer_recovered().troubled()
        }),
{
    let event = state.pipeline.event_dropped(exchange, trades);
    assert(event.saturated_feeds.contains(exchange));
    if !state.pipeline.troubled() {
        let back = event.event_recovered(exchange);
        assert forall|other: Exchange| !(#[trigger] back.saturated_feeds.contains(other)) by {
            assert(!state.pipeline.saturated_feeds.contains(other));
        }
        let persist = state.pipeline.persist_dropped(trades).persist_recovered();
        let buffer = state.pipeline.buffer_dropped().buffer_recovered();
        assert forall|other: Exchange| !(#[trigger] persist.saturated_feeds.contains(other)) by {
            assert(!state.pipeline.saturated_feeds.contains(other));
        }
        assert forall|other: Exchange| !(#[trigger] buffer.saturated_feeds.contains(other)) by {
            assert(!state.pipeline.saturated_feeds.contains(other));
        }
    }
}

/// A feed that is connected loses its connection, fails to get it back, and gets
/// it back: each step is counted once, and the error is gone in the end.
pub proof fn law_reconnection_is_counted(
    feed: FeedView,
    lost: Seq<char>,
    failed: Seq<char>,
    now: i64,
)
    requires
        feed.state == FeedState::Connected,
        feed.disconnect_count < u64::MAX,
        feed.failed_connect_attempts < u64::MAX,
        feed.reconnect_count < u64::MAX,
    ensures
        ({
            let back = feed.disconnected(lost).disconnected(failed).connected(now);
            &&& back.state == FeedState::Connected
            &&& back.last_error is None
            &&& back.disconnect_count == feed.disconnect_count + 1
            &&& back.failed_connect_attempts == feed.failed_connect_attempts + 1
            &&& back.reconnect_count == feed.reconnect_count + 1
            &&& back.connected_at == Some(now)
        }),
{
}

/// One access event and what came of it.
pub struct AccessRecord {
    pub event: AccessEvent,
    pub now: u64,
    pub decision: AccessLogDecision,
}

/// A history of access events: `records[i]` takes `states[i]` to
/// `states[i + 1]`.
pub open spec fn access_history(
    states: Seq<DiagnosticsState>,
    records: Seq<AccessRecord>,
) -> bool {
    &&& states.len() == records.len() + 1
    &&& forall|i: int|
        0 <= i < records.len() ==> access_taken(
            states[i],
            (#[trigger] records[i]).event,
            records[i].now,
            records[i].decision,
            states[i + 1],
        )
}

/// Logged events of one kind among the first `n`.
pub open spec fn logged(records: Seq<AccessRecord>, kind: AccessEvent, n: nat) -> nat
    decreases n,
{
    if n == 0 {
        0
    } else {
        let earlier = logged(records, kind, (n - 1) as nat);
        if records[n - 1].event == kind && records[n - 1].decision == AccessLogDecision::Emit {
            earlier + 1
        } else {
            earlier
        }
    }
}

proof fn lemma_logged_in_window(
    states: Seq<DiagnosticsState>,
    records: Seq<AccessRecord>,
    kind: AccessEvent,
    n: nat,
)
    requires
        access_history(states, records),
        n <= records.len(),
        states[0].emitted.count(kind) <= ACCESS_DETAIL_LIMIT,
        forall|i: int|
            0 <= i <= n ==> (#[trigger] states[i]).window_started == states[0].window_started,
        forall|i: int|
            0 <= i < n ==> crate::limiter::elapsed_since(
                states[0].window_started,
                (#[trigger] records[i]).now,
            ) < ACCESS_DETAIL_WINDOW,
    ensures
        states[n as int].emitted.count(kind) == states[0].emitted.count(kind) + logged(
            records,
            kind,
            n,
        ),
        states[n as int].emitted.count(kind) <= ACCESS_DETAIL_LIMIT,
    decreases n,
{
    if n > 0 {
        let m = (n - 1) as nat;
        lemma_logged_in_window(states, records, kind, m);
        let record = records[m as int];
        assert(access_taken(
            states[m as int],
            record.event,
            record.now,
            record.decision,
            states[m as int + 1],
        ));
        assert(states[m as int].window_started == states[0].window_started);
    }
}

/// Access details are sampled: within one window at most five events of a kind
/// are logged, however many there are.
pub proof fn law_access_details_are_sampled(
    states: Seq<DiagnosticsState>,
    records: Seq<AccessRecord>,
    kind: AccessEvent,
)
    requires
        access_history(states, records),
        states[0].emitted.count(kind) <= ACCESS_DETAIL_LIMIT,
        forall|i: int|
            0 <= i <= records.len() ==> (#[trigger] states[i]).window_started
                == states[0].window_started,
        forall|i: int|
            0 <= i < records.len() ==> crate::limiter::elapsed_since(
                states[0].window_started,
                (#[trigger] records[i]).now,
            ) < ACCESS_DETAIL_WINDOW,
    ensures
        logged(records, kind, records.len()) <= ACCESS_DETAIL_LIMIT,
{
    lemma_logged_in_window(states, records, kind, records.len());
}

/// Every access event is counted, whether its details are logged or not, and no
/// other counter moves.
pub proof fn law_every_access_event_is_counted(
    before: DiagnosticsState,
    event: AccessEvent,
    now: u64,
    decision: AccessLogDecision,
    after: DiagnosticsState,
    kind: AccessEvent,
)
    requires
        access_taken(before, event, now, decision, after),
        before.access.count(event) < u64::MAX,
    ensures
        after.access.count(kind) == before.access.count(kind) + if kind == event {
            1int
        } else {
            0int
        },
{
}

/// Counters start at zero, are zero if and only if each of them is, and their difference is
/// taken counter by counter.
pub proof fn law_counters_are_kept_apart(
    fresh: AccessDiagnostics,
    counts: AccessDiagnostics,
    zero: bool,
    previous: AccessDiagnostics,
    delta: AccessDiagnostics,
)
    requires
        call_ensures(AccessDiagnostics::default, (), fresh),
        call_ensures(AccessDiagnostics::is_zero, (counts,), zero),
        call_ensures(AccessDiagnostics::delta_since, (counts, previous), delta),
    ensures
        fresh.auth_failures == 0 && fresh.admission_blocked == 0 && fresh.rate_limited == 0
            && fresh.connection_rejected == 0 && fresh.accept_timeouts == 0,
        zero <==> counts.auth_failures == 0 && counts.admission_blocked == 0 && counts.rate_limited
            == 0 && counts.connection_rejected == 0 && counts.accept_timeouts == 0,
        counts.auth_failures >= previous.auth_failures ==> previous.auth_failures
            + delta.auth_failures == counts.auth_failures,
        counts.admission_blocked >= previous.admission_blocked ==> previous.admission_blocked
            + delta.admission_blocked == counts.admission_blocked,
        counts.rate_limited >= previous.rate_limited ==> previous.rate_limited + delta.rate_limited
            == counts.rate_limited,
        counts.connection_rejected >= previous.connection_rejected ==> previous.connection_rejected
            + delta.connection_rejected == counts.connection_rejected,
        counts.accept_timeouts >= previous.accept_timeouts ==> previous.accept_timeouts
            + delta.accept_timeouts == counts.accept_timeouts,
        counts.auth_failures < previous.auth_failures ==> delta.auth_failures == 0,
        counts.admission_blocked < previous.admission_blocked ==> delta.admission_blocked == 0,
        counts.rate_limited < previous.rate_limited ==> delta.rate_limited == 0,
        counts.connection_rejected < previous.connection_rejected ==> delta.connection_rejected
            == 0,
        counts.accept_timeouts < previous.accept_timeouts ==> delta.accept_timeouts == 0,
{
    let a = AccessEvent::AuthFailure;
    let b = AccessEvent::AdmissionBlocked;
    let c = AccessEvent::RateLimited;
    let d = AccessEvent::ConnectionRejected;
    let e = AccessEvent::AcceptTimeout;
    assert(delta.count(a) == delta.auth_failures);
    assert(delta.count(b) == delta.admission_blocked);
    assert(delta.count(c) == delta.rate_limited);
    assert(delta.count(d) == delta.connection_rejected);
    assert(delta.count(e) == delta.accept_timeouts);
}

/// Of an error its first 512 characters are kept.
pub proof fn law_errors_are_cut_at_512_characters(error: &str, kept: String)
    requires
        call_ensures(summarize_error, (error,), kept),
    ensures
        error@.len() <= 512 ==> kept@ == error@,
        error@.len() > 512 ==> kept@ == error@.take(512),
{
}

/// At the start nothing has happened: no feed, no trouble, no count.
pub proof fn law_diagnostics_start_clean(diagnostics: Diagnostics, counts: AccessDiagnostics)
    requires
        call_ensures(Diagnostics::new, (), diagnostics),
        call_ensures(Diagnostics::access_counts, (&diagnostics,), counts),
    ensures
        diagnostics@.feeds.dom() == Set::<Exchange>::empty(),
        diagnostics@.pipeline.persistence_healthy,
        diagnostics@.pipeline.last_flush_at is None,
        diagnostics@.pipeline.last_flush_error is None,
        diagnostics@.pipeline.flush_failure_count == 0,
        diagnostics@.pipeline.flush_retry_pending_trades == 0,
        diagnostics@.pipeline.flush_dropped_trades == 0,
        diagnostics@.pipeline.saturated_feeds == Set::<Exchange>::empty(),
        diagnostics@.pipeline.event_channel_dropped_trades == 0,
        !diagnostics@.pipeline.persist_channel_saturated,
        diagnostics@.pipeline.persist_channel_dropped_trades == 0,
        !diagnostics@.pipeline.data_buffer_saturated,
        diagnostics@.pipeline.data_buffer_dropped_trades == 0,
        counts.auth_failures == 0 && counts.admission_blocked == 0 && counts.rate_limited == 0
            && counts.connection_rejected == 0 && counts.accept_timeouts == 0,
{
    assert(diagnostics@.feeds.dom() =~= Set::<Exchange>::empty());
}

/// A registered exchange has a feed, which is starting unless it was known; nothing else
/// changes.
pub proof fn law_registered_exchanges_are_starting(
    diagnostics: &mut Diagnostics,
    exchange: Exchange,
    other: Exchange,
)
    requires
        old(diagnostics).wf(),
        call_ensures(Diagnostics::register_exchange, (diagnostics, exchange), ()),
        other != exchange,
    ensures
        final(diagnostics)@.feeds.dom().contains(exchange),
        old(diagnostics)@.feeds.dom().contains(exchange) ==> final(diagnostics)@.feeds[exchange]
            == old(diagnostics)@.feeds[exchange],
        !old(diagnostics)@.feeds.dom().contains(exchange) ==> ({
            let feed = final(diagnostics)@.feeds[exchange];
            &&& feed.state is Starting
            &&& feed.connected_at is None
            &&& feed.last_data_at is None
            &&& feed.last_error is None
            &&& feed.last_persist_at is None
            &&& feed.disconnect_count == 0
            &&& feed.failed_connect_attempts == 0
            &&& feed.reconnect_count == 0
            &&& feed.stream_restart_count == 0
        }),
        final(diagnostics)@.feeds.dom().contains(other)
            <==> old(diagnostics)@.feeds.dom().contains(other),
        old(diagnostics)@.feeds.dom().contains(other) ==> final(diagnostics)@.feeds[other]
            == old(diagnostics)@.feeds[other],
        final(diagnostics)@.pipeline == old(diagnostics)@.pipeline,
        final(diagnostics)@.access == old(diagnostics)@.access,
{
}

/// A connection is noted with its time and clears the error; it counts as a reconnection if
/// and only if the feed was reconnecting. Feeds of other exchanges are not touched.
pub proof fn law_connections_are_noted(
    diagnostics: &mut Diagnostics,
    streams: Vec<StreamKind>,
    now: i64,
    i: int,
    other: Exchange,
)
    requires
        old(diagnostics).wf(),
        call_ensures(
            Diagnostics::record_stream_event_at,
            (diagnostics, &Event::Connected(streams), now),
            (),
        ),
        0 <= i < streams@.len(),
        forall|j: int| 0 <= j < streams@.len() ==> (#[trigger] streams@[j])@.exchange() != other,
    ensures
        ({
            let exchange = streams@[i]@.exchange();
            let before = old(diagnostics)@.feeds;
            let after = final(diagnostics)@.feeds;
            &&& after.dom().contains(exchange)
            &&& after[exchange].state is Connected
            &&& after[exchange].connected_at == Some(now)
            &&& after[exchange].last_error is None
            &&& !before.dom().contains(exchange) ==> after[exchange].reconnect_count == 0
            &&& before.dom().contains(exchange) ==> {
                &&& after[exchange].reconnect_count == (if before[exchange].state is Reconnecting
                    && before[exchange].reconnect_count < u64::MAX {
                    before[exchange].reconnect_count + 1
                } else {
                    before[exchange].reconnect_count as int
                })
                &&& after[exchange].last_data_at == before[exchange].last_data_at
                &&& after[exchange].last_persist_at == before[exchange].last_persist_at
                &&& after[exchange].disconnect_count == before[exchange].disconnect_count
                &&& after[exchange].failed_connect_attempts
                    == before[exchange].failed_connect_attempts
                &&& after[exchange].stream_restart_count == before[exchange].stream_restart_count
            }
            &&& after.dom().contains(other) <==> before.dom().contains(other)
            &&& before.dom().contains(other) ==> after[other] == before[other]
        }),
        final(diagnostics)@.pipeline == old(diagnostics)@.pipeline,
        final(diagnostics)@.access == old(diagnostics)@.access,
{
    let exchange = streams@[i]@.exchange();
    assert(exchanges_of(streams@).contains(exchange));
    assert(!exchanges_of(streams@).contains(other));
}

/// A lost connection leaves its feed reconnecting, with the reason. It counts as a
/// disconnection if the feed was connected and else as an attempt that failed. Feeds of
/// other exchanges are not touched.
pub proof fn law_disconnections_are_noted(
    diagnostics: &mut Diagnostics,
    streams: Vec<StreamKind>,
    reason: String,
    now: i64,
    i: int,
    other: Exchange,
)
    requires
        old(diagnostics).wf(),
        call_ensures(
            Diagnostics::record_stream_event_at,
            (diagnostics, &Event::Disconnected(streams, reason), now),
            (),
        ),
        0 <= i < streams@.len(),
        forall|j: int| 0 <= j < streams@.len() ==> (#[trigger] streams@[j])@.exchange() != other,
        reason@.len() <= 512,
    ensures
        ({
            let exchange = streams@[i]@.exchange();
            let before = old(diagnostics)@.feeds;
            let after = final(diagnostics)@.feeds;
            &&& after.dom().contains(exchange)
            &&& after[exchange].state is Reconnecting
            &&& after[exchange].last_error == Some(reason@)
            &&& before.dom().contains(exchange) ==> {
                &&& after[exchange].connected_at == before[exchange].connected_at
                &&& after[exchange].last_data_at == before[exchange].last_data_at
                &&& after[exchange].last_persist_at == before[exchange].last_persist_at
                &&& after[exchange].reconnect_count == before[exchange].reconnect_count
                &&& after[exchange].stream_restart_count == before[exchange].stream_restart_count
            }
            &&& before.dom().contains(exchange) && before[exchange].state is Connected
                && before[exchange].disconnect_count < u64::MAX
                ==> after[exchange].disconnect_count == before[exchange].disconnect_count + 1
                && after[exchange].failed_connect_attempts
                == before[exchange].failed_connect_attempts
            &&& before.dom().contains(exchange) && !(before[exchange].state is Connected)
                && before[exchange].failed_connect_attempts < u64::MAX
                ==> after[exchange].failed_connect_attempts
                == before[exchange].failed_connect_attempts + 1 && after[exchange].disconnect_count
                == before[exchange].disconnect_count
            &&& !before.dom().contains(exchange) ==> after[exchange].failed_connect_attempts == 1
                && after[exchange].disconnect_count == 0
            &&& after.dom().contains(other) <==> before.dom().contains(other)
            &&& before.dom().contains(other) ==> after[other] == before[other]
        }),
        final(diagnostics)@.pipeline == old(diagnostics)@.pipeline,
        final(diagnostics)@.access == old(diagnostics)@.access,
{
    let exchange = streams@[i]@.exchange();
    assert(exchanges_of(streams@).contains(exchange));
    assert(!exchanges_of(streams@).contains(other));
}

/// Data of any kind notes its time with the feed of its exchange and nothing else.
pub proof fn law_data_is_noted(
    diagnostics: &mut Diagnostics,
    event: Event,
    stream: StreamKind,
    now: i64,
    other: Exchange,
)
    requires
        old(diagnostics).wf(),
        call_ensures(Diagnostics::record_stream_event_at, (diagnostics, &event, now), ()),
        match event {
            Event::DepthReceived(s) => s == stream,
            Event::TradesReceived(s, _) => s == stream,
            Event::KlineReceived(s) => s == stream,
            _ => false,
        },
        other != stream@.exchange(),
    ensures
        ({
            let exchange = stream@.exchange();
            let before = old(diagnostics)@.feeds;
            let after = final(diagnostics)@.feeds;
            &&& after.dom().contains(exchange)
            &&& after[exchange].last_data_at == Some(now)
            &&& !before.dom().contains(exchange) ==> after[exchange].state is Starting
            &&& before.dom().contains(exchange) ==> {
                &&& after[exchange].state == before[exchange].state
                &&& after[exchange].connected_at == before[exchange].connected_at
                &&& after[exchange].last_error == before[exchange].last_error
                &&& after[exchange].last_persist_at == before[exchange].last_persist_at
                &&& after[exchange].disconnect_count == before[exchange].disconnect_count
                &&& after[exchange].failed_connect_attempts
                    == before[exchange].failed_connect_attempts
                &&& after[exchange].reconnect_count == before[exchange].reconnect_count
                &&& after[exchange].stream_restart_count == before[exchange].stream_restart_count
            }
            &&& after.dom().contains(other) <==> before.dom().contains(other)
            &&& before.dom().contains(other) ==> after[other] == before[other]
        }),
        final(diagnostics)@.pipeline == old(diagnostics)@.pipeline,
        final(diagnostics)@.access == old(diagnostics)@.access,
{
}

/// A stream task that stopped leaves its feed stopped, with the reason.
pub proof fn law_stopped_streams_are_noted(
    diagnostics: &mut Diagnostics,
    exchange: Exchange,
    reason: &str,
    other: Exchange,
)
    requires
        old(diagnostics).wf(),
        call_ensures(
            Diagnostics::record_stream_task_stopped,
            (diagnostics, exchange, reason),
            (),
        ),
        other != exchange,
        reason@.len() <= 512,
    ensures
        ({
            let before = old(diagnostics)@.feeds;
            let after = final(diagnostics)@.feeds;
            &&& after.dom().contains(exchange)
            &&& after[exchange].state is Stopped
            &&& after[exchange].last_error == Some(reason@)
            &&& before.dom().contains(exchange) ==> after[exchange].stream_restart_count
                == before[exchange].stream_restart_count && after[exchange].disconnect_count
                == before[exchange].disconnect_count && after[exchange].connected_at
                == before[exchange].connected_at
            &&& after.dom().contains(other) <==> before.dom().contains(other)
            &&& before.dom().contains(other) ==> after[other] == before[other]
        }),
        final(diagnostics)@.pipeline == old(diagnostics)@.pipeline,
        final(diagnostics)@.access == old(diagnostics)@.access,
{
}

/// A stream task that is started over leaves its feed reconnecting, with the reason, and is
/// counted.
pub proof fn law_restarted_streams_are_counted(
    diagnostics: &mut Diagnostics,
    exchange: Exchange,
    reason: &str,
    other: Exchange,
)
    requires
        old(diagnostics).wf(),
        call_ensures(
            Diagnostics::record_stream_task_restarting,
            (diagnostics, exchange, reason),
            (),
        ),
        other != exchange,
        reason@.len() <= 512,
    ensures
        ({
            let before = old(diagnostics)@.feeds;
            let after = final(diagnostics)@.feeds;
            &&& after.dom().contains(exchange)
            &&& after[exchange].state is Reconnecting
            &&& after[exchange].last_error == Some(reason@)
            &&& !before.dom().contains(exchange) ==> after[exchange].stream_restart_count == 1
            &&& before.dom().contains(exchange) && before[exchange].stream_restart_count < u64::MAX
                ==> after[exchange].stream_restart_count == before[exchange].stream_restart_count
                + 1
            &&& before.dom().contains(exchange) ==> after[exchange].disconnect_count
                == before[exchange].disconnect_count && after[exchange].failed_connect_attempts
                == before[exchange].failed_connect_attempts && after[exchange].connected_at
                == before[exchange].connected_at
            &&& after.dom().contains(other) <==> before.dom().contains(other)
            &&& before.dom().contains(other) ==> after[other] == before[other]
        }),
        final(diagnostics)@.pipeline == old(diagnostics)@.pipeline,
        final(diagnostics)@.access == old(diagnostics)@.access,
{
}

/// Trades that a full event channel dropped are counted one by one, and the channel is
/// saturated for the feed of their exchange until it recovers. No other feed is concerned.
pub proof fn law_event_channel_drops_are_counted(
    diagnostics: &mut Diagnostics,
    exchange: Exchange,
    stream: StreamKind,
    trades: Vec<crate::market::Trade>,
    other: Exchange,
)
    requires
        old(diagnostics).wf(),
        call_ensures(
            Diagnostics::record_event_channel_drop,
            (diagnostics, exchange, &Event::TradesReceived(stream, trades)),
            (),
        ),
        other != exchange,
    ensures
        final(diagnostics)@.pipeline.saturated_feeds.contains(exchange),
        final(diagnostics)@.pipeline.saturated_feeds.contains(other)
            <==> old(diagnostics)@.pipeline.saturated_feeds.contains(other),
        old(diagnostics)@.pipeline.event_channel_dropped_trades + trades@.len() <= u64::MAX
            ==> final(diagnostics)@.pipeline.event_channel_dropped_trades
            == old(diagnostics)@.pipeline.event_channel_dropped_trades + trades@.len(),
        final(diagnostics)@.pipeline.persist_channel_dropped_trades
            == old(diagnostics)@.pipeline.persist_channel_dropped_trades,
        final(diagnostics)@.pipeline.data_buffer_dropped_trades
            == old(diagnostics)@.pipeline.data_buffer_dropped_trades,
        final(diagnostics)@.pipeline.persistence_healthy
            == old(diagnostics)@.pipeline.persistence_healthy,
        final(diagnostics)@.pipeline.flush_dropped_trades
            == old(diagnostics)@.pipeline.flush_dropped_trades,
        final(diagnostics)@.feeds == old(diagnostics)@.feeds,
        final(diagnostics)@.access == old(diagnostics)@.access,
{
}

/// A drop of anything but trades saturates the channel and counts none.
pub proof fn law_only_trades_are_counted(
    first: &mut Diagnostics,
    second: &mut Diagnostics,
    exchange: Exchange,
    event: Event,
)
    requires
        old(first).wf(),
        old(second).wf(),
        !(event is TradesReceived),
        call_ensures(Diagnostics::record_event_channel_drop, (first, exchange, &event), ()),
        call_ensures(Diagnostics::record_persist_channel_drop, (second, &event), ()),
    ensures
        final(first)@.pipeline.saturated_feeds.contains(exchange),
        final(first)@.pipeline.event_channel_dropped_trades
            == old(first)@.pipeline.event_channel_dropped_trades,
        final(second)@.pipeline.persist_channel_saturated,
        final(second)@.pipeline.persist_channel_dropped_trades
            == old(second)@.pipeline.persist_channel_dropped_trades,
{
}

/// The event channel recovers feed by feed.
pub proof fn law_event_channel_recovers_by_feed(
    diagnostics: &mut Diagnostics,
    exchange: Exchange,
    other: Exchange,
)
    requires
        old(diagnostics).wf(),
        call_ensures(
            Diagnostics::record_event_channel_recovered,
            (diagnostics, exchange),
            (),
        ),
        other != exchange,
    ensures
        !final(diagnostics)@.pipeline.saturated_feeds.contains(exchange),
        final(diagnostics)@.pipeline.saturated_feeds.contains(other)
            <==> old(diagnostics)@.pipeline.saturated_feeds.contains(other),
        final(diagnostics)@.pipeline.event_channel_dropped_trades
            == old(diagnostics)@.pipeline.event_channel_dropped_trades,
        final(diagnostics)@.pipeline.persistence_healthy
            == old(diagnostics)@.pipeline.persistence_healthy,
        final(diagnostics)@.feeds == old(diagnostics)@.feeds,
{
}

/// Trades that a full persistence channel dropped are counted one by one.
pub proof fn law_persist_channel_drops_are_counted(
    diagnostics: &mut Diagnostics,
    stream: StreamKind,
    trades: Vec<crate::market::Trade>,
)
    requires
        old(diagnostics).wf(),
        call_ensures(
            Diagnostics::record_persist_channel_drop,
            (diagnostics, &Event::TradesReceived(stream, trades)),
            (),
        ),
    ensures
        final(diagnostics)@.pipeline.persist_channel_saturated,
        old(diagnostics)@.pipeline.persist_channel_dropped_trades + trades@.len() <= u64::MAX
            ==> final(diagnostics)@.pipeline.persist_channel_dropped_trades
            == old(diagnostics)@.pipeline.persist_channel_dropped_trades + trades@.len(),
        final(diagnostics)@.pipeline.event_channel_dropped_trades
            == old(diagnostics)@.pipeline.event_channel_dropped_trades,
        final(diagnostics)@.pipeline.saturated_feeds == old(diagnostics)@.pipeline.saturated_feeds,
        final(diagnostics)@.pipeline.data_buffer_dropped_trades
            == old(diagnostics)@.pipeline.data_buffer_dropped_trades,
        final(diagnostics)@.pipeline.persistence_healthy
            == old(diagnostics)@.pipeline.persistence_healthy,
        final(diagnostics)@.feeds == old(diagnostics)@.feeds,
{
}

/// Channel and buffer recover without forgetting what they dropped; a full buffer counts
/// the trade that it dropped.
pub proof fn law_recovery_keeps_the_counts(
    channel: &mut Diagnostics,
    full: &mut Diagnostics,
    buffer: &mut Diagnostics,
)
    requires
        old(channel).wf(),
        old(full).wf(),
        old(buffer).wf(),
        call_ensures(Diagnostics::record_persist_channel_recovered, (channel,), ()),
        call_ensures(Diagnostics::record_buffer_trade_drop, (full,), ()),
        call_ensures(Diagnostics::record_buffer_recovered, (buffer,), ()),
    ensures
        !final(channel)@.pipeline.persist_channel_saturated,
        final(channel)@.pipeline.persist_channel_dropped_trades
            == old(channel)@.pipeline.persist_channel_dropped_trades,
        final(channel)@.pipeline.data_buffer_saturated
            == old(channel)@.pipeline.data_buffer_saturated,
        final(channel)@.pipeline.saturated_feeds == old(channel)@.pipeline.saturated_feeds,
        final(full)@.pipeline.data_buffer_saturated,
        old(full)@.pipeline.data_buffer_dropped_trades < u64::MAX
            ==> final(full)@.pipeline.data_buffer_dropped_trades
            == old(full)@.pipeline.data_buffer_dropped_trades + 1,
        final(full)@.pipeline.persist_channel_dropped_trades
            == old(full)@.pipeline.persist_channel_dropped_trades,
        final(full)@.pipeline.event_channel_dropped_trades
            == old(full)@.pipeline.event_channel_dropped_trades,
        !final(buffer)@.pipeline.data_buffer_saturated,
        final(buffer)@.pipeline.data_buffer_dropped_trades
            == old(buffer)@.pipeline.data_buffer_dropped_trades,
        final(buffer)@.pipeline.persist_channel_saturated
            == old(buffer)@.pipeline.persist_channel_saturated,
{
}

/// A batch that was written notes its time with the feeds of its trades and no other.
/// Persistence is healthy again once nothing waits for a retry and nothing was ever
/// dropped.
pub proof fn law_written_batches_are_noted(
    diagnostics: &mut Diagnostics,
    persisted: Vec<Exchange>,
    retry: bool,
    now: i64,
    i: int,
    other: Exchange,
)
    requires
        old(diagnostics).wf(),
        call_ensures(
            Diagnostics::record_flush_completed,
            (diagnostics, &persisted, retry, now),
            (),
        ),
        !persisted@.contains(other),
    ensures
        ({
            let before = old(diagnostics)@.feeds;
            let after = final(diagnostics)@.feeds;
            &&& 0 <= i < persisted@.len() ==> after.dom().contains(persisted@[i])
                && after[persisted@[i]].last_persist_at == Some(now)
            &&& 0 <= i < persisted@.len() && before.dom().contains(persisted@[i])
                ==> after[persisted@[i]].state == before[persisted@[i]].state
                && after[persisted@[i]].last_data_at == before[persisted@[i]].last_data_at
                && after[persisted@[i]].connected_at == before[persisted@[i]].connected_at
            &&& after.dom().contains(other) <==> before.dom().contains(other)
            &&& before.dom().contains(other) ==> after[other] == before[other]
        }),
        ({
            let before = old(diagnostics)@.pipeline;
            let after = final(diagnostics)@.pipeline;
            &&& after.last_flush_at == Some(now)
            &&& retry || before.flush_retry_pending_trades == 0 ==> after.flush_retry_pending_trades
                == 0
            &&& !retry && before.flush_retry_pending_trades > 0
                ==> after.flush_retry_pending_trades == before.flush_retry_pending_trades
                && after.persistence_healthy == before.persistence_healthy && after.last_flush_error
                == before.last_flush_error
            &&& (retry || before.flush_retry_pending_trades == 0) && before.flush_dropped_trades
                == 0 ==> after.persistence_healthy && after.last_flush_error is None
            &&& before.flush_dropped_trades > 0 ==> after.persistence_healthy
                == before.persistence_healthy
            &&& retry ==> after.last_flush_error is None
            &&& !retry && before.flush_dropped_trades > 0 ==> after.last_flush_error
                == before.last_flush_error
            &&& after.flush_dropped_trades == before.flush_dropped_trades
            &&& after.flush_failure_count == before.flush_failure_count
            &&& after.saturated_feeds == before.saturated_feeds
            &&& after.persist_channel_saturated == before.persist_channel_saturated
            &&& after.data_buffer_saturated == before.data_buffer_saturated
        }),
        final(diagnostics)@.access == old(diagnostics)@.access,
{
    let changed = persisted@.to_set();
    if 0 <= i < persisted@.len() {
        assert(changed.contains(persisted@[i]));
    }
    assert(!changed.contains(other));
}

/// A batch that could not be written is counted, with its error and the trades that wait
/// for a retry; a batch that is given up leaves nothing waiting and is counted trade by
/// trade. Both leave persistence unhealthy.
pub proof fn law_failed_batches_are_counted(
    failing: &mut Diagnostics,
    error: &str,
    pending: usize,
    dropping: &mut Diagnostics,
    trades: usize,
)
    requires
        old(failing).wf(),
        old(dropping).wf(),
        call_ensures(Diagnostics::record_flush_failed, (failing, error, pending), ()),
        call_ensures(Diagnostics::record_flush_dropped, (dropping, trades), ()),
        error@.len() <= 512,
    ensures
        !final(failing)@.pipeline.persistence_healthy,
        final(failing)@.pipeline.last_flush_error == Some(error@),
        old(failing)@.pipeline.flush_failure_count < u64::MAX
            ==> final(failing)@.pipeline.flush_failure_count
            == old(failing)@.pipeline.flush_failure_count + 1,
        final(failing)@.pipeline.flush_retry_pending_trades == pending,
        final(failing)@.pipeline.flush_dropped_trades
            == old(failing)@.pipeline.flush_dropped_trades,
        final(failing)@.pipeline.last_flush_at == old(failing)@.pipeline.last_flush_at,
        final(failing)@.feeds == old(failing)@.feeds,
        !final(dropping)@.pipeline.persistence_healthy,
        final(dropping)@.pipeline.flush_retry_pending_trades == 0,
        old(dropping)@.pipeline.flush_dropped_trades + trades <= u64::MAX
            ==> final(dropping)@.pipeline.flush_dropped_trades
            == old(dropping)@.pipeline.flush_dropped_trades + trades,
        final(dropping)@.pipeline.last_flush_error == old(dropping)@.pipeline.last_flush_error,
        final(dropping)@.pipeline.flush_failure_count
            == old(dropping)@.pipeline.flush_failure_count,
        final(dropping)@.feeds == old(dropping)@.feeds,
{
}

/// Every access event is counted by its kind and no other. Its details are logged if and
/// only if fewer than five of its kind were in the current minute; a new minute starts with
/// the first event a minute or more after the last start.
pub proof fn law_access_events_are_counted_and_sampled(
    diagnostics: &mut Diagnostics,
    event: AccessEvent,
    kind: AccessEvent,
    now: u64,
    decision: AccessLogDecision,
)
    requires
        old(diagnostics).wf(),
        call_ensures(Diagnostics::record_access_at, (diagnostics, event, now), decision),
        now >= old(diagnostics)@.window_started,
        old(diagnostics)@.access.count(event) < u64::MAX,
    ensures
        final(diagnostics)@.access.count(event) == old(diagnostics)@.access.count(event) + 1,
        kind != event ==> final(diagnostics)@.access.count(kind) == old(diagnostics)@.access.count(
            kind,
        ),
        now - old(diagnostics)@.window_started >= 60_000_000_000 ==> decision is Emit
            && final(diagnostics)@.window_started == now && final(diagnostics)@.emitted.count(event)
            == 1 && (kind != event ==> final(diagnostics)@.emitted.count(kind) == 0),
        now - old(diagnostics)@.window_started < 60_000_000_000 ==> (decision is Emit
            <==> old(diagnostics)@.emitted.count(event) < 5)
            && final(diagnostics)@.window_started == old(diagnostics)@.window_started && (kind
            != event ==> final(diagnostics)@.emitted.count(kind)
            == old(diagnostics)@.emitted.count(kind)),
        now - old(diagnostics)@.window_started < 60_000_000_000 && decision is Emit
            ==> final(diagnostics)@.emitted.count(event) == old(diagnostics)@.emitted.count(event)
            + 1,
        final(diagnostics)@.feeds == old(diagnostics)@.feeds,
        final(diagnostics)@.pipeline == old(diagnostics)@.pipeline,
{
}

/// Each kind of access event has its counter.
pub proof fn law_each_kind_has_its_counter(counts: AccessDiagnostics)
    ensures
        counts.count(AccessEvent::AuthFailure) == counts.auth_failures,
        counts.count(AccessEvent::AdmissionBlocked) == counts.admission_blocked,
        counts.count(AccessEvent::RateLimited) == counts.rate_limited,
        counts.count(AccessEvent::ConnectionRejected) == counts.connection_rejected,
        counts.count(AccessEvent::AcceptTimeout) == counts.accept_timeouts,
{
}

/// A feed is reported with all that is known of it.
pub proof fn law_feeds_are_reported_whole(feed: FeedDiagnostics)
    ensures
        feed@.exchange == feed.exchange@,
        feed@.feed.state == feed.state,
        feed@.feed.connected_at == feed.connected_at,
        feed@.feed.last_data_at == feed.last_data_at,
        feed@.feed.last_error is Some <==> feed.last_error is Some,
        feed@.feed.last_error is Some ==> feed@.feed.last_error->0 == feed.last_error->0@,
        feed@.feed.disconnect_count == feed.disconnect_count,
        feed@.feed.failed_connect_attempts == feed.failed_connect_attempts,
        feed@.feed.reconnect_count == feed.reconnect_count,
        feed@.feed.stream_restart_count == feed.stream_restart_count,
        feed@.feed.last_persist_at == feed.last_persist_at,
{
}

/// The report is degraded if and only if the database, a feed or a part of the pipeline is
/// in trouble; else it is starting if and only if a feed is.
pub proof fn law_status_tells_of_any_trouble(
    diagnostics: Diagnostics,
    database_ok: bool,
    elapsed: u64,
    exchange: Exchange,
    snapshot: DiagnosticsSnapshot,
)
    requires
        diagnostics.wf(),
        call_ensures(Diagnostics::snapshot_at, (&diagnostics, database_ok, elapsed), snapshot),
    ensures
        !database_ok ==> snapshot.status is Degraded,
        !snapshot.pipeline.persistence_healthy ==> snapshot.status is Degraded,
        snapshot.pipeline.flush_retry_pending_trades > 0 ==> snapshot.status is Degraded,
        snapshot.pipeline.flush_dropped_trades > 0 ==> snapshot.status is Degraded,
        snapshot.pipeline.event_channel_saturated ==> snapshot.status is Degraded,
        snapshot.pipeline.persist_channel_saturated ==> snapshot.status is Degraded,
        snapshot.pipeline.data_buffer_saturated ==> snapshot.status is Degraded,
        diagnostics@.feeds.dom().contains(exchange) && (diagnostics@.feeds[exchange].state
            is Reconnecting || diagnostics@.feeds[exchange].state is Stopped)
            ==> snapshot.status is Degraded,
        diagnostics@.feeds.dom().contains(exchange) && diagnostics@.feeds[exchange].state is Starting
            ==> !(snapshot.status is Healthy),
        database_ok && snapshot.pipeline.persistence_healthy
            && snapshot.pipeline.flush_retry_pending_trades == 0
            && snapshot.pipeline.flush_dropped_trades == 0
            && !snapshot.pipeline.event_channel_saturated
            && !snapshot.pipeline.persist_channel_saturated
            && !snapshot.pipeline.data_buffer_saturated && (forall|e: Exchange| #[trigger]
            diagnostics@.feeds.dom().contains(e) ==> diagnostics@.feeds[e].state is Connected)
            ==> snapshot.status is Healthy,
        database_ok && snapshot.pipeline.persistence_healthy
            && snapshot.pipeline.flush_retry_pending_trades == 0
            && snapshot.pipeline.flush_dropped_trades == 0
            && !snapshot.pipeline.event_channel_saturated
            && !snapshot.pipeline.persist_channel_saturated
            && !snapshot.pipeline.data_buffer_saturated && (forall|e: Exchange| #[trigger]
            diagnostics@.feeds.dom().contains(e) ==> diagnostics@.feeds[e].state is Connected
                || diagnostics@.feeds[e].state is Starting) ==> !(snapshot.status is Degraded),
{
}

/// The report shows the pipeline, the counters and the database as they are, and how many
/// whole seconds the server has run.
pub proof fn law_reports_show_what_was_recorded(
    diagnostics: Diagnostics,
    database_ok: bool,
    elapsed: u64,
    snapshot: DiagnosticsSnapshot,
)
    requires
        diagnostics.wf(),
        call_ensures(Diagnostics::snapshot_at, (&diagnostics, database_ok, elapsed), snapshot),
    ensures
        snapshot.database.ok == database_ok,
        snapshot.uptime_secs * 1_000_000_000 <= elapsed < (snapshot.uptime_secs + 1)
            * 1_000_000_000,
        snapshot.access == diagnostics@.access,
        snapshot.pipeline.persistence_healthy == diagnostics@.pipeline.persistence_healthy,
        snapshot.pipeline.last_flush_at == diagnostics@.pipeline.last_flush_at,
        snapshot.pipeline.last_flush_error is Some
            <==> diagnostics@.pipeline.last_flush_error is Some,
        snapshot.pipeline.last_flush_error is Some ==> snapshot.pipeline.last_flush_error->0@
            == diagnostics@.pipeline.last_flush_error->0,
        snapshot.pipeline.flush_failure_count == diagnostics@.pipeline.flush_failure_count,
        snapshot.pipeline.flush_retry_pending_trades
            == diagnostics@.pipeline.flush_retry_pending_trades,
        snapshot.pipeline.flush_dropped_trades == diagnostics@.pipeline.flush_dropped_trades,
        snapshot.pipeline.event_channel_saturated <==> diagnostics@.pipeline.saturated_feeds
            != Set::<Exchange>::empty(),
        snapshot.pipeline.event_channel_dropped_trades
            == diagnostics@.pipeline.event_channel_dropped_trades,
        snapshot.pipeline.persist_channel_saturated
            == diagnostics@.pipeline.persist_channel_saturated,
        snapshot.pipeline.persist_channel_dropped_trades
            == diagnostics@.pipeline.persist_channel_dropped_trades,
        snapshot.pipeline.data_buffer_saturated == diagnostics@.pipeline.data_buffer_saturated,
        snapshot.pipeline.data_buffer_dropped_trades
            == diagnostics@.pipeline.data_buffer_dropped_trades,
{
    let saturated = diagnostics@.pipeline.saturated_feeds;
    if saturated != Set::<Exchange>::empty() {
        if forall|e: Exchange| !#[trigger] saturated.contains(e) {
            assert(saturated =~= Set::<Exchange>::empty());
        }
    }
}

proof fn lemma_reported_contains(feeds: Map<Exchange, FeedView>, exchange: Exchange, n: int)
    requires
        0 <= n <= EXCHANGES,
        exchange.spec_index() < n,
        feeds.dom().contains(exchange),
    ensures
        reported(feeds, n).contains(
            FeedDiagnosticsView { exchange: exchange.spec_name(), feed: feeds[exchange] },
        ),
    decreases n,
{
    let wanted = FeedDiagnosticsView { exchange: exchange.spec_name(), feed: feeds[exchange] };
    let here = Exchange::spec_from_index(n - 1);
    let earlier = reported(feeds, n - 1);
    if exchange.spec_index() == n - 1 {
        assert(here == exchange);
        assert(reported(feeds, n)[earlier.len() as int] == wanted);
    } else {
        lemma_reported_contains(feeds, exchange, n - 1);
        let k = choose|k: int| 0 <= k < earlier.len() && earlier[k] == wanted;
        assert(reported(feeds, n)[k] == wanted);
    }
}

proof fn lemma_reported_known(feeds: Map<Exchange, FeedView>, n: int, k: int)
    requires
        0 <= n <= EXCHANGES,
        0 <= k < reported(feeds, n).len(),
    ensures
        exists|exchange: Exchange| #[trigger]
            feeds.dom().contains(exchange) && reported(feeds, n)[k].exchange == exchange.spec_name()
                && reported(feeds, n)[k].feed == feeds[exchange],
    decreases n,
{
    if n > 0 {
        let here = Exchange::spec_from_index(n - 1);
        let earlier = reported(feeds, n - 1);
        if k < earlier.len() {
            lemma_reported_known(feeds, n - 1, k);
            assert(reported(feeds, n)[k] == earlier[k]);
        } else {
            assert(feeds.dom().contains(here));
        }
    }
}

/// Each feed that was recorded is reported under the name of its exchange, and none is that
/// was not recorded. They are reported in the order of their names.
pub proof fn law_every_feed_is_reported(
    diagnostics: Diagnostics,
    database_ok: bool,
    elapsed: u64,
    snapshot: DiagnosticsSnapshot,
    exchange: Exchange,
    k: int,
    l: int,
)
    requires
        diagnostics.wf(),
        call_ensures(Diagnostics::snapshot_at, (&diagnostics, database_ok, elapsed), snapshot),
    ensures
        diagnostics@.feeds.dom().contains(exchange) ==> exists|i: int|
            0 <= i < snapshot.feeds@.len() && (#[trigger] snapshot.feeds@[i]).exchange@
                == exchange.spec_name() && snapshot.feeds@[i]@.feed == diagnostics@.feeds[exchange],
        0 <= k < snapshot.feeds@.len() ==> exists|e: Exchange| #[trigger]
            diagnostics@.feeds.dom().contains(e) && snapshot.feeds@[k].exchange@ == e.spec_name()
                && snapshot.feeds@[k]@.feed == diagnostics@.feeds[e],
        0 <= k < l < snapshot.feeds@.len() ==> !crate::text::text_less(
            snapshot.feeds@[l].exchange@,
            snapshot.feeds@[k].exchange@,
        ),
{
    broadcast use vstd::seq_lib::group_to_multiset_ensures;

    let all = reported(diagnostics@.feeds, EXCHANGES as int);
    let shown = crate::text::views(snapshot.feeds@);
    lemma_index_injective();
    if diagnostics@.feeds.dom().contains(exchange) {
        let wanted = FeedDiagnosticsView {
            exchange: exchange.spec_name(),
            feed: diagnostics@.feeds[exchange],
        };
        lemma_reported_contains(diagnostics@.feeds, exchange, EXCHANGES as int);
        assert(all.to_multiset().count(wanted) > 0);
        assert(shown.contains(wanted));
        let i = choose|i: int| 0 <= i < shown.len() && shown[i] == wanted;
        assert(snapshot.feeds@[i]@ == wanted);
        assert(snapshot.feeds@[i].exchange@ == exchange.spec_name());
    }
    if 0 <= k < snapshot.feeds@.len() {
        assert(shown[k] == snapshot.feeds@[k]@);
        assert(shown.to_multiset().count(shown[k]) > 0);
        assert(all.contains(shown[k]));
        let j = choose|j: int| 0 <= j < all.len() && all[j] == shown[k];
        lemma_reported_known(diagnostics@.feeds, EXCHANGES as int, j);
    }
    if 0 <= k < l < snapshot.feeds@.len() {
        let names = feed_names(shown);
        assert(names[k] == snapshot.feeds@[k].exchange@);
        assert(names[l] == snapshot.feeds@[l].exchange@);
    }
}

/// Whatever the time: an access event is counted by its kind.
pub proof fn law_access_is_counted_at_any_time(
    diagnostics: &mut Diagnostics,
    event: AccessEvent,
    kind: AccessEvent,
    decision: AccessLogDecision,
)
    requires
        old(diagnostics).wf(),
        call_ensures(Diagnostics::record_access, (diagnostics, event), decision),
        old(diagnostics)@.access.count(event) < u64::MAX,
    ensures
        final(diagnostics)@.access.count(event) == old(diagnostics)@.access.count(event) + 1,
        kind != event ==> final(diagnostics)@.access.count(kind) == old(diagnostics)@.access.count(
            kind,
        ),
        final(diagnostics)@.feeds == old(diagnostics)@.feeds,
        final(diagnostics)@.pipeline == old(diagnostics)@.pipeline,
{
    let now = choose|now: u64|
        #[trigger] access_taken(old(diagnostics)@, event, now, decision, final(diagnostics)@);
    assert(access_taken(old(diagnostics)@, event, now, decision, final(diagnostics)@));
}

/// Whatever the time: a written batch is noted with the feeds of its trades, and only the
/// retry of a batch that failed settles that failure.
pub proof fn law_batches_are_noted_at_any_time(
    written: &mut Diagnostics,
    retried: &mut Diagnostics,
    persisted: Vec<Exchange>,
    i: int,
)
    requires
        old(written).wf(),
        old(retried).wf(),
        call_ensures(Diagnostics::record_flush_succeeded, (written, &persisted), ()),
        call_ensures(Diagnostics::record_flush_retry_succeeded, (retried, &persisted), ()),
    ensures
        final(written)@.pipeline.last_flush_at is Some,
        final(retried)@.pipeline.last_flush_at is Some,
        old(written)@.pipeline.flush_retry_pending_trades > 0
            ==> final(written)@.pipeline.flush_retry_pending_trades
            == old(written)@.pipeline.flush_retry_pending_trades,
        final(retried)@.pipeline.flush_retry_pending_trades == 0,
        final(retried)@.pipeline.last_flush_error is None,
        0 <= i < persisted@.len() ==> final(written)@.feeds.dom().contains(persisted@[i])
            && final(written)@.feeds[persisted@[i]].last_persist_at is Some,
        0 <= i < persisted@.len() ==> final(retried)@.feeds.dom().contains(persisted@[i])
            && final(retried)@.feeds[persisted@[i]].last_persist_at is Some,
{
    let at = choose|now: i64|
        now >= old(written).started_at() && final(written)@ == #[trigger] flushed(
            old(written)@,
            persisted@,
            false,
            now,
        );
    let again = choose|now: i64|
        now >= old(retried).started_at() && final(retried)@ == #[trigger] flushed(
            old(retried)@,
            persisted@,
            true,
            now,
        );
    assert(final(written)@ == flushed(old(written)@, persisted@, false, at));
    assert(final(retried)@ == flushed(old(retried)@, persisted@, true, again));
    if 0 <= i < persisted@.len() {
        assert(persisted@.to_set().contains(persisted@[i]));
    }
}

/// Whatever the time: a report is the same but for how long the server has run.
pub proof fn law_reports_agree_at_any_time(
    diagnostics: Diagnostics,
    database_ok: bool,
    elapsed: u64,
    now: DiagnosticsSnapshot,
    timed: DiagnosticsSnapshot,
)
    requires
        diagnostics.wf(),
        call_ensures(Diagnostics::snapshot, (&diagnostics, database_ok), now),
        call_ensures(Diagnostics::snapshot_at, (&diagnostics, database_ok, elapsed), timed),
    ensures
        now.status == timed.status,
        now.database == timed.database,
        now.access == timed.access,
        now.pipeline.persistence_healthy == timed.pipeline.persistence_healthy,
        now.pipeline.flush_dropped_trades == timed.pipeline.flush_dropped_trades,
        crate::text::views(now.feeds@).to_multiset() == crate::text::views(
            timed.feeds@,
        ).to_multiset(),
{
}

} // verus!
