use flowsurface_server::access::{check_auth, AccessControl, Request, Route};
use flowsurface_server::api::Refusal;
use flowsurface_server::config::BearerToken;
use flowsurface_server::diagnostics::{
    summarize_error, AccessDiagnostics, AccessEvent, AccessLogDecision, Diagnostics,
    DiagnosticsStatus, FeedState, ACCESS_DETAIL_WINDOW,
};
use flowsurface_server::health::{DatabaseHealth, HealthStep, ProbeOutcome};
use flowsurface_server::limiter::{AdmissionGate, RateLimiter};
use flowsurface_server::market::{Exchange, Ticker, TickerInfo, Trade};
use flowsurface_server::net::IpAddress;
use flowsurface_server::stream::{Event, StreamKind};

const SECOND: u64 = 1_000_000_000;

fn kind(exchange: Exchange) -> StreamKind {
    StreamKind::Trades {
        ticker_info: TickerInfo {
            ticker: Ticker::new("BTCUSDT", exchange),
            min_ticksize: 0,
            min_qty: 0,
            contract_size: None,
        },
    }
}

fn trades(exchange: Exchange, count: usize) -> Event {
    let trade = Trade {
        time: 1,
        is_sell: false,
        price_units: 1,
        qty_units: 1,
    };
    Event::TradesReceived(kind(exchange), vec![trade; count])
}

fn request<'a>(route: Route, ip: IpAddress, header: Option<&'a str>) -> Request<'a> {
    Request {
        route,
        ip,
        header,
        gate_now: 0,
        limiter_now: 0,
    }
}

fn guarded(rate: u64) -> AccessControl {
    AccessControl::new(
        Some(BearerToken::from_text("secret").unwrap()),
        AdmissionGate::new(2, 20),
        Some(RateLimiter::new(rate, 10 * SECOND)),
    )
}

#[test]
fn routes_have_paths() {
    for route in [
        Route::Status,
        Route::Exchanges,
        Route::Pairs,
        Route::Diagnostics,
        Route::Trades,
        Route::TradesArrow,
    ] {
        assert_eq!(Route::from_path(route.path()), Some(route));
        assert_eq!(route.is_public(), route == Route::Status);
    }
    assert_eq!(Route::from_path("/"), None);
    assert_eq!(Route::TradesArrow.path(), "/trades.arrow");
}

#[test]
fn protected_routes_need_the_token() {
    let token = Some(BearerToken::from_text("secret").unwrap());
    assert_eq!(check_auth(&token, Some("Bearer secret")), Ok(()));
    assert_eq!(check_auth(&token, None), Err(Refusal::Unauthorized));
    assert_eq!(check_auth(&None, None), Ok(()));
    let ip = IpAddress::V4(0x0808_0808);
    let mut access = guarded(10);
    assert_eq!(
        access.authorize_at(&request(Route::Status, ip, None)),
        Ok(())
    );
    assert_eq!(
        access.authorize_at(&request(Route::Trades, ip, None)),
        Err(Refusal::Unauthorized)
    );
    // The budget of the unknown address is used up.
    assert_eq!(
        access.authorize_at(&request(Route::Trades, ip, Some("Bearer secret"))),
        Err(Refusal::GateExhausted)
    );
}

#[test]
fn valid_tokens_earn_trust() {
    let ip = IpAddress::V4(0x0808_0808);
    let mut access = guarded(3);
    for _ in 0..3 {
        assert_eq!(
            access.authorize_at(&request(Route::Pairs, ip, Some("Bearer secret"))),
            Ok(())
        );
    }
    assert_eq!(
        access.authorize_at(&request(Route::Pairs, ip, Some("Bearer secret"))),
        Err(Refusal::RateLimited)
    );
    assert_eq!(
        access.authorize_at(&request(Route::Pairs, ip, Some("Bearer wrong!"))),
        Err(Refusal::Unauthorized)
    );
}

#[test]
fn loopback_needs_only_the_token() {
    let ip = IpAddress::V6(1);
    let mut access = guarded(1);
    for _ in 0..30 {
        assert_eq!(
            access.authorize_at(&request(Route::Trades, ip, Some("Bearer secret"))),
            Ok(())
        );
    }
    assert_eq!(
        access.authorize(Route::Trades, ip, None),
        Err(Refusal::Unauthorized)
    );
}

#[test]
fn feeds_count_reconnections() {
    let mut diagnostics = Diagnostics::new();
    diagnostics.register_exchange(Exchange::BinanceSpot);
    assert_eq!(
        diagnostics.snapshot(true).status,
        DiagnosticsStatus::Starting
    );
    let streams = vec![kind(Exchange::BinanceSpot)];
    diagnostics.record_stream_event_at(&Event::Connected(streams.clone()), 10);
    diagnostics.record_stream_event_at(&trades(Exchange::BinanceSpot, 1), 11);
    diagnostics.record_stream_event_at(
        &Event::Disconnected(streams.clone(), "gone".to_string()),
        12,
    );
    diagnostics.record_stream_event_at(&Event::Connected(streams), 13);
    let snapshot = diagnostics.snapshot(true);
    assert_eq!(snapshot.feeds.len(), 1);
    let feed = &snapshot.feeds[0];
    assert_eq!(feed.exchange, "Binance Spot");
    assert_eq!(feed.state, FeedState::Connected);
    assert_eq!(feed.connected_at, Some(13));
    assert_eq!(feed.last_data_at, Some(11));
    assert_eq!(feed.disconnect_count, 1);
    assert_eq!(feed.reconnect_count, 1);
    assert_eq!(feed.last_error, None);
}

#[test]
fn stopped_feeds_keep_their_reason() {
    let mut diagnostics = Diagnostics::new();
    diagnostics.register_exchange(Exchange::OkexSpot);
    diagnostics.record_stream_task_restarting(Exchange::OkexSpot, "again");
    assert_eq!(
        diagnostics.snapshot(true).feeds[0].stream_restart_count,
        1
    );
    diagnostics.record_stream_task_stopped(Exchange::OkexSpot, "over");
    let snapshot = diagnostics.snapshot(true);
    assert_eq!(snapshot.feeds[0].state, FeedState::Stopped);
    assert_eq!(snapshot.feeds[0].last_error.as_deref(), Some("over"));
    assert_eq!(snapshot.status, DiagnosticsStatus::Degraded);
}

#[test]
fn pipeline_degrades_and_recovers() {
    let mut diagnostics = Diagnostics::new();
    diagnostics.register_exchange(Exchange::BybitSpot);
    diagnostics.record_stream_event(&Event::Connected(vec![kind(Exchange::BybitSpot)]));
    diagnostics.record_event_channel_drop(Exchange::BybitSpot, &trades(Exchange::BybitSpot, 4));
    assert!(diagnostics.snapshot(true).pipeline.event_channel_saturated);
    diagnostics.record_event_channel_recovered(Exchange::BybitSpot);
    diagnostics.record_persist_channel_drop(&trades(Exchange::BybitSpot, 2));
    diagnostics.record_persist_channel_recovered();
    diagnostics.record_buffer_trade_drop();
    diagnostics.record_buffer_recovered();
    let pipeline = diagnostics.snapshot(true).pipeline;
    assert!(!pipeline.event_channel_saturated);
    assert_eq!(pipeline.event_channel_dropped_trades, 4);
    assert_eq!(pipeline.persist_channel_dropped_trades, 2);
    assert_eq!(pipeline.data_buffer_dropped_trades, 1);

    diagnostics.record_flush_failed("disk full", 9);
    let failed = diagnostics.snapshot(true);
    assert!(!failed.pipeline.persistence_healthy);
    assert_eq!(failed.pipeline.flush_retry_pending_trades, 9);
    assert_eq!(
        failed.pipeline.last_flush_error.as_deref(),
        Some("disk full")
    );
    diagnostics.record_flush_retry_succeeded(&vec![Exchange::BybitSpot]);
    let recovered = diagnostics.snapshot(true);
    assert!(recovered.pipeline.persistence_healthy);
    assert_eq!(recovered.pipeline.last_flush_error, None);
    assert!(recovered.feeds[0].last_persist_at.is_some());
    assert_eq!(
        diagnostics.snapshot(false).status,
        DiagnosticsStatus::Degraded
    );
}

#[test]
fn dropped_batch_degrades_for_good() {
    let mut diagnostics = Diagnostics::new();
    diagnostics.record_flush_dropped(5);
    diagnostics.record_flush_completed(&Vec::new(), true, 20);
    diagnostics.record_flush_succeeded(&Vec::new());
    let snapshot = diagnostics.snapshot(true);
    assert_eq!(snapshot.pipeline.flush_dropped_trades, 5);
    assert_eq!(snapshot.status, DiagnosticsStatus::Degraded);
}

#[test]
fn access_details_are_sampled() {
    let mut diagnostics = Diagnostics::new();
    for _ in 0..5 {
        assert_eq!(
            diagnostics.record_access_at(AccessEvent::AuthFailure, 1),
            AccessLogDecision::Emit
        );
    }
    assert_eq!(
        diagnostics.record_access_at(AccessEvent::AuthFailure, 2),
        AccessLogDecision::Suppress
    );
    assert_eq!(
        diagnostics.record_access_at(AccessEvent::RateLimited, 2),
        AccessLogDecision::Emit
    );
    assert_eq!(
        diagnostics.record_access_at(AccessEvent::AuthFailure, 2 * ACCESS_DETAIL_WINDOW),
        AccessLogDecision::Emit
    );
    let counts = diagnostics.access_counts();
    assert_eq!(counts.auth_failures, 7);
    assert_eq!(counts.rate_limited, 1);
    let previous = AccessDiagnostics {
        auth_failures: 4,
        admission_blocked: 9,
        ..AccessDiagnostics::default()
    };
    let delta = counts.delta_since(previous);
    assert_eq!(delta.auth_failures, 3);
    assert_eq!(delta.admission_blocked, 0);
    assert!(!delta.is_zero());
    assert!(AccessDiagnostics::default().is_zero());
    assert_eq!(
        diagnostics.record_access(AccessEvent::AcceptTimeout),
        AccessLogDecision::Emit
    );
    assert!(diagnostics.uptime() < 3600 * SECOND);
    assert!(diagnostics.uptime_secs() < 3600);
    assert_eq!(diagnostics.snapshot_at(true, 7 * SECOND + 5).uptime_secs, 7);
}

#[test]
fn long_errors_are_cut_by_characters() {
    let long = "\u{e9}".repeat(600);
    assert_eq!(summarize_error(&long).chars().count(), 512);
    assert_eq!(summarize_error("short"), "short");
}

#[test]
fn health_results_are_cached() {
    let mut health = DatabaseHealth::with_limits(10, 5);
    assert_eq!(health.begin(100), HealthStep::AwaitTurn { timeout: 5 });
    assert_eq!(
        health.after_turn(true, 105, 102),
        HealthStep::Probe { timeout: 3 }
    );
    assert_eq!(
        health.after_turn(false, 105, 105),
        HealthStep::Answer(false)
    );
    assert!(health.after_probe(ProbeOutcome::Answered(true), 103));
    assert_eq!(health.begin(112), HealthStep::Answer(true));
    assert_eq!(health.fresh_result(113), None);
    assert!(!health.after_probe(ProbeOutcome::TimedOut, 120));
    assert_eq!(health.after_turn(true, 125, 121), HealthStep::Answer(false));
    assert!(!health.after_probe(ProbeOutcome::Panicked, 140));
    assert_eq!(DatabaseHealth::new().deadline(5), SECOND + 5);
}
