use flowsurface_server::api::{AnnotatedTrade, TradeQuery};
use flowsurface_server::cleanup::{
    purge_batch_size, should_vacuum, CleanupAction, CleanupConfig, CleanupError, CleanupReply,
    CleanupScheduler, MAX_PURGE_ITERATIONS,
};
use flowsurface_server::config::RetentionHours;
use flowsurface_server::export::{ChunkWriter, ARROW_CHUNK_SIZE};
use flowsurface_server::market::{Exchange, Ticker, TickerInfo, Trade};
use flowsurface_server::storage::{
    cleanup_record, current_storage_bytes, exchanges_of, from_stored_time, purge_cutoff,
    query_trades, query_trades_arrow_ipc, row_ticker, ticker_row, to_stored_time, trade_row, vacuum_step,
    BatchEnd, BatchFlusher, DataBuffer, FileSize, FlushLoop, PushOutcome, SqlParam, VacuumStep,
};
use flowsurface_server::stream::{Event, StreamKind};

const MB: u64 = 1_048_576;

fn annotated(time: u64) -> AnnotatedTrade {
    AnnotatedTrade::new(
        Ticker::new("BTCUSDT", Exchange::BinanceSpot),
        Trade {
            time,
            is_sell: true,
            price_units: 3,
            qty_units: 4,
        },
    )
}

fn event(times: &[u64]) -> Event {
    Event::TradesReceived(
        StreamKind::Trades {
            ticker_info: TickerInfo {
                ticker: Ticker::new("BTCUSDT", Exchange::BinanceSpot),
                min_ticksize: -1,
                min_qty: -4,
                contract_size: Some(0),
            },
        },
        times.iter().map(|time| annotated(*time).trade).collect(),
    )
}

fn query() -> TradeQuery {
    TradeQuery {
        venue: "binance".to_string(),
        symbol: "BTCUSDT".to_string(),
        market: "spot".to_string(),
        from: None,
        to: None,
        limit: None,
    }
}

#[test]
fn trade_queries_bind_their_values() {
    let statement = query_trades(&query());
    assert_eq!(
        statement.sql,
        "SELECT exchange, symbol, ts, price, qty, is_sell FROM trades WHERE symbol = ? AND exchange = ? ORDER BY ts DESC LIMIT 1000"
    );
    assert!(matches!(&statement.params[0], SqlParam::Text(text) if text == "btcusdt"));
    assert!(matches!(&statement.params[1], SqlParam::Text(text) if text == "Binance Spot"));
    let mut bounded = query();
    bounded.from = Some(5);
    bounded.to = Some(9);
    bounded.limit = Some(1_000_000);
    let statement = query_trades(&bounded);
    assert_eq!(
        statement.sql,
        "SELECT exchange, symbol, ts, price, qty, is_sell FROM trades WHERE symbol = ? AND exchange = ? AND ts >= ? AND ts <= ? ORDER BY ts ASC LIMIT 10000"
    );
    assert_eq!(statement.params.len(), 4);
    assert!(matches!(statement.params[3], SqlParam::Int(9)));
}

#[test]
fn arrow_queries_have_their_own_limit() {
    assert_eq!(
        query_trades_arrow_ipc(&query()).sql,
        "SELECT ts, price, qty, is_sell FROM trades WHERE symbol = ? AND exchange = ? ORDER BY ts DESC LIMIT 50000"
    );
    let mut large = query();
    large.limit = Some(usize::MAX);
    assert!(query_trades_arrow_ipc(&large).sql.ends_with("LIMIT 1000000"));
}

#[test]
fn stored_rows_match_what_queries_bind() {
    let row = trade_row(&annotated(u64::MAX));
    assert_eq!(row.exchange, "Binance Spot");
    assert_eq!(row.symbol, "btcusdt");
    assert_eq!(row.ts, -1);
    assert_eq!((row.price_units, row.qty_units, row.is_sell), (3, 4, true));
    for time in [0, 1, 1 << 63, u64::MAX] {
        assert_eq!(from_stored_time(to_stored_time(time)), time);
    }
    let info = TickerInfo {
        ticker: Ticker::new("BTCUSDT", Exchange::BybitInverse),
        min_ticksize: -1,
        min_qty: 0,
        contract_size: Some(2),
    };
    let row = ticker_row(&info);
    assert_eq!(row.exchange, "Bybit Inverse");
    assert_eq!((row.min_ticksize, row.min_qty), (-1, 0));
    assert_eq!(row.contract_size, Some(2));
}

#[test]
fn rows_are_read_back_as_tickers() {
    let ticker = row_ticker("Binance Spot", "btcusdt").unwrap();
    assert_eq!(ticker.exchange, Exchange::BinanceSpot);
    assert_eq!(
        row_ticker("Kraken Spot", "btcusdt").err(),
        Some("cannot parse exchange 'Kraken Spot': Invalid exchange: Kraken Spot".to_string())
    );
}

#[test]
fn sizes_and_cutoffs() {
    assert_eq!(
        current_storage_bytes(FileSize::Bytes(5), FileSize::Missing)
            .unwrap()
            .as_bytes(),
        5
    );
    assert_eq!(
        current_storage_bytes(FileSize::Bytes(u64::MAX), FileSize::Bytes(7))
            .unwrap()
            .as_bytes(),
        u64::MAX
    );
    let unreadable = |cause: &str| FileSize::Unreadable(cause.to_string());
    assert_eq!(
        current_storage_bytes(unreadable("denied"), unreadable("gone")),
        Err("denied".to_string())
    );
    assert_eq!(
        current_storage_bytes(FileSize::Missing, unreadable("gone")),
        Err("gone".to_string())
    );
    let day = RetentionHours::new(24).unwrap();
    assert_eq!(purge_cutoff(day, 100_000_000), Some(13_600_000));
    assert_eq!(purge_cutoff(RetentionHours::new(0).unwrap(), 5), None);
    assert_eq!(purge_cutoff(RetentionHours::new(u64::MAX).unwrap(), 5), None);
    assert_eq!(cleanup_record(1234), "1234");
    assert_eq!(cleanup_record(i64::MIN), i64::MIN.to_string());
}

#[test]
fn vacuum_is_tried_three_times() {
    assert_eq!(vacuum_step(0, true), VacuumStep::Succeeded);
    assert_eq!(vacuum_step(0, false), VacuumStep::Retry { delay_ms: 1000 });
    assert_eq!(vacuum_step(1, false), VacuumStep::Retry { delay_ms: 1000 });
    assert_eq!(vacuum_step(2, false), VacuumStep::GiveUp);
}

#[test]
fn buffer_drops_beyond_its_capacity() {
    let mut buffer = DataBuffer::new(2);
    assert!(buffer.is_empty());
    assert_eq!(buffer.push(annotated(1)), PushOutcome::Stored);
    assert_eq!(buffer.push(annotated(2)), PushOutcome::Stored);
    assert_eq!(buffer.push(annotated(3)), PushOutcome::DroppedFirst);
    assert_eq!(buffer.push(annotated(4)), PushOutcome::Dropped);
    assert_eq!(buffer.len(), 2);
    let items = buffer.take();
    assert_eq!(items.len(), 2);
    assert_eq!(items[1].trade.time, 2);
    assert!(buffer.flush_succeeded());
    assert!(!buffer.flush_succeeded());
}

#[test]
fn flusher_keeps_trades_in_order() {
    let mut flusher = BatchFlusher::new(3);
    assert!(!flusher.has_pending());
    assert_eq!(flusher.ingest(&event(&[1, 2])), 0);
    assert_eq!(flusher.ingest(&event(&[3, 4, 5])), 2);
    assert_eq!(flusher.pending_count(), 3);
    let times: Vec<u64> = flusher.take_all().iter().map(|t| t.trade.time).collect();
    assert_eq!(times, vec![1, 2, 3]);
    assert!(flusher.flush_succeeded());
}

#[test]
fn exchanges_of_a_batch_occur_once() {
    let mut other = annotated(2);
    other.ticker = Ticker::new("ETH-USDT", Exchange::OkexSpot);
    let found = exchanges_of(&vec![annotated(1), other, annotated(3)]);
    assert_eq!(found.len(), 2);
    assert!(found.contains(&Exchange::BinanceSpot) && found.contains(&Exchange::OkexSpot));
    assert!(exchanges_of(&Vec::new()).is_empty());
}

#[test]
fn flush_loop_has_one_batch_in_flight() {
    let mut flush = FlushLoop::new(10);
    assert_eq!(flush.on_event(&event(&[1])), 0);
    assert_eq!(flush.on_event(&event(&[2])), 0);
    let first = flush.on_tick().unwrap();
    assert_eq!(first.len(), 2);
    assert_eq!(flush.on_event(&event(&[3])), 0);
    assert!(flush.on_tick().is_none());
    let report = flush.on_batch_ended(BatchEnd::Written);
    assert!(!report.recovered && !report.retry_committed);
    let second = flush.on_tick().unwrap();
    assert_eq!(second[0].trade.time, 3);
    assert_eq!(flush.on_event(&event(&[4])), 0);
    assert!(flush.on_closed().wait_for_batch);
    flush.on_batch_ended(BatchEnd::Lost);
    let last = flush.on_closed();
    assert!(!last.wait_for_batch && last.retry.is_none());
    assert_eq!(last.batch.unwrap().len(), 1);
}

#[test]
fn failed_batches_are_retried_first() {
    let mut flush = FlushLoop::new(2);
    assert_eq!(flush.on_event(&event(&[1, 2, 3])), 1);
    let batch = flush.on_tick().unwrap();
    assert_eq!(batch.len(), 2);
    flush.on_batch_ended(BatchEnd::Failed(batch));
    assert_eq!(flush.on_event(&event(&[4])), 0);
    let again = flush.on_tick().unwrap();
    assert_eq!((again[0].trade.time, again.len()), (1, 2));
    let report = flush.on_batch_ended(BatchEnd::Written);
    assert!(report.recovered && report.retry_committed);
    let newer = flush.on_tick().unwrap();
    assert_eq!(newer[0].trade.time, 4);
    flush.on_batch_ended(BatchEnd::Failed(newer));
    let last = flush.on_closed();
    assert_eq!(last.retry.unwrap()[0].trade.time, 4);
    assert!(last.batch.is_none());
}

#[test]
fn chunks_rebuild_the_stream() {
    let bytes: Vec<u8> = (0..ARROW_CHUNK_SIZE * 2 + 17).map(|n| n as u8).collect();
    let mut writer = ChunkWriter::new();
    assert!(writer.flush().is_none());
    let mut chunks = Vec::new();
    for part in bytes.chunks(100_000) {
        chunks.extend(writer.write(part));
    }
    assert_eq!(chunks.len(), 2);
    assert_eq!(writer.sent_bytes(), ARROW_CHUNK_SIZE * 2);
    chunks.extend(writer.flush());
    assert_eq!(chunks[0].len(), ARROW_CHUNK_SIZE);
    assert_eq!(chunks.concat(), bytes);
    assert_eq!(writer.sent_bytes(), bytes.len());
    assert_eq!(writer.fill(&[1, 2]), (2, None));
}

#[test]
fn cleanup_is_configured() {
    assert_eq!(
        CleanupConfig::from_config(0, None),
        Err(CleanupError::ZeroRetention)
    );
    let config = CleanupConfig::from_config(168, Some(2)).unwrap();
    assert_eq!(config.max_storage_bytes, Some(2 * MB));
    assert_eq!(
        CleanupConfig::from_config(1, Some(0)).unwrap().max_storage_bytes,
        None
    );
    assert_eq!(CleanupConfig::from_settings(0, 0).retention_hours, 0);
    assert_eq!(
        CleanupConfig::keep_all(Some(1)).max_storage_bytes,
        Some(MB)
    );
    assert!(CleanupScheduler::new(config, Ok(4 * MB)).is_ok());
    let error = CleanupScheduler::new(config, Ok(4 * MB + 1)).unwrap_err();
    assert_eq!(
        error,
        CleanupError::TooLarge {
            current: 4 * MB + 1,
            max: 2 * MB
        }
    );
    assert!(error.message().contains("Database is 4 MB"));
    assert!(error.message().contains("(e.g. to 5 MB or higher)"));
    let unmeasured = CleanupScheduler::new(config, Err("denied".to_string())).unwrap_err();
    assert_eq!(
        unmeasured.message(),
        "Failed to check storage size at startup: denied"
    );
    assert!(CleanupError::ZeroRetention
        .message()
        .contains("must be > 0 (got 0)"));
    let scheduler = CleanupScheduler::new(config, Ok(0)).unwrap();
    assert!(scheduler.starts_over_cap(2 * MB + 1));
    assert!(!scheduler.starts_over_cap(2 * MB));
}

#[test]
fn cleanup_delays_are_bounded() {
    let hour = 3_600_000;
    let capped =
        CleanupScheduler::new(CleanupConfig::from_config(2, Some(1)).unwrap(), Ok(0)).unwrap();
    let free = CleanupScheduler::new(CleanupConfig::from_config(2, None).unwrap(), Ok(0)).unwrap();
    assert_eq!(free.next_delay_ms(None, 5), 60_000);
    assert_eq!(free.next_delay_ms(Some(0), hour), hour as u64);
    assert_eq!(free.next_delay_ms(Some(0), 3 * hour), 60_000);
    assert_eq!(capped.next_delay_ms(Some(0), hour), 300_000);
    assert_eq!(purge_batch_size(0), 1_000);
    assert_eq!(purge_batch_size(5_000_000), 10_000);
    assert_eq!(purge_batch_size(u64::MAX), 100_000);
    assert!(should_vacuum(0, 0));
    assert!(should_vacuum(25, 100));
    assert!(!should_vacuum(24, 100));
}

#[test]
fn cleanup_without_cap_purges_and_records() {
    let scheduler =
        CleanupScheduler::new(CleanupConfig::from_config(2, None).unwrap(), Ok(0)).unwrap();
    let mut pass = scheduler.begin_pass();
    assert_eq!(
        pass.next_action(),
        CleanupAction::PurgeOld { retention_hours: 2 }
    );
    assert_eq!(
        pass.step(CleanupReply::Deleted(3)),
        CleanupAction::Checkpoint
    );
    assert_eq!(pass.step(CleanupReply::Done), CleanupAction::RecordCleanup);
    assert_eq!(
        pass.step(CleanupReply::Recorded(77)),
        CleanupAction::Finished {
            last_cleanup: Some(77)
        }
    );
}

#[test]
fn failed_time_purge_is_not_recorded() {
    let scheduler =
        CleanupScheduler::new(CleanupConfig::from_config(2, None).unwrap(), Ok(0)).unwrap();
    let mut pass = scheduler.begin_pass();
    let mut action = pass.step(CleanupReply::Failed);
    let mut steps = 0;
    while !matches!(action, CleanupAction::Finished { .. }) {
        assert!(action != CleanupAction::RecordCleanup);
        action = pass.step(CleanupReply::Done);
        steps += 1;
        assert!(steps < 10);
    }
    assert_eq!(
        action,
        CleanupAction::Finished { last_cleanup: None }
    );
}

#[test]
fn size_purge_is_bounded() {
    let scheduler =
        CleanupScheduler::new(CleanupConfig::from_config(2, Some(1)).unwrap(), Ok(0)).unwrap();
    let mut pass = scheduler.begin_pass();
    let mut action = pass.next_action();
    let mut deletes = 0;
    let mut steps = 0;
    loop {
        let reply = match action {
            CleanupAction::PurgeOld { .. } => CleanupReply::Deleted(0),
            CleanupAction::CountTrades => CleanupReply::Counted(u64::MAX),
            CleanupAction::DeleteOldest { rows } => {
                assert_eq!(rows, purge_batch_size(MB * 4 / 5));
                deletes += 1;
                CleanupReply::Deleted(rows as u64)
            }
            CleanupAction::MeasureStorage => CleanupReply::Measured(3 * MB),
            CleanupAction::RecordCleanup => CleanupReply::Recorded(1),
            CleanupAction::Finished { .. } => break,
            _ => CleanupReply::Done,
        };
        action = pass.step(reply);
        steps += 1;
        assert!(steps < 1000);
    }
    assert!(deletes > 0 && deletes <= MAX_PURGE_ITERATIONS);
}
